//! Compiling a whole feed: every table, linked by position, then the bytes.

use vstd::prelude::*;

use vstd::string::StrSliceExecFns;

use crate::compiler::feed::{
    lemma_sum_of_take, opt_len, sum_of, text_run, utf8, Feed, RawRoute, RawStop, RawStopTime, RawTransfer,
    RawTrip,
};
use crate::compiler::ids::{
    assigned_id, build_ids, concat, last_position, lemma_concat_take, lemma_last_position, packed_run, run_text, Keyed,
};
use crate::compiler::routes::{
    build_route_to_trips, build_routes, route_ids_of, route_positions, route_text_len, route_texts_added,
    route_trip_pairs,
};
use crate::compiler::runs::{
    count_below, firsts, grouped_multiset, grouped_set, has_key, is_lookup, seconds_of, strictly_increasing, lemma_count_below_le, lemma_count_below_step, lemma_count_eq_stretch, run_of,
    lemma_occurrences_multiset, lemma_occurrences_pointwise, lemma_occurrences_within, lemma_occurrences_zero,
    occurrences,
};
use crate::compiler::services::{
    build_services, calendar_ordered, collected_services, days_of, lemma_mask_offset_grows, mask_fits, mask_offset,
    padded_len, service_ids_of, service_positions, byte_bit, service_runs,
};
use crate::compiler::shapes::{build_shapes, shape_groups, shape_ids_of, shape_point};
use crate::compiler::stop_times::{
    build_stop_times, in_trip_order, is_permutation, kept_stop_times, opt_distance, opt_time, trip_keys,
};
use crate::compiler::stops::{
    build_stop_search, build_stop_to_trips, build_stops, search_name, stop_ids_of, stop_of, stop_positions,
    lemma_text_run_kept, stop_text_len, stop_texts_added, stop_trip_pairs,
};
use crate::compiler::transfers::{build_transfers, from_keys, kept_transfers, to_keys, transfer_of};
use crate::compiler::trip_patterns::{
    build_trip_patterns, lemma_labels_are_runs, pattern_keys, pattern_seq, pattern_stop_pairs, stop_labels,
    stops_laid_out, trip_stop_seq, BuildTripPatternsResult,
};
use crate::compiler::trips::{
    build_trips, kept_trips, shape_of, trip_ids_of, trip_positions, trip_text_len, trip_texts_added,
};
use crate::consumer::lookup::{all_below, ids_ok, key_at, lookup_runs, run_entries, run_fits};
use crate::consumer::service::{mask_reachable, service_active};
use crate::consumer::valid::queryable;
use crate::codec::{le_word, record_at};
use crate::consumer::{parse_network, Consumer, NetworkView, HEADER_SIZE, MAGIC};
use crate::models::header::Header;
use crate::GTFS_BIN_VERSION;
use crate::Error;
use crate::models::idx::Idx;
use crate::models::sentinel::Sentinel;
use crate::models::slice::{Slice, StringSlice};
use crate::models::slice_builder::SliceBuilder;
use crate::models::idx::{
    RouteIdx, SearchIdx, ServiceIdx, StopIdx, StopTimeIdx, TransferIdx, TripIdx, TripPatternIdx,
};
use crate::models::trip_pattern::TripPattern;
use crate::models::coordinate::Distance;
use crate::models::time::{Duration, Time};
use crate::models::route::Route;
use crate::models::slice::{
    RouteIdSlice, SearchSlice, ServiceIdSlice, ShapeSlice, StopIdSlice, StopTimeSlice, TransferSlice, TripIdSlice,
    TripPatternSlice, TripSlice,
};
use crate::models::route_type::{route_type_bits, RouteType};
use crate::models::location_type::{location_code, LocationType};
use crate::models::coordinate::Coordinate;
use crate::sorting::sorted;
use crate::models::date::Date;
use crate::models::opt::Opt;
use crate::models::service::Service;
use crate::models::transfer::Transfer;
use crate::models::search_stop::SearchStop;
use crate::models::stop::Stop;
use crate::models::stoptime::StopTime;
use crate::models::trip::Trip;
use crate::text_map::{find, first_seen, last_index, lemma_last_index, TextMap};

verus! {

/// Why a feed could not be compiled.
#[derive(Debug, Clone, Copy, PartialEq, Eq, Structural)]
pub enum CompileError {
    /// A table, a text section or the service mask would be larger than its
    /// positions can number.
    TooLarge,
}

/// The trips whose route is one of the feed's routes.
pub open spec fn kept_trips_of(feed: Feed) -> Seq<RawTrip> {
    feed.trips@.filter(|t: RawTrip| route_ids_of(feed.routes@).contains(utf8(t.route_id)))
}

/// The bytes of all optional texts of the feed that go to the strings section.
pub open spec fn text_total(feed: Feed) -> nat {
    sum_of(feed.stops@, |s: RawStop| stop_text_len(s)) + sum_of(feed.routes@, |r: RawRoute| route_text_len(r))
        + sum_of(feed.trips@, |t: RawTrip| trip_text_len(t)) + sum_of(
        feed.stop_times@,
        |st: RawStopTime| opt_len(st.stop_headsign),
    )
}

/// Every table, text section and the service mask of the compiled feed can
/// be numbered by its positions.
pub open spec fn feed_fits(feed: Feed) -> bool {
    &&& feed.stops@.len() < u32::MAX
    &&& feed.routes@.len() < u32::MAX
    &&& feed.trips@.len() < u32::MAX
    &&& feed.stop_times@.len() < u32::MAX
    &&& feed.shapes@.len() <= u32::MAX
    &&& feed.transfers@.len() <= u32::MAX
    &&& feed.calendar@.len() + feed.calendar_dates@.len() < u32::MAX
    &&& text_total(feed) <= u32::MAX
    &&& mask_fits(collected_services(feed.calendar@, feed.calendar_dates@))
    &&& concat(first_seen(stop_ids_of(feed.stops@))).len() <= u32::MAX
    &&& concat(first_seen(route_ids_of(feed.routes@))).len() <= u32::MAX
    &&& concat(first_seen(trip_ids_of(kept_trips_of(feed)))).len() <= u32::MAX
    &&& concat(first_seen(service_ids_of(feed.calendar@, feed.calendar_dates@))).len() <= u32::MAX
}

/// The bytes of an optional text.
fn opt_text_len(v: &Option<String>) -> (r: usize)
    ensures
        r == opt_len(*v),
{
    match v {
        Some(s) => s.as_str().as_bytes().len(),
        None => 0,
    }
}

/// `a + b`, or nothing where the sum does not fit.
fn add_len(a: Option<usize>, b: usize) -> (r: Option<usize>)
    ensures
        match r {
            Some(n) => a matches Some(x) && n == x + b,
            None => a is None || a->0 + b > usize::MAX,
        },
{
    match a {
        Some(x) => x.checked_add(b),
        None => None,
    }
}

/// The bytes of the optional texts of the stops, where they fit.
fn stop_texts_total(raw: &[RawStop]) -> (r: Option<usize>)
    ensures
        match r {
            Some(n) => n == sum_of(raw@, |s: RawStop| stop_text_len(s)),
            None => sum_of(raw@, |s: RawStop| stop_text_len(s)) > usize::MAX,
        },
{
    let ghost f = |s: RawStop| stop_text_len(s);
    let mut total: usize = 0;
    let mut i: usize = 0;
    while i < raw.len()
        invariant
            i <= raw@.len(),
            f == (|s: RawStop| stop_text_len(s)),
            total == sum_of(raw@.take(i as int), f),
        decreases raw@.len() - i,
    {
        let s = &raw[i];
        proof {
            lemma_sum_of_take(raw@, f, i as int);
        }
        let n = add_len(add_len(add_len(Some(total), opt_text_len(&s.code)), opt_text_len(&s.name)), opt_text_len(&s.description));
        match n {
            Some(t) => {
                total = t;
            },
            None => {
                return None;
            },
        }
        i = i + 1;
    }
    proof {
        assert(raw@.take(i as int) =~= raw@);
    }
    Some(total)
}

/// The bytes of the optional texts of the routes, where they fit.
fn route_texts_total(raw: &[RawRoute]) -> (r: Option<usize>)
    ensures
        match r {
            Some(n) => n == sum_of(raw@, |x: RawRoute| route_text_len(x)),
            None => sum_of(raw@, |x: RawRoute| route_text_len(x)) > usize::MAX,
        },
{
    let ghost f = |x: RawRoute| route_text_len(x);
    let mut total: usize = 0;
    let mut i: usize = 0;
    while i < raw.len()
        invariant
            i <= raw@.len(),
            f == (|x: RawRoute| route_text_len(x)),
            total == sum_of(raw@.take(i as int), f),
        decreases raw@.len() - i,
    {
        let x = &raw[i];
        proof {
            lemma_sum_of_take(raw@, f, i as int);
        }
        let n = add_len(add_len(add_len(Some(total), opt_text_len(&x.long_name)), opt_text_len(&x.short_name)), opt_text_len(&x.desc));
        match n {
            Some(t) => {
                total = t;
            },
            None => {
                return None;
            },
        }
        i = i + 1;
    }
    proof {
        assert(raw@.take(i as int) =~= raw@);
    }
    Some(total)
}

/// The bytes of the optional texts of the trips, where they fit.
fn trip_texts_total(raw: &[RawTrip]) -> (r: Option<usize>)
    ensures
        match r {
            Some(n) => n == sum_of(raw@, |t: RawTrip| trip_text_len(t)),
            None => sum_of(raw@, |t: RawTrip| trip_text_len(t)) > usize::MAX,
        },
{
    let ghost f = |t: RawTrip| trip_text_len(t);
    let mut total: usize = 0;
    let mut i: usize = 0;
    while i < raw.len()
        invariant
            i <= raw@.len(),
            f == (|t: RawTrip| trip_text_len(t)),
            total == sum_of(raw@.take(i as int), f),
        decreases raw@.len() - i,
    {
        let t = &raw[i];
        proof {
            lemma_sum_of_take(raw@, f, i as int);
        }
        let n = add_len(add_len(Some(total), opt_text_len(&t.trip_headsign)), opt_text_len(&t.trip_short_name));
        match n {
            Some(v) => {
                total = v;
            },
            None => {
                return None;
            },
        }
        i = i + 1;
    }
    proof {
        assert(raw@.take(i as int) =~= raw@);
    }
    Some(total)
}

/// The bytes of the headsigns of the stop times, where they fit.
fn stop_time_texts_total(raw: &[RawStopTime]) -> (r: Option<usize>)
    ensures
        match r {
            Some(n) => n == sum_of(raw@, |st: RawStopTime| opt_len(st.stop_headsign)),
            None => sum_of(raw@, |st: RawStopTime| opt_len(st.stop_headsign)) > usize::MAX,
        },
{
    let ghost f = |st: RawStopTime| opt_len(st.stop_headsign);
    let mut total: usize = 0;
    let mut i: usize = 0;
    while i < raw.len()
        invariant
            i <= raw@.len(),
            f == (|st: RawStopTime| opt_len(st.stop_headsign)),
            total == sum_of(raw@.take(i as int), f),
        decreases raw@.len() - i,
    {
        let st = &raw[i];
        proof {
            lemma_sum_of_take(raw@, f, i as int);
        }
        let n = add_len(Some(total), opt_text_len(&st.stop_headsign));
        match n {
            Some(v) => {
                total = v;
            },
            None => {
                return None;
            },
        }
        i = i + 1;
    }
    proof {
        assert(raw@.take(i as int) =~= raw@);
    }
    Some(total)
}

/// The bytes of all keys of `map` one after the other, where they fit.
fn keys_total<V>(map: &TextMap<V>) -> (r: Option<usize>)
    requires
        map.wf(),
    ensures
        match r {
            Some(n) => n == concat(map.keys()).len(),
            None => concat(map.keys()).len() > usize::MAX,
        },
{
    let mut total: usize = 0;
    let mut i: usize = 0;
    let n = map.len();
    while i < n
        invariant
            map.wf(),
            n == map.keys().len(),
            i <= n,
            total == concat(map.keys().take(i as int)).len(),
        decreases n - i,
    {
        let k = map.key_at(i);
        proof {
            assert(map.keys().take(i + 1).drop_last() =~= map.keys().take(i as int));
            assert(map.keys().take(i + 1).last() == map.keys()[i as int]);
        }
        match total.checked_add(k.as_bytes().len()) {
            Some(v) => {
                total = v;
            },
            None => {
                proof {
                    lemma_concat_prefix(map.keys(), i + 1);
                }
                return None;
            },
        }
        i = i + 1;
    }
    proof {
        assert(map.keys().take(i as int) =~= map.keys());
    }
    Some(total)
}

/// The texts of a prefix, one after the other, begin the texts of all.
proof fn lemma_concat_prefix_of(ts: Seq<Seq<u8>>, p: int)
    requires
        0 <= p <= ts.len(),
    ensures
        concat(ts.take(p)).len() <= concat(ts).len(),
        concat(ts).subrange(0, concat(ts.take(p)).len() as int) == concat(ts.take(p)),
    decreases ts.len() - p,
{
    if p < ts.len() {
        assert(ts.take(p + 1).drop_last() =~= ts.take(p));
        lemma_concat_prefix_of(ts, p + 1);
        let a = concat(ts.take(p));
        let b = concat(ts.take(p + 1));
        assert(b == a + ts[p]);
        assert(concat(ts).subrange(0, a.len() as int) =~= a) by {
            assert forall|i: int| 0 <= i < a.len() implies concat(ts).subrange(0, a.len() as int)[i] == a[i] by {
                assert(concat(ts).subrange(0, b.len() as int)[i] == b[i]);
            }
        }
    } else {
        assert(ts.take(p) =~= ts);
        assert(concat(ts).subrange(0, concat(ts).len() as int) =~= concat(ts));
    }
}

/// The texts of a prefix are no longer together than all texts.
proof fn lemma_concat_prefix(ts: Seq<Seq<u8>>, p: int)
    requires
        0 <= p <= ts.len(),
    ensures
        concat(ts.take(p)).len() <= concat(ts).len(),
    decreases ts.len() - p,
{
    if p < ts.len() {
        assert(ts.take(p + 1).drop_last() =~= ts.take(p));
        assert(concat(ts.take(p + 1)).len() == concat(ts.take(p)).len() + ts[p].len());
        lemma_concat_prefix(ts, p + 1);
    } else {
        assert(ts.take(p) =~= ts);
    }
}

/// Every value of a map that resolves identifiers to values below `n` is
/// below `n`.
proof fn lemma_values_below<I: Idx>(map: &TextMap<I>, ids: Seq<Seq<u8>>, vals: Seq<I>, n: nat)
    requires
        map.wf(),
        map.indexes(ids, vals),
        ids.len() == vals.len(),
        forall|j: int| 0 <= j < vals.len() ==> (#[trigger] vals[j]).spec_index() < n,
    ensures
        forall|p: int| 0 <= p < map.values().len() ==> (#[trigger] map.values()[p]).spec_index() < n,
        forall|x: Seq<u8>| #[trigger] map.spec_get(x) matches Some(v) ==> v.spec_index() < n,
{
    map.lemma_wf();
    crate::text_map::lemma_first_seen(ids);
    assert forall|x: Seq<u8>| #[trigger] map.spec_get(x) is Some implies map.spec_get(x)->0.spec_index() < n by {
        lemma_last_index(ids, x);
    }
    assert forall|p: int| 0 <= p < map.values().len() implies (#[trigger] map.values()[p]).spec_index() < n by {
        let key = map.keys()[p];
        crate::text_map::lemma_find_unique(map.keys(), key, p);
        assert(map.spec_get(key) == Some(map.values()[p]));
    }
}

/// The trips whose route the route map knows are those whose route is one
/// of the feed's routes.
proof fn lemma_kept_trips(feed: Feed, route_map: &TextMap<crate::models::idx::RouteIdx>)
    requires
        route_map.indexes(route_ids_of(feed.routes@), route_positions(feed.routes@.len())),
    ensures
        kept_trips(feed.trips@, route_map) == kept_trips_of(feed),
{
    let ids = route_ids_of(feed.routes@);
    let p1 = |t: RawTrip| route_map.spec_get(utf8(t.route_id)) is Some;
    let p2 = |t: RawTrip| ids.contains(utf8(t.route_id));
    assert forall|t: RawTrip| #[trigger] p1(t) == p2(t) by {
        lemma_last_index(ids, utf8(t.route_id));
    }
    assert(p1 =~= p2);
}

/// The stop time runs of the first `n` trips hold no more stop times than
/// hold a trip below `n`.
proof fn lemma_trip_runs_total(trips: Seq<Trip>, keys: Seq<u32>, n: int)
    requires
        0 <= n <= trips.len(),
        forall|t: int| 0 <= t < trips.len() ==> run_of(keys, t, #[trigger] trips[t].stop_times),
    ensures
        sum_of(trips.take(n), |t: Trip| t.stop_times.count as nat) <= count_below(keys, n),
    decreases n,
{
    if n > 0 {
        let f = |t: Trip| t.stop_times.count as nat;
        lemma_trip_runs_total(trips, keys, n - 1);
        lemma_sum_of_take(trips, f, n - 1);
        lemma_count_below_step(keys, n - 1);
        let r = trips[n - 1].stop_times;
        assert(run_of(keys, n - 1, r));
        if has_key(keys, n - 1) {
            lemma_count_eq_stretch(keys, n - 1, r.start as int, r.start + r.count);
        }
    }
}

/// The tables counted in 32 bits have room for the feed, and its texts fit.
pub open spec fn sizes_fit(feed: Feed) -> bool {
    &&& feed.stops@.len() < u32::MAX
    &&& feed.routes@.len() < u32::MAX
    &&& feed.trips@.len() < u32::MAX
    &&& feed.stop_times@.len() < u32::MAX
    &&& feed.shapes@.len() <= u32::MAX
    &&& feed.transfers@.len() <= u32::MAX
    &&& feed.calendar@.len() + feed.calendar_dates@.len() < u32::MAX
    &&& text_total(feed) <= u32::MAX
}

/// Whether the tables counted in 32 bits have room for the feed, and its
/// texts fit.
fn check_sizes(feed: &Feed) -> (r: bool)
    ensures
        r == sizes_fit(*feed),
{
    if feed.stops.len() >= 0xffff_ffff || feed.routes.len() >= 0xffff_ffff || feed.trips.len() >= 0xffff_ffff
        || feed.stop_times.len() >= 0xffff_ffff || feed.shapes.len() > 0xffff_ffff || feed.transfers.len()
        > 0xffff_ffff || feed.calendar.len() >= 0xffff_ffff || feed.calendar_dates.len() >= 0xffff_ffff
        - feed.calendar.len() {
        return false;
    }
    let stop_texts = stop_texts_total(feed.stops.as_slice());
    let route_texts = route_texts_total(feed.routes.as_slice());
    let trip_texts = trip_texts_total(feed.trips.as_slice());
    let stop_time_texts = stop_time_texts_total(feed.stop_times.as_slice());
    let texts = match (stop_texts, route_texts, trip_texts, stop_time_texts) {
        (Some(a), Some(b), Some(c), Some(d)) => add_len(add_len(a.checked_add(b), c), d),
        _ => None,
    };
    match texts {
        Some(n) => n <= 0xffff_ffff,
        None => false,
    }
}

/// The stops table and its identifier map, as the later steps use them.
pub open spec fn stops_ok(feed: Feed, stops: Seq<Stop>, map: &TextMap<StopIdx>) -> bool {
    &&& map.wf()
    &&& map.indexes(stop_ids_of(feed.stops@), stop_positions(feed.stops@.len()))
    &&& stops.len() == feed.stops@.len()
    &&& forall|p: int| 0 <= p < map.values().len() ==> (#[trigger] map.values()[p]).0 < stops.len()
    &&& forall|x: Seq<u8>| #[trigger] map.spec_get(x) matches Some(v) ==> v.0 < stops.len()
    &&& forall|i: int|
        0 <= i < stops.len() ==> (#[trigger] stops[i]).id == StopIdSlice::spec_none() && stops[i].idx.0 == i && (
        stops[i].parent_idx.0.0 != u32::MAX ==> stops[i].parent_idx.0.0 < stops.len()) && stops[i].parent_idx
            == parent_link(feed, i)
    &&& forall|i: int| 0 <= i < stops.len() ==> #[trigger] stop_kept(feed.stops@[i], stops[i])
}

/// The routes table and its identifier map, as the later steps use them.
pub open spec fn routes_ok(feed: Feed, routes: Seq<Route>, map: &TextMap<RouteIdx>) -> bool {
    &&& map.wf()
    &&& map.indexes(route_ids_of(feed.routes@), route_positions(feed.routes@.len()))
    &&& routes.len() == feed.routes@.len()
    &&& forall|p: int| 0 <= p < map.values().len() ==> (#[trigger] map.values()[p]).0 < routes.len()
    &&& forall|x: Seq<u8>| #[trigger] map.spec_get(x) matches Some(v) ==> v.0 < routes.len()
    &&& forall|i: int|
        0 <= i < routes.len() ==> (#[trigger] routes[i]).id == RouteIdSlice::spec_none() && routes[i].idx == RouteIdx(
            i as u32,
        ) && routes[i].route_type == RouteType(route_type_bits(feed.routes@[i].route_type))
}

/// Stop `st` keeps the location type and the position of its row `s`.
pub open spec fn stop_kept(s: RawStop, st: Stop) -> bool {
    &&& st.location_type == LocationType(location_code(s.location_type))
    &&& st.coordinate == match s.coordinate {
        Some(c) => Opt(c),
        None => Opt(Coordinate::spec_none()),
    }
}

/// Each stop keeps the location type and the position of its row, and each
/// route the mode flag of its row's route type.
pub open spec fn kinds_of(feed: Feed, n: NetworkView) -> bool {
    &&& forall|i: int| 0 <= i < n.stops.len() ==> #[trigger] stop_kept(feed.stops@[i], n.stops[i])
    &&& forall|k: int|
        0 <= k < n.routes.len() ==> (#[trigger] n.routes[k]).route_type == RouteType(
            route_type_bits(feed.routes@[k].route_type),
        )
}

/// The trips and stop times tables and the trip identifier map, as the later
/// steps use them.
pub open spec fn trips_ok(
    feed: Feed,
    trips: Seq<Trip>,
    map: &TextMap<TripIdx>,
    stop_times: Seq<StopTime>,
    n_stops: nat,
    n_routes: nat,
) -> bool {
    &&& map.wf()
    &&& map.indexes(trip_ids_of(kept_trips_of(feed)), trip_positions(kept_trips_of(feed).len()))
    &&& trips.len() == kept_trips_of(feed).len()
    &&& trips.len() <= feed.trips@.len()
    &&& stop_times.len() <= feed.stop_times@.len()
    &&& forall|p: int| 0 <= p < map.values().len() ==> (#[trigger] map.values()[p]).0 < trips.len()
    &&& forall|t: int|
        0 <= t < trips.len() ==> (#[trigger] trips[t]).idx.0 == t && trips[t].route_idx.0 < n_routes && trips[t].id
            == TripIdSlice::spec_none() && run_of(trip_keys(stop_times), t, trips[t].stop_times) && trips[t].route_idx
            == route_link(feed, t) && trips[t].service_idx == service_link(feed, t)
    &&& forall|k: int|
        0 <= k < stop_times.len() ==> (#[trigger] stop_times[k]).stop_idx.0 < n_stops && stop_times[k].trip_idx.0
            < trips.len()
}

/// Builds the stops table.
fn stage_stops(feed: &Feed, slice_builder: &mut SliceBuilder<StringSlice>) -> (r: (Vec<Stop>, TextMap<StopIdx>))
    requires
        old(slice_builder).wf(),
        old(slice_builder).text().len() + sum_of(feed.stops@, |s: RawStop| stop_text_len(s)) <= usize::MAX,
        feed.stops@.len() < u32::MAX,
    ensures
        final(slice_builder).wf(),
        final(slice_builder).text().len() <= old(slice_builder).text().len() + sum_of(
            feed.stops@,
            |s: RawStop| stop_text_len(s),
        ),
        final(slice_builder).extends(&*old(slice_builder)),
        stops_ok(*feed, r.0@, &r.1),
        forall|i: int|
            0 <= i < r.0@.len() ==> stop_texts_added(&*final(slice_builder), feed.stops@[i]) && (#[trigger] r.0@[i]).code
                == text_run(&*final(slice_builder), feed.stops@[i].code) && r.0@[i].name == text_run(
                &*final(slice_builder),
                feed.stops@[i].name,
            ) && r.0@[i].desc == text_run(&*final(slice_builder), feed.stops@[i].description),
{
    let (stops, map) = build_stops(feed.stops.as_slice(), slice_builder);
    proof {
        lemma_values_below(&map, stop_ids_of(feed.stops@), stop_positions(feed.stops@.len()), feed.stops@.len());
        assert forall|i: int| 0 <= i < stops@.len() implies (#[trigger] stops@[i]).parent_idx == parent_link(*feed, i) by {
            if let Some(p) = feed.stops@[i].parent_station {
                lemma_last_index(stop_ids_of(feed.stops@), utf8(p));
            }
        }
        assert forall|i: int| 0 <= i < stops@.len() implies #[trigger] stop_kept(feed.stops@[i], stops@[i]) by {
            assert(stops@[i] == stop_of(feed.stops@[i], i, &*slice_builder, &map));
        }
    }
    (stops, map)
}

/// Builds the routes table.
fn stage_routes(feed: &Feed, slice_builder: &mut SliceBuilder<StringSlice>) -> (r: (Vec<Route>, TextMap<RouteIdx>))
    requires
        old(slice_builder).wf(),
        old(slice_builder).text().len() + sum_of(feed.routes@, |x: RawRoute| route_text_len(x)) <= usize::MAX,
        feed.routes@.len() < u32::MAX,
    ensures
        final(slice_builder).wf(),
        final(slice_builder).text().len() <= old(slice_builder).text().len() + sum_of(
            feed.routes@,
            |x: RawRoute| route_text_len(x),
        ),
        final(slice_builder).extends(&*old(slice_builder)),
        routes_ok(*feed, r.0@, &r.1),
        forall|i: int|
            0 <= i < r.0@.len() ==> route_texts_added(&*final(slice_builder), feed.routes@[i]) && (#[trigger] r.0@[
                i
            ]).long_name == text_run(&*final(slice_builder), feed.routes@[i].long_name) && r.0@[i].short_name
                == text_run(&*final(slice_builder), feed.routes@[i].short_name) && r.0@[i].description == text_run(
                &*final(slice_builder),
                feed.routes@[i].desc,
            ),
{
    let (routes, map) = build_routes(feed.routes.as_slice(), slice_builder);
    proof {
        lemma_values_below(&map, route_ids_of(feed.routes@), route_positions(feed.routes@.len()), feed.routes@.len());
    }
    (routes, map)
}

/// Builds the trips and stop times tables.
fn stage_trips(
    feed: &Feed,
    route_map: &TextMap<RouteIdx>,
    service_map: &TextMap<ServiceIdx>,
    shape_map: &TextMap<ShapeSlice>,
    stop_map: &TextMap<StopIdx>,
    n_stops: usize,
    n_routes: usize,
    slice_builder: &mut SliceBuilder<StringSlice>,
) -> (r: (Vec<Trip>, TextMap<TripIdx>, Vec<StopTime>))
    requires
        old(slice_builder).wf(),
        old(slice_builder).text().len() + sum_of(feed.trips@, |t: RawTrip| trip_text_len(t)) + sum_of(
            feed.stop_times@,
            |st: RawStopTime| opt_len(st.stop_headsign),
        ) <= usize::MAX,
        feed.trips@.len() < u32::MAX,
        feed.stop_times@.len() < u32::MAX,
        route_map.wf(),
        route_map.indexes(route_ids_of(feed.routes@), route_positions(feed.routes@.len())),
        forall|x: Seq<u8>| #[trigger] route_map.spec_get(x) matches Some(v) ==> v.0 < n_routes,
        service_map.wf(),
        service_map.indexes(
            service_ids_of(feed.calendar@, feed.calendar_dates@),
            service_positions(service_ids_of(feed.calendar@, feed.calendar_dates@).len()),
        ),
        service_ids_of(feed.calendar@, feed.calendar_dates@).len() < u32::MAX,
        shape_map.wf(),
        stop_map.wf(),
        forall|x: Seq<u8>| #[trigger] stop_map.spec_get(x) matches Some(v) ==> v.0 < n_stops,
        stop_map.indexes(stop_ids_of(feed.stops@), stop_positions(feed.stops@.len())),
    ensures
        final(slice_builder).wf(),
        final(slice_builder).extends(&*old(slice_builder)),
        stop_times_built(*feed, r.2@, &*final(slice_builder)),
        forall|t: int| 0 <= t < r.0@.len() ==> (#[trigger] r.0@[t]).shape == shape_of(kept_trips_of(*feed)[t], shape_map),
        final(slice_builder).text().len() <= old(slice_builder).text().len() + sum_of(
            feed.trips@,
            |t: RawTrip| trip_text_len(t),
        ) + sum_of(feed.stop_times@, |st: RawStopTime| opt_len(st.stop_headsign)),
        trips_ok(*feed, r.0@, &r.1, r.2@, n_stops as nat, n_routes as nat),
        forall|t: int|
            0 <= t < r.0@.len() ==> trip_texts_added(&*final(slice_builder), kept_trips_of(*feed)[t]) && (
            #[trigger] r.0@[t]).headsign == text_run(&*final(slice_builder), kept_trips_of(*feed)[t].trip_headsign)
                && r.0@[t].short_name == text_run(&*final(slice_builder), kept_trips_of(*feed)[t].trip_short_name),
{
    proof {
        lemma_kept_trips(*feed, route_map);
        feed.trips@.filter_lemma(|t: RawTrip| route_map.spec_get(utf8(t.route_id)) is Some);
    }
    let (mut trips, trip_map) = build_trips(feed.trips.as_slice(), route_map, service_map, shape_map, slice_builder);
    let ghost kept = kept_trips_of(*feed);
    proof {
        lemma_values_below(&trip_map, trip_ids_of(kept), trip_positions(kept.len()), kept.len());
    }
    let ghost trips0 = trips@;
    let ghost b_mid = *slice_builder;
    let stop_times = build_stop_times(feed.stop_times.as_slice(), &mut trips, &trip_map, stop_map, slice_builder);
    proof {
        slice_builder.lemma_extends_trans(&b_mid, &*old(slice_builder));
        assert forall|t: int| 0 <= t < trips@.len() implies trip_texts_added(&*slice_builder, kept[t]) && (
        #[trigger] trips@[t]).headsign == text_run(&*slice_builder, kept[t].trip_headsign) && trips@[t].short_name
            == text_run(&*slice_builder, kept[t].trip_short_name) by {
            assert(trip_texts_added(&b_mid, kept[t]));
            lemma_text_run_kept(&*slice_builder, &b_mid, kept[t].trip_headsign);
            lemma_text_run_kept(&*slice_builder, &b_mid, kept[t].trip_short_name);
            if let Some(h) = kept[t].trip_headsign {
                slice_builder.lemma_lookup_kept(&b_mid, utf8(h));
            }
            if let Some(h) = kept[t].trip_short_name {
                slice_builder.lemma_lookup_kept(&b_mid, utf8(h));
            }
        }
        let ksts = kept_stop_times(feed.stop_times@, &trip_map, stop_map);
        feed.stop_times@.filter_lemma(
            |st: RawStopTime| trip_map.spec_get(utf8(st.trip_id)) is Some && stop_map.spec_get(utf8(st.stop_id)) is Some,
        );
        assert forall|t: int| 0 <= t < trips@.len() implies (#[trigger] trips@[t]).idx.0 == t && trips@[t].route_idx.0
            < n_routes && trips@[t].id == TripIdSlice::spec_none() && run_of(
            trip_keys(stop_times@),
            t,
            trips@[t].stop_times,
        ) && trips@[t].route_idx == route_link(*feed, t) && trips@[t].service_idx == service_link(*feed, t) by {
            let raw = kept[t];
            assert(route_map.spec_get(utf8(raw.route_id)) is Some);
            assert(trips0[t].route_idx == route_map.spec_get(utf8(raw.route_id))->0);
            lemma_last_index(route_ids_of(feed.routes@), utf8(raw.route_id));
            lemma_last_index(service_ids_of(feed.calendar@, feed.calendar_dates@), utf8(raw.service_id));
        }
        assert forall|k: int| 0 <= k < stop_times@.len() implies (#[trigger] stop_times@[k]).stop_idx.0 < n_stops
            && stop_times@[k].trip_idx.0 < trips@.len() by {
            let perm = choose|perm: Seq<int>|
                {
                    &&& crate::compiler::stop_times::is_permutation(perm, stop_times@.len())
                    &&& forall|m: int|
                        0 <= m < stop_times@.len() ==> #[trigger] stop_times@[m] == crate::compiler::stop_times::placed(
                            crate::compiler::stop_times::stop_time_of(ksts[perm[m]], &trip_map, stop_map, &*slice_builder),
                            m,
                        )
                };
            let st = ksts[perm[k]];
            assert(stop_map.spec_get(utf8(st.stop_id)) is Some);
            assert(trip_map.spec_get(utf8(st.trip_id)) is Some);
        }
    }
    proof {
        let ksts = kept_stop_times(feed.stop_times@, &trip_map, stop_map);
        lemma_kept_stop_times(*feed, &trip_map, stop_map);
        let rows = kept_stop_times_of(*feed);
        assert(ksts == rows);
        feed.stop_times@.filter_lemma(
            |st: RawStopTime| trip_map.spec_get(utf8(st.trip_id)) is Some && stop_map.spec_get(utf8(st.stop_id)) is Some,
        );
        let perm = choose|perm: Seq<int>|
            {
                &&& is_permutation(perm, stop_times@.len())
                &&& forall|m: int|
                    0 <= m < stop_times@.len() ==> #[trigger] stop_times@[m] == crate::compiler::stop_times::placed(
                        crate::compiler::stop_times::stop_time_of(ksts[perm[m]], &trip_map, stop_map, &*slice_builder),
                        m,
                    )
            };
        assert forall|m: int| 0 <= m < rows.len() implies stop_time_from(*feed, rows[perm[m]], m, #[trigger] stop_times@[m])
            && stop_times@[m].headsign == text_run(&*slice_builder, rows[perm[m]].stop_headsign) && (
            rows[perm[m]].stop_headsign is Some ==> slice_builder.spec_lookup(utf8(rows[perm[m]].stop_headsign->0))
                is Some) by {
            let j = perm[m];
            let st = rows[j];
            assert(ksts[j] == st);
            assert(trip_map.spec_get(utf8(st.trip_id)) is Some && stop_map.spec_get(utf8(st.stop_id)) is Some);
            assert(stop_time_trip(*feed, st) is Some);
            assert(stop_time_stop(*feed, st) is Some);
        }
        assert(is_permutation(perm, rows.len()));
        assert forall|t: int| 0 <= t < trips@.len() implies (#[trigger] trips@[t]).shape == shape_of(
            kept[t],
            shape_map,
        ) by {
            assert(trips@[t] == crate::compiler::stop_times::with_stop_times(trips0[t], trips@[t].stop_times));
        }
    }
    (trips, trip_map, stop_times)
}

/// The tables derived from stops, routes, trips and stop times: the trips
/// of each stop, the stop search, the trips of each route and the trip
/// patterns.
fn stage_derived(stops: &Vec<Stop>, routes: &Vec<Route>, trips: &Vec<Trip>, stop_times: &Vec<StopTime>) -> (r: (
    (Vec<TripIdx>, Vec<TripSlice>),
    (Vec<SearchStop>, Vec<StopIdx>),
    (Vec<TripIdx>, Vec<TripSlice>),
    BuildTripPatternsResult,
))
    requires
        stops@.len() < u32::MAX,
        trips@.len() < u32::MAX,
        stop_times@.len() < u32::MAX,
        forall|i: int|
            0 <= i < stops@.len() ==> (#[trigger] stops@[i]).idx.0 == i && (stops@[i].parent_idx.0.0 != u32::MAX
                ==> stops@[i].parent_idx.0.0 < stops@.len()),
        forall|t: int|
            0 <= t < trips@.len() ==> (#[trigger] trips@[t]).idx.0 == t && trips@[t].route_idx.0 < routes@.len()
                && run_of(trip_keys(stop_times@), t, trips@[t].stop_times),
        forall|k: int|
            0 <= k < stop_times@.len() ==> (#[trigger] stop_times@[k]).stop_idx.0 < stops@.len()
                && stop_times@[k].trip_idx.0 < trips@.len(),
    ensures
        lookup_runs(r.0.1@, r.0.0@, stops@.len()),
        all_below(r.0.0@, trips@.len()),
        forall|g: int| 0 <= g < r.1.0@.len() ==> run_fits(r.1.1@, (#[trigger] r.1.0@[g]).stops),
        all_below(r.1.1@, stops@.len()),
        lookup_runs(r.2.1@, r.2.0@, routes@.len()),
        all_below(r.2.0@, trips@.len()),
        forall|g: int|
            0 <= g < r.3.0@.len() ==> run_fits(r.3.1@, (#[trigger] r.3.0@[g]).stops) && run_fits(
                r.3.2@,
                r.3.0@[g].trips,
            ),
        all_below(r.3.2@, trips@.len()),
        r.3.3@.len() == trips@.len(),
        lookup_runs(r.3.5@, r.3.4@, stops@.len()),
        patterns_ok(trips@, stop_times@, r.3.0@, r.3.1@, r.3.2@, r.3.3@),
        all_below(r.3.1@, stops@.len()),
        all_below(r.3.3@, r.3.0@.len()),
        all_below(r.3.4@, r.3.0@.len()),
        search_ok(stops@, r.1.0@, r.1.1@),
        grouped_set(stop_trip_pairs(stop_times@), r.0.0@, r.0.1@, stops@.len()),
        grouped_multiset(route_trip_pairs(trips@), r.2.0@, r.2.1@, routes@.len()),
        grouped_multiset(pattern_stop_pairs(r.3.0@, r.3.1@), r.3.4@, r.3.5@, stops@.len()),
{
    let stop_to_trips = build_stop_to_trips(stops.as_slice(), stop_times.as_slice());
    let search = build_stop_search(stops.as_slice());
    let route_to_trips = build_route_to_trips(trips.as_slice(), routes.as_slice());
    proof {
        StopTimeSlice::lemma_none_is_empty();
        assert forall|t: int| 0 <= t < trips@.len() implies (#[trigger] trips@[t]).stop_times.start
            + trips@[t].stop_times.count <= stop_times@.len() by {
            assert(run_of(trip_keys(stop_times@), t, trips@[t].stop_times));
        }
        lemma_trip_runs_total(trips@, trip_keys(stop_times@), trips@.len() as int);
        lemma_count_below_le(trip_keys(stop_times@), trips@.len() as int);
        assert(trips@.take(trips@.len() as int) =~= trips@);
    }
    let patterns = build_trip_patterns(trips.as_slice(), stops.as_slice(), stop_times.as_slice());
    proof {
        lemma_stop_to_trips_ok(stops@, trips@, stop_times@, stop_to_trips.0@, stop_to_trips.1@);
        lemma_route_to_trips_ok(routes@, trips@, route_to_trips.0@, route_to_trips.1@);
        SearchSlice::lemma_none_is_empty();
        TripSlice::lemma_none_is_empty();
        let gk = choose|perm: Seq<int>, gk: Seq<u32>|
            #![trigger perm.len(), gk.len()]
            {
                &&& perm.len() == search.1@.len() == gk.len()
                &&& forall|m: int| 0 <= m < perm.len() ==> 0 <= #[trigger] perm[m] < stops@.len()
                    && search.1@[m] == stops@[perm[m]].idx && search_name(stops@, perm[m]) == Some(
                    search.0@[gk[m] as int].name,
                )
                &&& forall|a: int, b: int| 0 <= a < b < perm.len() ==> perm[a] != perm[b]
                &&& forall|i: int|
                    0 <= i < stops@.len() && search_name(stops@, i) is Some ==> exists|m: int|
                        0 <= m < perm.len() && perm[m] == i
                &&& forall|m: int| 0 <= m < gk.len() ==> #[trigger] gk[m] < search.0@.len()
                &&& forall|g: int|
                    0 <= g < search.0@.len() ==> (#[trigger] search.0@[g]).idx == SearchIdx(g as u32) && search.0@[g].route_type
                        == RouteType::spec_none() && run_of(gk, g, search.0@[g].stops)
                &&& forall|g1: int, g2: int| 0 <= g1 < g2 < search.0@.len() ==> search.0@[g1].name != search.0@[g2].name
                &&& forall|a: int, b: int|
                    #![trigger perm[a], perm[b]]
                    0 <= a < b < perm.len() && gk[a] == gk[b] ==> perm[a] < perm[b]
            };
        let perm = gk.0;
        let keys = gk.1;
        assert forall|g: int| 0 <= g < search.0@.len() implies run_fits(search.1@, (#[trigger] search.0@[g]).stops) by {
            assert(run_of(keys, g, search.0@[g].stops));
        }
        assert forall|m: int| 0 <= m < search.1@.len() implies (#[trigger] search.1@[m]).spec_index() < stops@.len() by {
            assert(0 <= perm[m] < stops@.len());
        }
        let pk = pattern_keys(patterns.2@, patterns.3@);
        assert forall|g: int| 0 <= g < patterns.0@.len() implies run_fits(patterns.1@, (#[trigger] patterns.0@[g]).stops)
            && run_fits(patterns.2@, patterns.0@[g].trips) by {
            assert(run_of(pk, g, patterns.0@[g].trips));
        }
        let ps = patterns.2@.map_values(|t: TripIdx| t.0 as int);
        assert forall|m: int| 0 <= m < patterns.2@.len() implies (#[trigger] patterns.2@[m]).spec_index() < trips@.len() by {
            assert(ps[m] == patterns.2@[m].0 as int);
        }
        let sp = choose|p: Seq<(u32, u32)>|
            {
                &&& sorted(p)
                &&& p.to_multiset() == pattern_stop_pairs(patterns.0@, patterns.1@)
                &&& seconds_of(patterns.4@, p)
                &&& is_lookup(firsts(p), patterns.5@, stops@.len())
            };
        lemma_lookup_runs(firsts(sp), patterns.5@, patterns.4@, stops@.len());
    }
    (stop_to_trips, search, route_to_trips, patterns)
}

/// Every entry of a lookup built from keys lies within the items, one run
/// per key.
proof fn lemma_lookup_runs<T, S: Slice>(keys: Seq<u32>, lookup: Seq<S>, table: Seq<T>, n: nat)
    requires
        is_lookup(keys, lookup, n),
        keys.len() == table.len(),
    ensures
        lookup_runs(lookup, table, n),
{
    S::lemma_none_is_empty();
    assert forall|g: int| 0 <= g < n implies run_fits(table, #[trigger] lookup[g]) by {
        assert(run_of(keys, g, lookup[g]));
    }
}

/// The identifiers of records, packed, found and sorted, where the map
/// resolves each identifier of `ids` to the last record carrying it: each
/// record reads back its identifier, or none where a later record carries
/// the same one; the records keep all else.
fn stage_ids_read_back<R: Keyed, I: Idx>(
    records: &mut Vec<R>,
    map: &TextMap<I>,
    Ghost(ids): Ghost<Seq<Seq<u8>>>,
    Ghost(vals): Ghost<Seq<I>>,
) -> (r: Option<(Vec<I>, Vec<u8>)>)
    requires
        map.wf(),
        map.indexes(ids, vals),
        ids.len() == vals.len(),
        old(records)@.len() == ids.len(),
        old(records)@.len() <= u32::MAX,
        forall|j: int| 0 <= j < vals.len() ==> (#[trigger] vals[j]).spec_index() == j,
        forall|p: int| 0 <= p < map.values().len() ==> (#[trigger] map.values()[p]).spec_index() < old(records)@.len(),
        forall|j: int| 0 <= j < old(records)@.len() ==> (#[trigger] old(records)@[j]).spec_id() == R::Id::spec_none(),
        R::Id::spec_none().spec_start() + R::Id::spec_none().spec_count() == 0,
    ensures
        r is None <==> concat(map.keys()).len() > u32::MAX,
        final(records)@.len() == old(records)@.len(),
        forall|j: int|
            0 <= j < old(records)@.len() ==> #[trigger] final(records)@[j] == old(records)@[j].spec_with_id(
                final(records)@[j].spec_id(),
            ),
        r matches Some(built) ==> ids_ok(final(records)@, built.1@, built.0@),
        r matches Some(built) ==> lookup_complete(built.0@, old(records)@.len()),
        r matches Some(built) ==> ids_read_back(final(records)@, built.1@, ids),
{
    let ghost before = records@;
    let r = stage_ids(records, map);
    if let Some(built) = &r {
        proof {
            lemma_ids_read_back(map, ids, vals, before, records@, built.1@);
        }
    }
    r
}

/// The identifiers of records, packed, found and sorted; the records keep
/// all else.
fn stage_ids<R: Keyed, I: Idx>(records: &mut Vec<R>, map: &TextMap<I>) -> (r: Option<(Vec<I>, Vec<u8>)>)
    requires
        map.wf(),
        old(records)@.len() <= u32::MAX,
        forall|p: int| 0 <= p < map.values().len() ==> (#[trigger] map.values()[p]).spec_index() < old(records)@.len(),
        forall|j: int|
            0 <= j < old(records)@.len() ==> (#[trigger] old(records)@[j]).spec_id().spec_start() + old(
                records,
            )@[j].spec_id().spec_count() == 0,
    ensures
        r is None <==> concat(map.keys()).len() > u32::MAX,
        r is None ==> final(records)@ == old(records)@,
        final(records)@.len() == old(records)@.len(),
        forall|j: int|
            0 <= j < old(records)@.len() ==> #[trigger] final(records)@[j] == old(records)@[j].spec_with_id(
                final(records)@[j].spec_id(),
            ),
        r matches Some(built) ==> ids_ok(final(records)@, built.1@, built.0@),
        r matches Some(built) ==> lookup_complete(built.0@, old(records)@.len()),
        r matches Some(built) ==> forall|j: int|
            0 <= j < old(records)@.len() ==> match last_position(
                map.values().map_values(|v: I| v.spec_index() as int),
                j,
            ) {
                Some(p) => run_text(built.1@, (#[trigger] final(records)@[j]).spec_id()) == map.keys()[p]
                    && map.values()[p].spec_index() == j,
                None => final(records)@[j].spec_id() == old(records)@[j].spec_id(),
            },
{
    let fits = match keys_total(map) {
        Some(n) => n <= 0xffff_ffff,
        None => false,
    };
    if !fits {
        proof {
            assert forall|j: int| 0 <= j < old(records)@.len() implies #[trigger] records@[j] == old(records)@[j].spec_with_id(
                records@[j].spec_id(),
            ) by {
                records@[j].lemma_with_id(records@[j].spec_id(), records@[j].spec_id());
            }
        }
        return None;
    }
    let ghost old_records = records@;
    let (lookup, text) = build_ids(records, map);
    let bytes = text.as_str().as_bytes_vec();
    proof {
        R::Id::lemma_none_is_empty();
        map.lemma_wf();
        let keys = map.keys();
        let runs = choose|runs: Seq<R::Id>|
            {
                &&& runs.len() == keys.len()
                &&& forall|p: int| 0 <= p < runs.len() ==> packed_run(keys, p, #[trigger] runs[p])
                &&& forall|j: int|
                    0 <= j < old_records.len() ==> #[trigger] records@[j] == old_records[j].spec_with_id(
                        assigned_id(keys, map.values(), runs, old_records[j], j),
                    )
            };
        assert forall|j: int| 0 <= j < old_records.len() implies #[trigger] records@[j] == old_records[j].spec_with_id(
            records@[j].spec_id(),
        ) && records@[j].spec_id().spec_start() + records@[j].spec_id().spec_count() <= bytes@.len() && match last_position(
            map.values().map_values(|v: I| v.spec_index() as int),
            j,
        ) {
            Some(p) => run_text(bytes@, records@[j].spec_id()) == keys[p] && map.values()[p].spec_index() == j,
            None => records@[j].spec_id() == old_records[j].spec_id(),
        } by {
            let id = assigned_id(keys, map.values(), runs, old_records[j], j);
            old_records[j].lemma_with_id(id, id);
            match last_position(map.values().map_values(|v: I| v.spec_index() as int), j) {
                Some(p) => {
                    lemma_last_position(map.values().map_values(|v: I| v.spec_index() as int), j);
                    assert(packed_run(keys, p, runs[p]));
                    lemma_concat_take(keys, p);
                    lemma_concat_prefix_of(keys, p + 1);
                    assert(keys.take(p + 1).drop_last() =~= keys.take(p));
                    let c = concat(keys.take(p));
                    assert(concat(keys.take(p + 1)) == c + keys[p]);
                    assert(bytes@.subrange(c.len() as int, (c.len() + keys[p].len()) as int) =~= keys[p]) by {
                        assert forall|i: int| 0 <= i < keys[p].len() implies bytes@[c.len() + i] == keys[p][i] by {
                            assert(bytes@.subrange(0, concat(keys.take(p + 1)).len() as int)[c.len() + i] == (c
                                + keys[p])[c.len() + i]);
                        }
                    }
                },
                None => {},
            }
        }
    }
    proof {
        let perm = positions_of(lookup@);
        assert forall|a: int, b: int| 0 <= a < b < perm.len() implies perm[a] != perm[b] by {
            if perm[a] == perm[b] {
                I::lemma_index_injective(lookup@[a], lookup@[b]);
            }
        }
        assert(crate::compiler::stop_times::is_permutation(perm, old_records.len()));
        crate::compiler::stop_times::lemma_permutation_onto(perm, old_records.len());
    }
    Some((lookup, bytes))
}

/// Each service keeps the days and weekdays its calendar row and calendar
/// dates give it, and its mask bit of each day of that range says whether it
/// runs that day.
pub open spec fn services_read_back(feed: Feed, services: Seq<Service>, mask: Seq<u8>) -> bool {
    let cs = collected_services(feed.calendar@, feed.calendar_dates@);
    &&& forall|k: int|
        0 <= k < services.len() ==> (#[trigger] services[k]).start_date == cs[k].start_date && services[k].end_date
            == cs[k].end_date && services[k].weekdays == cs[k].weekdays
    &&& forall|k: int, d: int|
        #![trigger service_runs(feed.calendar@, feed.calendar_dates@, k, d)]
        0 <= k < services.len() && services[k].start_date.0 <= d <= services[k].end_date.0 ==> byte_bit(
            mask,
            services[k].active_mask.start + (d - services[k].start_date.0),
        ) == service_runs(feed.calendar@, feed.calendar_dates@, k, d)
}

/// The services, their identifier map and the mask bytes, as the later steps
/// use them.
pub open spec fn services_ok(feed: Feed, services: Seq<Service>, map: &TextMap<ServiceIdx>, mask: Seq<u8>) -> bool {
    &&& map.wf()
    &&& map.indexes(
        service_ids_of(feed.calendar@, feed.calendar_dates@),
        service_positions(service_ids_of(feed.calendar@, feed.calendar_dates@).len()),
    )
    &&& services.len() < u32::MAX
    &&& services.len() == service_ids_of(feed.calendar@, feed.calendar_dates@).len()
    &&& services_read_back(feed, services, mask)
    &&& forall|p: int| 0 <= p < map.values().len() ==> (#[trigger] map.values()[p]).0 < services.len()
    &&& forall|k: int|
        0 <= k < services.len() ==> (#[trigger] services[k]).id == ServiceIdSlice::spec_none() && services[k].idx
            == ServiceIdx(k as u32) && (services[k].start_date.0
            <= services[k].end_date.0 ==> services[k].active_mask.start + (services[k].end_date.0
            - services[k].start_date.0) <= u32::MAX && (services[k].active_mask.start + (services[k].end_date.0
            - services[k].start_date.0)) / 8 < mask.len())
}

/// Builds the services and the mask of the days they run.
fn stage_services(feed: &Feed) -> (r: Option<(Vec<Service>, TextMap<ServiceIdx>, Vec<u8>)>)
    requires
        feed.calendar@.len() + feed.calendar_dates@.len() < u32::MAX,
        calendar_ordered(feed.calendar@, feed.calendar_dates@),
    ensures
        r is None <==> !mask_fits(collected_services(feed.calendar@, feed.calendar_dates@)),
        r matches Some(built) ==> services_ok(*feed, built.0@, &built.1, built.2@),
{
    let built = build_services(feed.calendar.as_slice(), feed.calendar_dates.as_slice());
    match built {
        None => None,
        Some((services, map, mask)) => {
            proof {
                let cs = collected_services(feed.calendar@, feed.calendar_dates@);
                let n = cs.len();
                lemma_map_values_below_services(&map, service_ids_of(feed.calendar@, feed.calendar_dates@));
                assert forall|k: int, d: int|
                    #![trigger service_runs(feed.calendar@, feed.calendar_dates@, k, d)]
                    0 <= k < services@.len() && services@[k].start_date.0 <= d <= services@[k].end_date.0 implies byte_bit(
                    mask@,
                    services@[k].active_mask.start + (d - services@[k].start_date.0),
                ) == service_runs(feed.calendar@, feed.calendar_dates@, k, d) by {
                    if k + 1 < n {
                        lemma_mask_offset_grows(cs, k, n as int);
                    }
                    let off = mask_offset(cs, k);
                    assert(mask_offset(cs, k + 1) == off + padded_len(off, days_of(cs[k])));
                    assert(off <= mask_offset(cs, n as int));
                    let o = d - cs[k].start_date.0;
                    assert(services@[k].active_mask.start == off);
                    assert(byte_bit(mask@, mask_offset(cs, k) + o) == (o < days_of(cs[k]) && service_runs(
                        feed.calendar@,
                        feed.calendar_dates@,
                        k,
                        cs[k].start_date.0 + o,
                    )));
                }
                assert forall|k: int| 0 <= k < services@.len() implies (#[trigger] services@[k]).id
                    == ServiceIdSlice::spec_none() && services@[k].idx == ServiceIdx(k as u32) && (services@[k].start_date.0 <= services@[k].end_date.0
                    ==> services@[k].active_mask.start + (services@[k].end_date.0 - services@[k].start_date.0)
                    <= u32::MAX && (services@[k].active_mask.start + (services@[k].end_date.0
                    - services@[k].start_date.0)) / 8 < mask@.len()) by {
                    if k + 1 < n {
                        lemma_mask_offset_grows(cs, k, n as int);
                    }
                    let off = mask_offset(cs, k);
                    let pad = padded_len(off, days_of(cs[k]));
                    assert(mask_offset(cs, k + 1) == off + pad);
                    assert(off + pad <= mask_offset(cs, n as int));
                    if services@[k].start_date.0 <= services@[k].end_date.0 {
                        let x = services@[k].active_mask.start + (services@[k].end_date.0 - services@[k].start_date.0);
                        assert(x < mask_offset(cs, n as int));
                        lemma_div_below(x, mask_offset(cs, n as int) as int);
                    }
                }
            }
            Some((services, map, mask))
        },
    }
}

/// `x < l` gives `x / 8 < (l + 7) / 8`.
proof fn lemma_div_below(x: int, l: int)
    requires
        0 <= x < l,
    ensures
        x / 8 < (l + 7) / 8,
{
    assert(x / 8 < (l + 7) / 8) by (nonlinear_arith)
        requires
            0 <= x < l,
    ;
}

/// A map that resolves identifiers to service positions holds only positions
/// below their count.
proof fn lemma_map_values_below_services(map: &TextMap<ServiceIdx>, ids: Seq<Seq<u8>>)
    requires
        map.wf(),
        map.indexes(ids, service_positions(ids.len())),
        ids.len() <= u32::MAX,
    ensures
        forall|p: int| 0 <= p < map.values().len() ==> (#[trigger] map.values()[p]).0 < ids.len(),
{
    lemma_values_below(map, ids, service_positions(ids.len()), ids.len());
}

/// The transfers, ordered and looked up from both ends.
pub open spec fn transfers_ok(
    transfers: Seq<Transfer>,
    out: Seq<TransferSlice>,
    in_order: Seq<TransferIdx>,
    in_lookup: Seq<TransferSlice>,
    n_stops: nat,
) -> bool {
    &&& lookup_runs(out, transfers, n_stops)
    &&& lookup_runs(in_lookup, in_order, n_stops)
    &&& all_below(in_order, transfers.len())
}

/// Builds the transfers and their lookups.
fn stage_transfers(feed: &Feed, stop_map: &TextMap<StopIdx>, n_stops: usize) -> (r: (
    Vec<Transfer>,
    Vec<TransferSlice>,
    Vec<TransferIdx>,
    Vec<TransferSlice>,
))
    requires
        stop_map.wf(),
        stop_map.indexes(stop_ids_of(feed.stops@), stop_positions(feed.stops@.len())),
        feed.transfers@.len() <= u32::MAX,
        transfers_fit(*feed),
        n_stops == stop_map.keys().len(),
    ensures
        transfers_ok(r.0@, r.1@, r.2@, r.3@, n_stops as nat),
        transfers_of(*feed, r.0@),
        is_lookup(from_keys(r.0@), r.1@, n_stops as nat),
        is_permutation(r.2@.map_values(|i: TransferIdx| i.0 as int), r.0@.len()),
        forall|a: int, b: int|
            0 <= a < b < r.2@.len() ==> r.0@[r.2@[a].0 as int].to_stop_idx.0 <= r.0@[r.2@[b].0 as int].to_stop_idx.0,
        is_lookup(to_keys(r.0@, r.2@), r.3@, n_stops as nat),
{
    proof {
        lemma_transfer_stops_fit(*feed, stop_map);
    }
    let (transfers, out, in_order, in_lookup) = build_transfers(feed.transfers.as_slice(), stop_map, n_stops);
    proof {
        lemma_transfers_of(*feed, stop_map, transfers@);
        lemma_lookup_runs(from_keys(transfers@), out@, transfers@, n_stops as nat);
        lemma_lookup_runs(to_keys(transfers@, in_order@), in_lookup@, in_order@, n_stops as nat);
        let ps = in_order@.map_values(|i: TransferIdx| i.0 as int);
        assert forall|m: int| 0 <= m < in_order@.len() implies (#[trigger] in_order@[m]).spec_index() < transfers@.len() by {
            assert(ps[m] == in_order@[m].0 as int);
        }
    }
    (transfers, out, in_order, in_lookup)
}

/// The parent station of stop row `i`: the last stop with the parent's
/// identifier, or none where the row names no known parent.
pub open spec fn parent_link(feed: Feed, i: int) -> Opt<StopIdx> {
    match feed.stops@[i].parent_station {
        Some(p) => match last_index(stop_ids_of(feed.stops@), utf8(p)) {
            Some(j) => Opt(StopIdx(j as u32)),
            None => Opt(StopIdx::spec_none()),
        },
        None => Opt(StopIdx::spec_none()),
    }
}

/// The route of kept trip `t`: the last route with its route identifier.
pub open spec fn route_link(feed: Feed, t: int) -> RouteIdx {
    RouteIdx(last_index(route_ids_of(feed.routes@), utf8(kept_trips_of(feed)[t].route_id))->0 as u32)
}

/// The service of kept trip `t`: the last service with its service
/// identifier, or none where no service has it.
pub open spec fn service_link(feed: Feed, t: int) -> ServiceIdx {
    match last_index(
        service_ids_of(feed.calendar@, feed.calendar_dates@),
        utf8(kept_trips_of(feed)[t].service_id),
    ) {
        Some(j) => ServiceIdx(j as u32),
        None => ServiceIdx::spec_none(),
    }
}

/// The run `run` of the strings section holds the text `v`; no run where
/// there is no text.
pub open spec fn opt_text_at(strings: Seq<u8>, run: Opt<StringSlice>, v: Option<String>) -> bool {
    match v {
        Some(s) => run_text(strings, run.0) == utf8(s),
        None => run == Opt(StringSlice::spec_none()),
    }
}

/// Every text of stops, routes and trips reads back from the strings
/// section.
pub open spec fn texts_of(feed: Feed, n: NetworkView) -> bool {
    &&& forall|i: int|
        0 <= i < n.stops.len() ==> opt_text_at(n.strings, (#[trigger] n.stops[i]).code, feed.stops@[i].code)
            && opt_text_at(n.strings, n.stops[i].name, feed.stops@[i].name) && opt_text_at(
            n.strings,
            n.stops[i].desc,
            feed.stops@[i].description,
        )
    &&& forall|k: int|
        0 <= k < n.routes.len() ==> opt_text_at(n.strings, (#[trigger] n.routes[k]).long_name, feed.routes@[k].long_name)
            && opt_text_at(n.strings, n.routes[k].short_name, feed.routes@[k].short_name) && opt_text_at(
            n.strings,
            n.routes[k].description,
            feed.routes@[k].desc,
        )
    &&& forall|t: int|
        0 <= t < n.trips.len() ==> opt_text_at(
            n.strings,
            (#[trigger] n.trips[t]).headsign,
            kept_trips_of(feed)[t].trip_headsign,
        ) && opt_text_at(n.strings, n.trips[t].short_name, kept_trips_of(feed)[t].trip_short_name)
}

/// A text added to a builder reads back from the final strings, where they
/// fit in 32 bits.
proof fn lemma_opt_text_at(
    last: &SliceBuilder<StringSlice>,
    at: &SliceBuilder<StringSlice>,
    strings: Seq<u8>,
    v: Option<String>,
)
    requires
        at.wf(),
        last.wf(),
        last.extends(at),
        v is Some ==> at.spec_lookup(utf8(v->0)) is Some,
        strings == last.text(),
        last.text().len() <= u32::MAX,
    ensures
        opt_text_at(strings, text_run(at, v), v),
{
    lemma_text_run_kept(last, at, v);
    if let Some(s) = v {
        last.lemma_lookup_kept(at, utf8(s));
        last.lemma_wf();
        assert(last.spec_lookup(utf8(s)) is Some);
    }
}

/// Stops link to their parent station, and trips to their route and
/// service, by identifier; each record knows its own position.
pub open spec fn links_of(feed: Feed, n: NetworkView) -> bool {
    &&& forall|i: int|
        0 <= i < n.stops.len() ==> (#[trigger] n.stops[i]).idx == StopIdx(i as u32) && n.stops[i].parent_idx
            == parent_link(feed, i)
    &&& forall|t: int|
        0 <= t < n.trips.len() ==> (#[trigger] n.trips[t]).idx == TripIdx(t as u32) && n.trips[t].route_idx
            == route_link(feed, t) && n.trips[t].service_idx == service_link(feed, t)
    &&& forall|k: int| 0 <= k < n.routes.len() ==> (#[trigger] n.routes[k]).idx == RouteIdx(k as u32)
    &&& forall|k: int| 0 <= k < n.services.len() ==> (#[trigger] n.services[k]).idx == ServiceIdx(k as u32)
}

/// The kept trip that stop time row `st` names: the last with its trip
/// identifier.
pub open spec fn stop_time_trip(feed: Feed, st: RawStopTime) -> Option<int> {
    last_index(trip_ids_of(kept_trips_of(feed)), utf8(st.trip_id))
}

/// The stop that stop time row `st` names: the last with its stop
/// identifier.
pub open spec fn stop_time_stop(feed: Feed, st: RawStopTime) -> Option<int> {
    last_index(stop_ids_of(feed.stops@), utf8(st.stop_id))
}

/// The stop time rows whose trip and stop are both known.
pub open spec fn kept_stop_times_of(feed: Feed) -> Seq<RawStopTime> {
    feed.stop_times@.filter(|st: RawStopTime| stop_time_trip(feed, st) is Some && stop_time_stop(feed, st) is Some)
}

/// Stop time `s`, at position `m`, is built from row `st`: its trip and its
/// stop found by identifier, its sequence, and the row's arrival time,
/// departure time and distance along the shape, none where the row has none.
pub open spec fn stop_time_from(feed: Feed, st: RawStopTime, m: int, s: StopTime) -> bool {
    &&& s.idx == StopTimeIdx(m as u32)
    &&& s.trip_idx == TripIdx(stop_time_trip(feed, st)->0 as u32)
    &&& s.stop_idx == StopIdx(stop_time_stop(feed, st)->0 as u32)
    &&& s.sequence == st.stop_sequence
    &&& s.arrival_time == opt_time(st.arrival_time)
    &&& s.departure_time == opt_time(st.departure_time)
    &&& s.distance_traveled == opt_distance(st.shape_dist_traveled)
}

/// The stop times as built, before the strings section is taken: each
/// comes from one kept row, whose headsign has a run in `b`.
pub open spec fn stop_times_built(feed: Feed, sts: Seq<StopTime>, b: &SliceBuilder<StringSlice>) -> bool {
    let rows = kept_stop_times_of(feed);
    &&& sts.len() == rows.len()
    &&& exists|perm: Seq<int>|
        #![trigger is_permutation(perm, rows.len())]
        is_permutation(perm, rows.len()) && forall|m: int|
            0 <= m < rows.len() ==> stop_time_from(feed, rows[perm[m]], m, #[trigger] sts[m]) && sts[m].headsign
                == text_run(b, rows[perm[m]].stop_headsign) && (rows[perm[m]].stop_headsign is Some
                ==> b.spec_lookup(utf8(rows[perm[m]].stop_headsign->0)) is Some)
    &&& forall|a: int, c: int| 0 <= a < c < sts.len() ==> in_trip_order(sts[a], sts[c])
}

/// The compiled stop times are the feed's rows whose trip and stop are
/// known, each once, ordered by trip and then by sequence, each with its
/// headsign readable back; every trip holds the run of its own.
pub open spec fn stop_times_of(feed: Feed, n: NetworkView) -> bool {
    let rows = kept_stop_times_of(feed);
    &&& n.stop_times.len() == rows.len()
    &&& exists|perm: Seq<int>|
        #![trigger is_permutation(perm, rows.len())]
        is_permutation(perm, rows.len()) && forall|m: int|
            0 <= m < rows.len() ==> stop_time_from(feed, rows[perm[m]], m, #[trigger] n.stop_times[m])
                && opt_text_at(n.strings, n.stop_times[m].headsign, rows[perm[m]].stop_headsign)
    &&& forall|a: int, c: int| 0 <= a < c < n.stop_times.len() ==> in_trip_order(n.stop_times[a], n.stop_times[c])
    &&& forall|t: int| 0 <= t < n.trips.len() ==> run_of(trip_keys(n.stop_times), t, (#[trigger] n.trips[t]).stop_times)
}

/// The rows the stop times builder keeps are the rows whose trip and stop
/// are known, and the maps find each by its last identifier.
proof fn lemma_kept_stop_times(feed: Feed, trip_map: &TextMap<TripIdx>, stop_map: &TextMap<StopIdx>)
    requires
        trip_map.indexes(trip_ids_of(kept_trips_of(feed)), trip_positions(kept_trips_of(feed).len())),
        stop_map.indexes(stop_ids_of(feed.stops@), stop_positions(feed.stops@.len())),
    ensures
        kept_stop_times(feed.stop_times@, trip_map, stop_map) == kept_stop_times_of(feed),
        forall|st: RawStopTime|
            #![trigger stop_time_trip(feed, st)]
            stop_time_trip(feed, st) is Some ==> trip_map.spec_get(utf8(st.trip_id)) == Some(
                TripIdx(stop_time_trip(feed, st)->0 as u32),
            ),
        forall|st: RawStopTime|
            #![trigger stop_time_stop(feed, st)]
            stop_time_stop(feed, st) is Some ==> stop_map.spec_get(utf8(st.stop_id)) == Some(
                StopIdx(stop_time_stop(feed, st)->0 as u32),
            ),
{
    let tids = trip_ids_of(kept_trips_of(feed));
    let sids = stop_ids_of(feed.stops@);
    let p1 = |st: RawStopTime|
        trip_map.spec_get(utf8(st.trip_id)) is Some && stop_map.spec_get(utf8(st.stop_id)) is Some;
    let p2 = |st: RawStopTime| stop_time_trip(feed, st) is Some && stop_time_stop(feed, st) is Some;
    assert forall|st: RawStopTime| #[trigger] p1(st) == p2(st) by {
        assert(trip_map.spec_get(utf8(st.trip_id)) is Some == last_index(tids, utf8(st.trip_id)) is Some);
        assert(stop_map.spec_get(utf8(st.stop_id)) is Some == last_index(sids, utf8(st.stop_id)) is Some);
    }
    assert(p1 =~= p2);
    assert forall|st: RawStopTime|
        #![trigger stop_time_trip(feed, st)]
        stop_time_trip(feed, st) is Some implies trip_map.spec_get(utf8(st.trip_id)) == Some(
            TripIdx(stop_time_trip(feed, st)->0 as u32),
        ) by {
        lemma_last_index(tids, utf8(st.trip_id));
        assert(trip_map.spec_get(utf8(st.trip_id)) == Some(
            trip_positions(kept_trips_of(feed).len())[stop_time_trip(feed, st)->0],
        ));
    }
    assert forall|st: RawStopTime|
        #![trigger stop_time_stop(feed, st)]
        stop_time_stop(feed, st) is Some implies stop_map.spec_get(utf8(st.stop_id)) == Some(
            StopIdx(stop_time_stop(feed, st)->0 as u32),
        ) by {
        lemma_last_index(sids, utf8(st.stop_id));
        assert(stop_map.spec_get(utf8(st.stop_id)) == Some(stop_positions(feed.stops@.len())[stop_time_stop(feed, st)->0]));
    }
}

/// The stop that identifier `id` names: the last stop with it.
pub open spec fn stop_named(feed: Feed, id: String) -> Option<int> {
    last_index(stop_ids_of(feed.stops@), utf8(id))
}

/// The transfer rows whose two stops are both known.
pub open spec fn kept_transfers_of(feed: Feed) -> Seq<RawTransfer> {
    feed.transfers@.filter(
        |t: RawTransfer| stop_named(feed, t.from_stop_id) is Some && stop_named(feed, t.to_stop_id) is Some,
    )
}

/// Transfer `x` is built from row `t`: its two stops found by identifier,
/// its minimum time where the row gives one, and its type.
pub open spec fn transfer_from(feed: Feed, t: RawTransfer, x: Transfer) -> bool {
    &&& x.from_stop_idx == StopIdx(stop_named(feed, t.from_stop_id)->0 as u32)
    &&& x.to_stop_idx == StopIdx(stop_named(feed, t.to_stop_id)->0 as u32)
    &&& x.min_transfer_time == match t.min_transfer_time {
        Some(v) => Opt(Duration(v)),
        None => Opt(Duration::spec_none()),
    }
    &&& x.transfer_type == t.transfer_type
}

/// The compiled transfers are the feed's rows whose two stops are known,
/// each once, ordered by the stop they leave.
pub open spec fn transfers_of(feed: Feed, ts: Seq<Transfer>) -> bool {
    let rows = kept_transfers_of(feed);
    &&& ts.len() == rows.len()
    &&& exists|perm: Seq<int>|
        #![trigger is_permutation(perm, rows.len())]
        is_permutation(perm, rows.len()) && forall|m: int|
            0 <= m < rows.len() ==> transfer_from(feed, rows[perm[m]], #[trigger] ts[m])
    &&& forall|a: int, c: int| 0 <= a < c < ts.len() ==> ts[a].from_stop_idx.0 <= ts[c].from_stop_idx.0
}

/// Every transfer row whose stops are known names stops among the first as
/// many positions as there are distinct stop identifiers: the stop lookups of
/// the transfers have one entry per distinct identifier.
pub open spec fn transfers_fit(feed: Feed) -> bool {
    let count = first_seen(stop_ids_of(feed.stops@)).len();
    forall|j: int|
        0 <= j < kept_transfers_of(feed).len() ==> stop_named(
            feed,
            (#[trigger] kept_transfers_of(feed)[j]).from_stop_id,
        )->0 < count && stop_named(feed, kept_transfers_of(feed)[j].to_stop_id)->0 < count
}

/// Whether every transfer row whose stops are known names stops among the
/// first as many positions as there are distinct stop identifiers.
pub fn transfer_stops_fit(feed: &Feed) -> (r: bool)
    requires
        feed.stops@.len() < u32::MAX,
    ensures
        r == transfers_fit(*feed),
{
    let ghost ids = stop_ids_of(feed.stops@);
    let ghost pos = stop_positions(feed.stops@.len());
    let mut id_map: TextMap<StopIdx> = TextMap::new();
    proof {
        id_map.lemma_indexes_empty();
        assert(ids.take(0) =~= Seq::<Seq<u8>>::empty());
        assert(pos.take(0) =~= Seq::<StopIdx>::empty());
    }
    let mut i: usize = 0;
    while i < feed.stops.len()
        invariant
            i <= feed.stops@.len() < u32::MAX,
            ids == stop_ids_of(feed.stops@),
            pos == stop_positions(feed.stops@.len()),
            id_map.wf(),
            id_map.indexes(ids.take(i as int), pos.take(i as int)),
        decreases feed.stops@.len() - i,
    {
        let idx = StopIdx(i as u32);
        let ghost map0 = id_map;
        id_map.insert(feed.stops[i].id.as_str(), idx);
        proof {
            id_map.lemma_indexes_insert(&map0, ids.take(i as int), pos.take(i as int), utf8(feed.stops@[i as int].id), idx);
            assert(ids.take(i as int).push(utf8(feed.stops@[i as int].id)) =~= ids.take(i + 1));
            assert(pos.take(i as int).push(idx) =~= pos.take(i + 1));
        }
        i = i + 1;
    }
    proof {
        assert(ids.take(i as int) =~= ids);
        assert(pos.take(i as int) =~= pos);
    }
    let count = id_map.len();
    let ghost raw = feed.transfers@;
    let ghost p2 = |t: RawTransfer| stop_named(*feed, t.from_stop_id) is Some && stop_named(*feed, t.to_stop_id) is Some;
    let ghost bad = |t: RawTransfer|
        p2(t) && !(stop_named(*feed, t.from_stop_id)->0 < count && stop_named(*feed, t.to_stop_id)->0 < count);
    proof {
        raw.filter_lemma(p2);
        assert(kept_transfers_of(*feed) == raw.filter(p2));
    }
    let mut k: usize = 0;
    while k < feed.transfers.len()
        invariant
            k <= raw.len(),
            raw == feed.transfers@,
            feed.stops@.len() < u32::MAX,
            id_map.wf(),
            id_map.indexes(ids, pos),
            ids == stop_ids_of(feed.stops@),
            pos == stop_positions(feed.stops@.len()),
            count == first_seen(ids).len(),
            bad == (|t: RawTransfer|
                p2(t) && !(stop_named(*feed, t.from_stop_id)->0 < count && stop_named(*feed, t.to_stop_id)->0 < count)),
            p2 == (|t: RawTransfer| stop_named(*feed, t.from_stop_id) is Some && stop_named(*feed, t.to_stop_id) is Some),
            forall|q: int| 0 <= q < k ==> !bad(#[trigger] raw[q]),
        decreases raw.len() - k,
    {
        let t = &feed.transfers[k];
        let from = id_map.get(t.from_stop_id.as_str().as_bytes());
        let to = id_map.get(t.to_stop_id.as_str().as_bytes());
        proof {
            lemma_last_index(ids, utf8(t.from_stop_id));
            lemma_last_index(ids, utf8(t.to_stop_id));
            assert(raw[k as int] == *t);
        }
        let ghost x = utf8(t.from_stop_id);
        let ghost y = utf8(t.to_stop_id);
        proof {
            assert(id_map.spec_get(x) == match last_index(ids, x) {
                Some(q) => Some(pos[q]),
                None => None::<StopIdx>,
            });
            assert(id_map.spec_get(y) == match last_index(ids, y) {
                Some(q) => Some(pos[q]),
                None => None::<StopIdx>,
            });
            assert(stop_named(*feed, t.from_stop_id) == last_index(ids, x));
            assert(stop_named(*feed, t.to_stop_id) == last_index(ids, y));
        }
        match (from, to) {
            (Some(f), Some(g)) => {
                proof {
                    let qf = last_index(ids, x)->0;
                    let qg = last_index(ids, y)->0;
                    assert(*f == pos[qf]);
                    assert(f.0 == qf);
                    assert(*g == pos[qg]);
                    assert(g.0 == qg);
                }
                if (f.0 as usize) >= count || (g.0 as usize) >= count {
                    proof {
                        assert(bad(*t));
                        raw.lemma_filter_contains(p2, k as int);
                        assert(raw.filter(p2).contains(*t));
                        let j = choose|j: int| 0 <= j < raw.filter(p2).len() && raw.filter(p2)[j] == *t;
                        assert(kept_transfers_of(*feed)[j] == *t);
                    }
                    return false;
                }
                proof {
                    assert(!bad(raw[k as int]));
                }
            },
            _ => {
                proof {
                    assert(!p2(*t));
                    assert(!bad(raw[k as int]));
                }
            },
        }
        k = k + 1;
    }
    proof {
        let kept = kept_transfers_of(*feed);
        assert forall|j: int| 0 <= j < kept.len() implies stop_named(*feed, (#[trigger] kept[j]).from_stop_id)->0
            < count && stop_named(*feed, kept[j].to_stop_id)->0 < count by {
            assert(p2(kept[j]));
            assert(raw.filter(p2).contains(kept[j]));
            raw.lemma_filter_contains_rev(p2, kept[j]);
            assert(raw.contains(kept[j]));
            let q = choose|q: int| 0 <= q < raw.len() && raw[q] == kept[j];
            assert(!bad(raw[q]));
        }
    }
    true
}

/// Where the transfers fit, every transfer the builder makes names stops
/// below the number of distinct stop identifiers.
proof fn lemma_transfer_stops_fit(feed: Feed, stop_map: &TextMap<StopIdx>)
    requires
        stop_map.indexes(stop_ids_of(feed.stops@), stop_positions(feed.stops@.len())),
        transfers_fit(feed),
    ensures
        forall|j: int|
            0 <= j < kept_transfers(feed.transfers@, stop_map).len() ==> transfer_of(
                #[trigger] kept_transfers(feed.transfers@, stop_map)[j],
                stop_map,
            ).from_stop_idx.0 < stop_map.keys().len() && transfer_of(
                kept_transfers(feed.transfers@, stop_map)[j],
                stop_map,
            ).to_stop_idx.0 < stop_map.keys().len(),
{
    let sids = stop_ids_of(feed.stops@);
    let kt = kept_transfers(feed.transfers@, stop_map);
    let rows = kept_transfers_of(feed);
    let p1 = |t: RawTransfer|
        stop_map.spec_get(utf8(t.from_stop_id)) is Some && stop_map.spec_get(utf8(t.to_stop_id)) is Some;
    let p2 = |t: RawTransfer| stop_named(feed, t.from_stop_id) is Some && stop_named(feed, t.to_stop_id) is Some;
    assert forall|t: RawTransfer| #[trigger] p1(t) == p2(t) by {
        assert(stop_map.spec_get(utf8(t.from_stop_id)) is Some == last_index(sids, utf8(t.from_stop_id)) is Some);
        assert(stop_map.spec_get(utf8(t.to_stop_id)) is Some == last_index(sids, utf8(t.to_stop_id)) is Some);
    }
    assert(p1 =~= p2);
    assert(kt == rows);
    feed.transfers@.filter_lemma(p2);
    assert forall|j: int| 0 <= j < kt.len() implies transfer_of(#[trigger] kt[j], stop_map).from_stop_idx.0
        < stop_map.keys().len() && transfer_of(kt[j], stop_map).to_stop_idx.0 < stop_map.keys().len() by {
        let t = rows[j];
        assert(p2(t));
        lemma_last_index(sids, utf8(t.from_stop_id));
        lemma_last_index(sids, utf8(t.to_stop_id));
        assert(stop_map.spec_get(utf8(t.from_stop_id)) == Some(
            stop_positions(feed.stops@.len())[stop_named(feed, t.from_stop_id)->0],
        ));
        assert(stop_map.spec_get(utf8(t.to_stop_id)) == Some(
            stop_positions(feed.stops@.len())[stop_named(feed, t.to_stop_id)->0],
        ));
    }
}

/// The transfers builder keeps the rows whose stops are known, and builds
/// each from its row.
proof fn lemma_transfers_of(feed: Feed, stop_map: &TextMap<StopIdx>, ts: Seq<Transfer>)
    requires
        stop_map.indexes(stop_ids_of(feed.stops@), stop_positions(feed.stops@.len())),
        ts.len() == kept_transfers(feed.transfers@, stop_map).len(),
        exists|perm: Seq<int>|
            {
                &&& is_permutation(perm, ts.len())
                &&& forall|m: int|
                    0 <= m < ts.len() ==> #[trigger] ts[m] == transfer_of(
                        kept_transfers(feed.transfers@, stop_map)[perm[m]],
                        stop_map,
                    )
            },
        forall|a: int, c: int| 0 <= a < c < ts.len() ==> ts[a].from_stop_idx.0 <= ts[c].from_stop_idx.0,
    ensures
        transfers_of(feed, ts),
{
    let sids = stop_ids_of(feed.stops@);
    let kt = kept_transfers(feed.transfers@, stop_map);
    let rows = kept_transfers_of(feed);
    let p1 = |t: RawTransfer|
        stop_map.spec_get(utf8(t.from_stop_id)) is Some && stop_map.spec_get(utf8(t.to_stop_id)) is Some;
    let p2 = |t: RawTransfer| stop_named(feed, t.from_stop_id) is Some && stop_named(feed, t.to_stop_id) is Some;
    assert forall|t: RawTransfer| #[trigger] p1(t) == p2(t) by {
        assert(stop_map.spec_get(utf8(t.from_stop_id)) is Some == last_index(sids, utf8(t.from_stop_id)) is Some);
        assert(stop_map.spec_get(utf8(t.to_stop_id)) is Some == last_index(sids, utf8(t.to_stop_id)) is Some);
    }
    assert(p1 =~= p2);
    assert(kt == rows);
    feed.transfers@.filter_lemma(p2);
    let perm = choose|perm: Seq<int>|
        {
            &&& is_permutation(perm, ts.len())
            &&& forall|m: int| 0 <= m < ts.len() ==> #[trigger] ts[m] == transfer_of(kt[perm[m]], stop_map)
        };
    assert forall|m: int| 0 <= m < rows.len() implies transfer_from(feed, rows[perm[m]], #[trigger] ts[m]) by {
        let t = rows[perm[m]];
        assert(ts[m] == transfer_of(t, stop_map));
        assert(p2(t));
        lemma_last_index(sids, utf8(t.from_stop_id));
        lemma_last_index(sids, utf8(t.to_stop_id));
        assert(stop_map.spec_get(utf8(t.from_stop_id)) == Some(
            stop_positions(feed.stops@.len())[stop_named(feed, t.from_stop_id)->0],
        ));
        assert(stop_map.spec_get(utf8(t.to_stop_id)) == Some(
            stop_positions(feed.stops@.len())[stop_named(feed, t.to_stop_id)->0],
        ));
    }
    assert(is_permutation(perm, rows.len()));
}

/// Trips share a pattern exactly where they call at the same stops in the
/// same order: every trip is listed once, each listed trip's stops are its
/// pattern's stops, no two patterns have the same stops, the trips of each
/// pattern form its run, which is never empty, in trip order, and the
/// patterns' stop runs follow one another in pattern order.
pub open spec fn patterns_ok(
    trips: Seq<Trip>,
    stop_times: Seq<StopTime>,
    patterns: Seq<TripPattern>,
    stop_seq: Seq<StopIdx>,
    listed: Seq<TripIdx>,
    of_trip: Seq<TripPatternIdx>,
) -> bool {
    let keys = pattern_keys(listed, of_trip);
    &&& listed.len() == trips.len()
    &&& of_trip.len() == trips.len()
    &&& is_permutation(listed.map_values(|t: TripIdx| t.0 as int), trips.len())
    &&& forall|g: int|
        0 <= g < patterns.len() ==> (#[trigger] patterns[g]).idx == TripPatternIdx(g as u32) && patterns[g].trips.count
            > 0 && run_of(keys, g, patterns[g].trips)
    &&& forall|m: int|
        0 <= m < listed.len() ==> (#[trigger] keys[m]) < patterns.len() && trip_stop_seq(
            trips[listed[m].0 as int],
            stop_times,
        ) == pattern_seq(patterns[keys[m] as int], stop_seq)
    &&& forall|g1: int, g2: int|
        0 <= g1 < g2 < patterns.len() ==> pattern_seq(patterns[g1], stop_seq) != pattern_seq(patterns[g2], stop_seq)
    &&& forall|a: int, b: int| 0 <= a < b < listed.len() && keys[a] == keys[b] ==> listed[a].0 < listed[b].0
    &&& stops_laid_out(patterns, stop_seq)
}

/// The patterns of the compiled network group its trips by their stops.
pub open spec fn patterns_of(n: NetworkView) -> bool {
    patterns_ok(
        n.trips,
        n.stop_times,
        n.trip_patterns,
        n.trip_patterns_stop_seq,
        n.trip_patterns_trips,
        n.trip_to_trip_pattern,
    )
}

/// The patterns only look at each trip's run of stop times.
proof fn lemma_patterns_keep(
    trips: Seq<Trip>,
    trips2: Seq<Trip>,
    stop_times: Seq<StopTime>,
    patterns: Seq<TripPattern>,
    stop_seq: Seq<StopIdx>,
    listed: Seq<TripIdx>,
    of_trip: Seq<TripPatternIdx>,
)
    requires
        patterns_ok(trips, stop_times, patterns, stop_seq, listed, of_trip),
        trips2.len() == trips.len(),
        forall|t: int| 0 <= t < trips.len() ==> (#[trigger] trips2[t]).stop_times == trips[t].stop_times,
    ensures
        patterns_ok(trips2, stop_times, patterns, stop_seq, listed, of_trip),
{
    let keys = pattern_keys(listed, of_trip);
    let ps = listed.map_values(|t: TripIdx| t.0 as int);
    assert forall|m: int| 0 <= m < listed.len() implies (#[trigger] keys[m]) < patterns.len() && trip_stop_seq(
        trips2[listed[m].0 as int],
        stop_times,
    ) == pattern_seq(patterns[keys[m] as int], stop_seq) by {
        assert(ps[m] == listed[m].0 as int);
        assert(trips2[listed[m].0 as int].stop_times == trips[listed[m].0 as int].stop_times);
    }
}

/// The shape of trip row `t`: where its shape identifier is one of the
/// shapes', the run of that shape's points; none otherwise.
pub open spec fn trip_shape(t: RawTrip, groups: Seq<u32>, keys: Seq<Seq<u8>>, shape: Opt<ShapeSlice>) -> bool {
    match t.shape_id {
        Some(s) => match find(keys, utf8(s)) {
            Some(g) => run_of(groups, g, shape.0),
            None => shape == Opt(ShapeSlice::spec_none()),
        },
        None => shape == Opt(ShapeSlice::spec_none()),
    }
}

/// The compiled shapes are the feed's shape points, each once, grouped by
/// shape in the order in which the shape identifiers first occur and
/// ordered by sequence within a shape; every trip holds the run of its
/// shape.
pub open spec fn shapes_of(feed: Feed, n: NetworkView) -> bool {
    let raw = feed.shapes@;
    let keys = first_seen(shape_ids_of(raw));
    &&& n.shapes.len() == raw.len()
    &&& exists|perm: Seq<int>|
        #![trigger is_permutation(perm, raw.len())]
        {
            &&& is_permutation(perm, raw.len())
            &&& forall|m: int| 0 <= m < raw.len() ==> #[trigger] n.shapes[m] == shape_point(raw[perm[m]])
            &&& forall|a: int, b: int|
                #![trigger perm[a], perm[b]]
                0 <= a < b < raw.len() ==> {
                    let ga = shape_groups(raw, perm, keys)[a];
                    let gb = shape_groups(raw, perm, keys)[b];
                    ga < gb || (ga == gb && raw[perm[a]].sequence <= raw[perm[b]].sequence)
                }
            &&& forall|t: int|
                0 <= t < n.trips.len() ==> trip_shape(
                    kept_trips_of(feed)[t],
                    shape_groups(raw, perm, keys),
                    keys,
                    (#[trigger] n.trips[t]).shape,
                )
        }
}

/// Shapes built from the feed's points, with trips linked to them by
/// identifier, are the feed's shapes.
proof fn lemma_shapes_of(feed: Feed, n: NetworkView, shape_map: &TextMap<ShapeSlice>)
    requires
        shape_map.wf(),
        shape_map.keys() == first_seen(shape_ids_of(feed.shapes@)),
        shape_map.values().len() == shape_map.keys().len(),
        n.shapes.len() == feed.shapes@.len(),
        exists|perm: Seq<int>|
            {
                &&& is_permutation(perm, feed.shapes@.len())
                &&& forall|m: int| 0 <= m < n.shapes.len() ==> #[trigger] n.shapes[m] == shape_point(feed.shapes@[perm[m]])
                &&& forall|g: int|
                    0 <= g < shape_map.keys().len() ==> run_of(
                        shape_groups(feed.shapes@, perm, shape_map.keys()),
                        g,
                        #[trigger] shape_map.values()[g],
                    )
                &&& forall|a: int, b: int|
                    #![trigger perm[a], perm[b]]
                    0 <= a < b < feed.shapes@.len() ==> {
                        let ga = shape_groups(feed.shapes@, perm, shape_map.keys())[a];
                        let gb = shape_groups(feed.shapes@, perm, shape_map.keys())[b];
                        ga < gb || (ga == gb && feed.shapes@[perm[a]].sequence <= feed.shapes@[perm[b]].sequence)
                    }
            },
        n.trips.len() == kept_trips_of(feed).len(),
        forall|t: int| 0 <= t < n.trips.len() ==> (#[trigger] n.trips[t]).shape == shape_of(kept_trips_of(feed)[t], shape_map),
    ensures
        shapes_of(feed, n),
{
    let raw = feed.shapes@;
    let keys = first_seen(shape_ids_of(raw));
    let perm = choose|perm: Seq<int>|
        {
            &&& is_permutation(perm, raw.len())
            &&& forall|m: int| 0 <= m < n.shapes.len() ==> #[trigger] n.shapes[m] == shape_point(raw[perm[m]])
            &&& forall|g: int|
                0 <= g < shape_map.keys().len() ==> run_of(
                    shape_groups(raw, perm, shape_map.keys()),
                    g,
                    #[trigger] shape_map.values()[g],
                )
            &&& forall|a: int, b: int|
                #![trigger perm[a], perm[b]]
                0 <= a < b < raw.len() ==> {
                    let ga = shape_groups(raw, perm, shape_map.keys())[a];
                    let gb = shape_groups(raw, perm, shape_map.keys())[b];
                    ga < gb || (ga == gb && raw[perm[a]].sequence <= raw[perm[b]].sequence)
                }
        };
    assert forall|t: int| 0 <= t < n.trips.len() implies trip_shape(
        kept_trips_of(feed)[t],
        shape_groups(raw, perm, keys),
        keys,
        (#[trigger] n.trips[t]).shape,
    ) by {
        let rt = kept_trips_of(feed)[t];
        if let Some(sid) = rt.shape_id {
            if let Some(g) = find(keys, utf8(sid)) {
                assert(shape_map.values()[g] == shape_map.values()[g]);
            }
        }
    }
}

/// The stop search groups the searchable stops by the name they are
/// searched under: each searchable stop is listed once, in the group of its
/// name; no group is empty; groups come in order of where their names lie in
/// the strings, so no two have the same name; within a group, stops come in
/// table order.
pub open spec fn search_ok(stops: Seq<Stop>, search: Seq<SearchStop>, listed: Seq<StopIdx>) -> bool {
    &&& forall|g: int| 0 <= g < search.len() ==> (#[trigger] search[g]).stops.count > 0
    &&& forall|g1: int, g2: int|
        #![trigger search[g1], search[g2]]
        0 <= g1 < g2 < search.len() ==> search[g1].name.start < search[g2].name.start || (search[g1].name.start
            == search[g2].name.start && search[g1].name.count < search[g2].name.count)
    &&& exists|perm: Seq<int>, gk: Seq<u32>|
        #![trigger perm.len(), gk.len()]
        {
            &&& perm.len() == listed.len() == gk.len()
            &&& forall|m: int| 0 <= m < perm.len() ==> 0 <= #[trigger] perm[m] < stops.len() && listed[m]
                == stops[perm[m]].idx && search_name(stops, perm[m]) == Some(search[gk[m] as int].name)
            &&& forall|a: int, b: int| 0 <= a < b < perm.len() ==> perm[a] != perm[b]
            &&& forall|i: int|
                0 <= i < stops.len() && search_name(stops, i) is Some ==> exists|m: int|
                    0 <= m < perm.len() && perm[m] == i
            &&& forall|m: int| 0 <= m < gk.len() ==> #[trigger] gk[m] < search.len()
            &&& forall|g: int|
                0 <= g < search.len() ==> (#[trigger] search[g]).idx == SearchIdx(g as u32) && search[g].route_type
                    == RouteType::spec_none() && run_of(gk, g, search[g].stops)
            &&& forall|g1: int, g2: int| 0 <= g1 < g2 < search.len() ==> search[g1].name != search[g2].name
            &&& forall|a: int, b: int|
                #![trigger perm[a], perm[b]]
                0 <= a < b < perm.len() && gk[a] == gk[b] ==> perm[a] < perm[b]
        }
}

/// The search only looks at each stop's name, kind, parent and position.
proof fn lemma_search_keep(stops: Seq<Stop>, stops2: Seq<Stop>, search: Seq<SearchStop>, listed: Seq<StopIdx>)
    requires
        search_ok(stops, search, listed),
        forall|i: int|
            0 <= i < stops.len() ==> ((#[trigger] stops[i]).parent_idx.0.0 != u32::MAX ==> stops[i].parent_idx.0.0
                < stops.len()),
        stops2.len() == stops.len(),
        forall|i: int|
            0 <= i < stops.len() ==> (#[trigger] stops2[i]).name == stops[i].name && stops2[i].location_type
                == stops[i].location_type && stops2[i].parent_idx == stops[i].parent_idx && stops2[i].idx == stops[i].idx,
    ensures
        search_ok(stops2, search, listed),
{
    assert forall|i: int| 0 <= i < stops.len() implies #[trigger] search_name(stops2, i) == search_name(stops, i) by {
        let st = stops[i];
        assert(stops2[i].name == st.name);
        if st.parent_idx.0.0 != u32::MAX {
            assert(stops2[st.parent_idx.0.0 as int].name == stops[st.parent_idx.0.0 as int].name);
        }
    }
    let (perm, gk) = choose|perm: Seq<int>, gk: Seq<u32>|
        #![trigger perm.len(), gk.len()]
        {
            &&& perm.len() == listed.len() == gk.len()
            &&& forall|m: int| 0 <= m < perm.len() ==> 0 <= #[trigger] perm[m] < stops.len() && listed[m]
                == stops[perm[m]].idx && search_name(stops, perm[m]) == Some(search[gk[m] as int].name)
            &&& forall|a: int, b: int| 0 <= a < b < perm.len() ==> perm[a] != perm[b]
            &&& forall|i: int|
                0 <= i < stops.len() && search_name(stops, i) is Some ==> exists|m: int|
                    0 <= m < perm.len() && perm[m] == i
            &&& forall|m: int| 0 <= m < gk.len() ==> #[trigger] gk[m] < search.len()
            &&& forall|g: int|
                0 <= g < search.len() ==> (#[trigger] search[g]).idx == SearchIdx(g as u32) && search[g].route_type
                    == RouteType::spec_none() && run_of(gk, g, search[g].stops)
            &&& forall|g1: int, g2: int| 0 <= g1 < g2 < search.len() ==> search[g1].name != search[g2].name
            &&& forall|a: int, b: int|
                #![trigger perm[a], perm[b]]
                0 <= a < b < perm.len() && gk[a] == gk[b] ==> perm[a] < perm[b]
        };
    assert forall|m: int| 0 <= m < perm.len() implies 0 <= #[trigger] perm[m] < stops2.len() && listed[m]
        == stops2[perm[m]].idx && search_name(stops2, perm[m]) == Some(search[gk[m] as int].name) by {
        assert(search_name(stops2, perm[m]) == search_name(stops, perm[m]));
    }
    assert forall|i: int| 0 <= i < stops2.len() && search_name(stops2, i) is Some implies exists|m: int|
        0 <= m < perm.len() && perm[m] == i by {
        assert(search_name(stops2, i) == search_name(stops, i));
    }
    assert(perm.len() == listed.len() == gk.len());
}

/// The stop search of the compiled network groups its stops by name.
pub open spec fn search_of(n: NetworkView) -> bool {
    search_ok(n.stops, n.search_stops, n.search_to_stops)
}

/// The lookups of the compiled network list what they name: each route's
/// trips, each stop's calling trips, each stop's trip patterns, each stop's
/// outbound transfers, and each stop's inbound transfers, ordered by the
/// stop they reach.
pub open spec fn lookups_of(n: NetworkView) -> bool {
    &&& grouped_multiset(route_trip_pairs(n.trips), n.route_to_trips, n.route_to_trips_lookup, n.routes.len())
    &&& grouped_set(stop_trip_pairs(n.stop_times), n.stop_to_trips, n.stop_to_trips_lookup, n.stops.len())
    &&& grouped_multiset(
        pattern_stop_pairs(n.trip_patterns, n.trip_patterns_stop_seq),
        n.stop_to_trip_pattern,
        n.stop_to_trip_pattern_lookup,
        n.stops.len(),
    )
    &&& is_lookup(from_keys(n.transfers), n.stop_to_transfer_out, n.stop_to_transfer_out.len())
    &&& is_permutation(n.transfers_in_indencies.map_values(|i: TransferIdx| i.0 as int), n.transfers.len())
    &&& forall|a: int, b: int|
        0 <= a < b < n.transfers_in_indencies.len() ==> n.transfers[n.transfers_in_indencies[a].0 as int].to_stop_idx.0
            <= n.transfers[n.transfers_in_indencies[b].0 as int].to_stop_idx.0
    &&& is_lookup(to_keys(n.transfers, n.transfers_in_indencies), n.stop_to_transfer_in, n.stop_to_transfer_in.len())
}

/// Stop times built against a builder read back from its final text.
proof fn lemma_stop_times_of(feed: Feed, n: NetworkView, b: &SliceBuilder<StringSlice>)
    requires
        b.wf(),
        n.strings == b.text(),
        b.text().len() <= u32::MAX,
        stop_times_built(feed, n.stop_times, b),
        forall|t: int| 0 <= t < n.trips.len() ==> run_of(trip_keys(n.stop_times), t, (#[trigger] n.trips[t]).stop_times),
    ensures
        stop_times_of(feed, n),
{
    let rows = kept_stop_times_of(feed);
    let perm = choose|perm: Seq<int>|
        #![trigger is_permutation(perm, rows.len())]
        is_permutation(perm, rows.len()) && forall|m: int|
            0 <= m < rows.len() ==> stop_time_from(feed, rows[perm[m]], m, #[trigger] n.stop_times[m])
                && n.stop_times[m].headsign == text_run(b, rows[perm[m]].stop_headsign) && (
                rows[perm[m]].stop_headsign is Some ==> b.spec_lookup(utf8(rows[perm[m]].stop_headsign->0)) is Some);
    b.lemma_extends_refl();
    assert forall|m: int| 0 <= m < rows.len() implies stop_time_from(feed, rows[perm[m]], m, #[trigger] n.stop_times[m])
        && opt_text_at(n.strings, n.stop_times[m].headsign, rows[perm[m]].stop_headsign) by {
        let st = rows[perm[m]];
        assert(stop_time_from(feed, st, m, n.stop_times[m]));
        assert(st.stop_headsign is Some ==> b.spec_lookup(utf8(st.stop_headsign->0)) is Some);
        lemma_opt_text_at(b, b, n.strings, st.stop_headsign);
    }
    assert(is_permutation(perm, rows.len()));
}

/// Every one of the `n` records of a table is named by some entry of
/// `lookup`.
pub open spec fn lookup_complete<I: Idx>(lookup: Seq<I>, n: nat) -> bool {
    forall|j: int| 0 <= j < n ==> #[trigger] positions_of(lookup).contains(j)
}

/// The positions that the entries of `lookup` name.
pub open spec fn positions_of<I: Idx>(lookup: Seq<I>) -> Seq<int> {
    lookup.map_values(|v: I| v.spec_index() as int)
}

/// Record `j` carries the identifier `ids[j]` where no later record has the
/// same one, and no identifier otherwise.
pub open spec fn ids_read_back<R: Keyed>(records: Seq<R>, text: Seq<u8>, ids: Seq<Seq<u8>>) -> bool {
    &&& records.len() == ids.len()
    &&& forall|j: int|
        0 <= j < ids.len() ==> if last_index(ids, ids[j]) == Some(j) {
            run_text(text, (#[trigger] records[j]).spec_id()) == ids[j]
        } else {
            records[j].spec_id() == R::Id::spec_none()
        }
}

/// The compiled network holds the feed:
/// - one stop per stop row, one route per route row, one trip per trip row
///   whose route is known and one service per service identifier, each
///   readable back by its identifier, linked by identifier and with its
///   texts readable back;
/// - each service's active days;
/// - one stop time per stop time row whose trip and stop are known, and one
///   transfer per transfer row whose stops are known;
/// - its shape points grouped by shape, its trips grouped into patterns by
///   the stops they call at, and its stops searchable by name;
/// - lookups listing exactly what they name, the identifier lookups naming
///   every record.
pub open spec fn network_of(feed: Feed, n: NetworkView) -> bool {
    &&& ids_read_back(n.stops, n.stop_ids, stop_ids_of(feed.stops@))
    &&& ids_read_back(n.routes, n.route_ids, route_ids_of(feed.routes@))
    &&& ids_read_back(n.trips, n.trip_ids, trip_ids_of(kept_trips_of(feed)))
    &&& ids_read_back(n.services, n.service_ids, service_ids_of(feed.calendar@, feed.calendar_dates@))
    &&& services_read_back(feed, n.services, n.active_mask)
    &&& links_of(feed, n)
    &&& texts_of(feed, n)
    &&& kinds_of(feed, n)
    &&& stop_times_of(feed, n)
    &&& transfers_of(feed, n.transfers)
    &&& patterns_of(n)
    &&& shapes_of(feed, n)
    &&& search_of(n)
    &&& lookups_of(n)
    &&& n.stop_to_transfer_out.len() == first_seen(stop_ids_of(feed.stops@)).len()
    &&& n.stop_to_transfer_in.len() == first_seen(stop_ids_of(feed.stops@)).len()
    &&& lookup_complete(n.stops_id_lookup, n.stops.len())
    &&& lookup_complete(n.routes_id_lookup, n.routes.len())
    &&& lookup_complete(n.trips_id_lookup, n.trips.len())
    &&& lookup_complete(n.services_id_lookup, n.services.len())
}

/// Where the identifiers were packed by `stage_ids` from a map that resolves
/// each identifier to the last record carrying it, each record reads back
/// its identifier, or none where a later record carries the same one.
proof fn lemma_ids_read_back<R: Keyed, I: Idx>(
    map: &TextMap<I>,
    ids: Seq<Seq<u8>>,
    vals: Seq<I>,
    old_records: Seq<R>,
    new_records: Seq<R>,
    text: Seq<u8>,
)
    requires
        map.wf(),
        map.indexes(ids, vals),
        ids.len() == vals.len(),
        old_records.len() == ids.len(),
        new_records.len() == ids.len(),
        forall|j: int| 0 <= j < vals.len() ==> (#[trigger] vals[j]).spec_index() == j,
        forall|j: int| 0 <= j < old_records.len() ==> (#[trigger] old_records[j]).spec_id() == R::Id::spec_none(),
        forall|j: int|
            0 <= j < old_records.len() ==> match last_position(
                map.values().map_values(|v: I| v.spec_index() as int),
                j,
            ) {
                Some(p) => run_text(text, (#[trigger] new_records[j]).spec_id()) == map.keys()[p]
                    && map.values()[p].spec_index() == j,
                None => new_records[j].spec_id() == old_records[j].spec_id(),
            },
    ensures
        ids_read_back(new_records, text, ids),
{
    map.lemma_wf();
    crate::text_map::lemma_first_seen(ids);
    let vs = map.values().map_values(|v: I| v.spec_index() as int);
    assert forall|j: int| 0 <= j < ids.len() implies if last_index(ids, ids[j]) == Some(j) {
        run_text(text, (#[trigger] new_records[j]).spec_id()) == ids[j]
    } else {
        new_records[j].spec_id() == R::Id::spec_none()
    } by {
        lemma_last_position(vs, j);
        match last_position(vs, j) {
            Some(p) => {
                let key = map.keys()[p];
                crate::text_map::lemma_find_unique(map.keys(), key, p);
                assert(map.spec_get(key) == Some(map.values()[p]));
                lemma_last_index(ids, key);
                let q = last_index(ids, key)->0;
                assert(vals[q].spec_index() == q);
                assert(q == j);
                assert(ids[j] == key);
            },
            None => {
                if last_index(ids, ids[j]) == Some(j) {
                    assert(ids.contains(ids[j]));
                    assert(first_seen(ids).contains(ids[j]));
                    let p = choose|p: int| 0 <= p < map.keys().len() && map.keys()[p] == ids[j];
                    crate::text_map::lemma_find_unique(map.keys(), ids[j], p);
                    assert(map.spec_get(ids[j]) == Some(map.values()[p]));
                    assert(vs[p] == j);
                    assert(false);
                }
            },
        }
    }
}

/// Compiles the tables of a feed: stops, routes, services, shapes, trips and
/// their stop times, transfers, the lookups from stops and routes to trips,
/// the stop search, trip patterns, and the sorted identifier lookups. Fails
/// exactly where a table, a text section or the service mask would be larger
/// than its positions can number.
#[verifier::spinoff_prover]
#[verifier::rlimit(30)]
pub fn build_network(feed: &Feed) -> (r: Result<Consumer, CompileError>)
    requires
        calendar_ordered(feed.calendar@, feed.calendar_dates@),
        transfers_fit(*feed),
    ensures
        r is Ok <==> feed_fits(*feed),
        r matches Ok(c) ==> queryable(c@) && network_of(*feed, c@),
{
    if !check_sizes(feed) {
        return Err(CompileError::TooLarge);
    }
    let mut slice_builder: SliceBuilder<StringSlice> = SliceBuilder::new();
    let (mut stops, stop_map) = stage_stops(feed, &mut slice_builder);
    let ghost b_stops = slice_builder;
    let (mut routes, route_map) = stage_routes(feed, &mut slice_builder);
    let ghost b_routes = slice_builder;
    let (mut services, service_map, active_mask) = match stage_services(feed) {
        Some(built) => built,
        None => {
            return Err(CompileError::TooLarge);
        },
    };
    let (shapes, shape_map) = build_shapes(feed.shapes.as_slice());
    let (mut trips, trip_map, stop_times) = stage_trips(
        feed,
        &route_map,
        &service_map,
        &shape_map,
        &stop_map,
        stops.len(),
        routes.len(),
        &mut slice_builder,
    );
    let ghost b_last = slice_builder;
    proof {
        b_last.lemma_extends_trans(&b_routes, &b_stops);
    }
    let n_stop_ids = stop_map.len();
    proof {
        crate::text_map::lemma_first_seen_len(stop_ids_of(feed.stops@));
        assert(n_stop_ids <= stops@.len());
    }
    let (transfers, stop_to_transfer_out, transfers_in_indencies, stop_to_transfer_in) = stage_transfers(
        feed,
        &stop_map,
        n_stop_ids,
    );
    let (
        (stop_to_trips, stop_to_trips_lookup),
        (search_stops, search_to_stops),
        (route_to_trips, route_to_trips_lookup),
        BuildTripPatternsResult(
            trip_patterns,
            trip_patterns_stop_seq,
            trip_patterns_trips,
            trip_to_trip_pattern,
            stop_to_trip_pattern,
            stop_to_trip_pattern_lookup,
        ),
    ) = stage_derived(&stops, &routes, &trips, &stop_times);
    proof {
        StopIdSlice::lemma_none_is_empty();
        RouteIdSlice::lemma_none_is_empty();
        TripIdSlice::lemma_none_is_empty();
        ServiceIdSlice::lemma_none_is_empty();
        StopTimeSlice::lemma_none_is_empty();
    }
    let ghost stops0 = stops@;
    let ghost routes0 = routes@;
    let ghost trips0 = trips@;
    let ghost services0 = services@;
    let (stops_id_lookup, stop_ids) = match stage_ids_read_back(
        &mut stops,
        &stop_map,
        Ghost(stop_ids_of(feed.stops@)),
        Ghost(stop_positions(feed.stops@.len())),
    ) {
        Some(built) => built,
        None => {
            return Err(CompileError::TooLarge);
        },
    };
    let (routes_id_lookup, route_ids) = match stage_ids_read_back(
        &mut routes,
        &route_map,
        Ghost(route_ids_of(feed.routes@)),
        Ghost(route_positions(feed.routes@.len())),
    ) {
        Some(built) => built,
        None => {
            return Err(CompileError::TooLarge);
        },
    };
    let (trips_id_lookup, trip_ids) = match stage_ids_read_back(
        &mut trips,
        &trip_map,
        Ghost(trip_ids_of(kept_trips_of(*feed))),
        Ghost(trip_positions(kept_trips_of(*feed).len())),
    ) {
        Some(built) => built,
        None => {
            return Err(CompileError::TooLarge);
        },
    };
    let ghost sids = service_ids_of(feed.calendar@, feed.calendar_dates@);
    let (services_id_lookup, service_ids) = match stage_ids_read_back(
        &mut services,
        &service_map,
        Ghost(sids),
        Ghost(service_positions(sids.len())),
    ) {
        Some(built) => built,
        None => {
            return Err(CompileError::TooLarge);
        },
    };
    let strings = slice_builder.take();
    let c = Consumer {
            stops,
            stop_ids,
            stops_id_lookup,
            routes,
            route_ids,
            routes_id_lookup,
            trips,
            trip_ids,
            trips_id_lookup,
            services,
            service_ids,
            services_id_lookup,
            active_mask,
            stop_times,
            shapes,
            trip_patterns,
            trip_patterns_stop_seq,
            trip_patterns_trips,
            trip_to_trip_pattern,
            stop_to_trip_pattern,
            stop_to_trip_pattern_lookup,
            route_to_trips,
            route_to_trips_lookup,
            stop_to_trips,
            stop_to_trips_lookup,
            search_stops,
            search_to_stops,
            transfers,
            stop_to_transfer_out,
            transfers_in_indencies,
            stop_to_transfer_in,
            strings: strings.as_str().as_bytes_vec(),
        };
    proof {
        let n = c@;
        assert forall|i: int| 0 <= i < n.stops.len() && (#[trigger] n.stops[i]).parent_idx.0.0 != u32::MAX implies n.stops[i].parent_idx.0.0
            < n.stops.len() by {
            assert(n.stops[i] == stops0[i].spec_with_id(n.stops[i].id));
        }
        assert forall|t: int| 0 <= t < n.trips.len() implies (#[trigger] n.trips[t]).idx.0 == t && n.trips[t].route_idx.0
            < n.routes.len() && run_fits(n.stop_times, n.trips[t].stop_times) by {
            assert(n.trips[t] == trips0[t].spec_with_id(n.trips[t].id));
            assert(run_of(trip_keys(n.stop_times), t, trips0[t].stop_times));
        }
        assert forall|t: int| 0 <= t < n.trips.len() implies run_of(
            trip_keys(n.stop_times),
            t,
            (#[trigger] n.trips[t]).stop_times,
        ) by {
            assert(n.trips[t] == trips0[t].spec_with_id(n.trips[t].id));
        }
        assert forall|k: int| 0 <= k < n.services.len() implies #[trigger] mask_reachable(n, k) by {
            assert(n.services[k] == services0[k].spec_with_id(n.services[k].id));
        }
        assert forall|i: int| 0 <= i < n.stops.len() implies (#[trigger] n.stops[i]).idx == StopIdx(i as u32)
            && n.stops[i].parent_idx == parent_link(*feed, i) by {
            assert(n.stops[i] == stops0[i].spec_with_id(n.stops[i].id));
        }
        assert(n.strings == b_last.text());
        lemma_stop_times_of(*feed, n, &b_last);
        assert forall|t: int| 0 <= t < n.trips.len() implies (#[trigger] n.trips[t]).shape == shape_of(
            kept_trips_of(*feed)[t],
            &shape_map,
        ) by {
            assert(n.trips[t] == trips0[t].spec_with_id(n.trips[t].id));
        }
        lemma_shapes_of(*feed, n, &shape_map);
        assert forall|i: int| 0 <= i < stops0.len() implies (#[trigger] n.stops[i]).name == stops0[i].name
            && n.stops[i].location_type == stops0[i].location_type && n.stops[i].parent_idx == stops0[i].parent_idx
            && n.stops[i].idx == stops0[i].idx by {
            assert(n.stops[i] == stops0[i].spec_with_id(n.stops[i].id));
        }
        lemma_search_keep(stops0, n.stops, n.search_stops, n.search_to_stops);
        assert forall|i: int| 0 <= i < n.stops.len() implies #[trigger] stop_kept(feed.stops@[i], n.stops[i]) by {
            assert(n.stops[i] == stops0[i].spec_with_id(n.stops[i].id));
            assert(stop_kept(feed.stops@[i], stops0[i]));
        }
        assert forall|k: int| 0 <= k < n.routes.len() implies (#[trigger] n.routes[k]).route_type == RouteType(
            route_type_bits(feed.routes@[k].route_type),
        ) by {
            assert(n.routes[k] == routes0[k].spec_with_id(n.routes[k].id));
        }
        assert(route_trip_pairs(n.trips) == route_trip_pairs(trips0)) by {
            assert forall|t: int| 0 <= t < n.trips.len() implies (#[trigger] n.trips[t]).route_idx == trips0[t].route_idx
                && n.trips[t].idx == trips0[t].idx by {
                assert(n.trips[t] == trips0[t].spec_with_id(n.trips[t].id));
            }
            assert(n.trips.map_values(|t: Trip| (t.route_idx.0, t.idx.0)) =~= trips0.map_values(
                |t: Trip| (t.route_idx.0, t.idx.0),
            ));
        }
        assert forall|t: int| 0 <= t < n.trips.len() implies (#[trigger] n.trips[t]).stop_times == trips0[t].stop_times by {
            assert(n.trips[t] == trips0[t].spec_with_id(n.trips[t].id));
        }
        lemma_patterns_keep(
            trips0,
            n.trips,
            n.stop_times,
            n.trip_patterns,
            n.trip_patterns_stop_seq,
            n.trip_patterns_trips,
            n.trip_to_trip_pattern,
        );
        assert forall|i: int| 0 <= i < n.stops.len() implies opt_text_at(
            n.strings,
            (#[trigger] n.stops[i]).code,
            feed.stops@[i].code,
        ) && opt_text_at(n.strings, n.stops[i].name, feed.stops@[i].name) && opt_text_at(
            n.strings,
            n.stops[i].desc,
            feed.stops@[i].description,
        ) by {
            assert(n.stops[i] == stops0[i].spec_with_id(n.stops[i].id));
            lemma_opt_text_at(&b_last, &b_stops, n.strings, feed.stops@[i].code);
            lemma_opt_text_at(&b_last, &b_stops, n.strings, feed.stops@[i].name);
            lemma_opt_text_at(&b_last, &b_stops, n.strings, feed.stops@[i].description);
        }
        assert forall|k: int| 0 <= k < n.routes.len() implies opt_text_at(
            n.strings,
            (#[trigger] n.routes[k]).long_name,
            feed.routes@[k].long_name,
        ) && opt_text_at(n.strings, n.routes[k].short_name, feed.routes@[k].short_name) && opt_text_at(
            n.strings,
            n.routes[k].description,
            feed.routes@[k].desc,
        ) by {
            assert(n.routes[k] == routes0[k].spec_with_id(n.routes[k].id));
            lemma_opt_text_at(&b_last, &b_routes, n.strings, feed.routes@[k].long_name);
            lemma_opt_text_at(&b_last, &b_routes, n.strings, feed.routes@[k].short_name);
            lemma_opt_text_at(&b_last, &b_routes, n.strings, feed.routes@[k].desc);
        }
        assert forall|t: int| 0 <= t < n.trips.len() implies opt_text_at(
            n.strings,
            (#[trigger] n.trips[t]).headsign,
            kept_trips_of(*feed)[t].trip_headsign,
        ) && opt_text_at(n.strings, n.trips[t].short_name, kept_trips_of(*feed)[t].trip_short_name) by {
            assert(n.trips[t] == trips0[t].spec_with_id(n.trips[t].id));
            b_last.lemma_extends_refl();
            lemma_opt_text_at(&b_last, &b_last, n.strings, kept_trips_of(*feed)[t].trip_headsign);
            lemma_opt_text_at(&b_last, &b_last, n.strings, kept_trips_of(*feed)[t].trip_short_name);
        }
        assert forall|t: int| 0 <= t < n.trips.len() implies (#[trigger] n.trips[t]).idx == TripIdx(t as u32)
            && n.trips[t].route_idx == route_link(*feed, t) && n.trips[t].service_idx == service_link(*feed, t) by {
            assert(n.trips[t] == trips0[t].spec_with_id(n.trips[t].id));
        }
        assert forall|k: int| 0 <= k < n.routes.len() implies (#[trigger] n.routes[k]).idx == RouteIdx(k as u32) by {
            assert(n.routes[k] == routes0[k].spec_with_id(n.routes[k].id));
        }
        assert forall|k: int| 0 <= k < n.services.len() implies (#[trigger] n.services[k]).idx == ServiceIdx(k as u32) by {
            assert(n.services[k] == services0[k].spec_with_id(n.services[k].id));
        }
        let cs = collected_services(feed.calendar@, feed.calendar_dates@);
        assert forall|k: int| 0 <= k < n.services.len() implies (#[trigger] n.services[k]).start_date == cs[k].start_date
            && n.services[k].end_date == cs[k].end_date && n.services[k].weekdays == cs[k].weekdays by {
            assert(n.services[k] == services0[k].spec_with_id(n.services[k].id));
        }
        assert forall|k: int, d: int|
            #![trigger service_runs(feed.calendar@, feed.calendar_dates@, k, d)]
            0 <= k < n.services.len() && n.services[k].start_date.0 <= d <= n.services[k].end_date.0 implies byte_bit(
            n.active_mask,
            n.services[k].active_mask.start + (d - n.services[k].start_date.0),
        ) == service_runs(feed.calendar@, feed.calendar_dates@, k, d) by {
            assert(n.services[k] == services0[k].spec_with_id(n.services[k].id));
        }
    }
    Ok(c)
}

/// The trips of each stop: one run per stop, each naming trips.
proof fn lemma_stop_to_trips_ok(
    stops: Seq<Stop>,
    trips: Seq<Trip>,
    stop_times: Seq<StopTime>,
    items: Seq<TripIdx>,
    lookup: Seq<TripSlice>,
)
    requires
        grouped_set(stop_trip_pairs(stop_times), items, lookup, stops.len()),
        forall|k: int| 0 <= k < stop_times.len() ==> (#[trigger] stop_times[k]).trip_idx.0 < trips.len(),
    ensures
        lookup_runs(lookup, items, stops.len()),
        all_below(items, trips.len()),
{
    let p = choose|p: Seq<(u32, u32)>|
        {
            &&& strictly_increasing(p)
            &&& p.to_set() == stop_trip_pairs(stop_times)
            &&& seconds_of(items, p)
            &&& is_lookup(firsts(p), lookup, stops.len())
        };
    lemma_lookup_runs(firsts(p), lookup, items, stops.len());
    let pairs = stop_times.map_values(|st: StopTime| (st.stop_idx.0, st.trip_idx.0));
    assert forall|m: int| 0 <= m < items.len() implies (#[trigger] items[m]).spec_index() < trips.len() by {
        assert(p.contains(p[m]));
        assert(p.to_set().contains(p[m]));
        assert(pairs.contains(p[m]));
        let k = choose|k: int| 0 <= k < pairs.len() && pairs[k] == p[m];
        assert(stop_times[k].trip_idx.0 < trips.len());
    }
}

/// The trips of each route: one run per route, each naming trips.
proof fn lemma_route_to_trips_ok(routes: Seq<Route>, trips: Seq<Trip>, items: Seq<TripIdx>, lookup: Seq<TripSlice>)
    requires
        grouped_multiset(route_trip_pairs(trips), items, lookup, routes.len()),
        forall|t: int| 0 <= t < trips.len() ==> (#[trigger] trips[t]).idx.0 == t,
    ensures
        lookup_runs(lookup, items, routes.len()),
        all_below(items, trips.len()),
{
    let p = choose|p: Seq<(u32, u32)>|
        {
            &&& sorted(p)
            &&& p.to_multiset() == route_trip_pairs(trips)
            &&& seconds_of(items, p)
            &&& is_lookup(firsts(p), lookup, routes.len())
        };
    lemma_lookup_runs(firsts(p), lookup, items, routes.len());
    let pairs = trips.map_values(|t: Trip| (t.route_idx.0, t.idx.0));
    assert forall|m: int| 0 <= m < items.len() implies (#[trigger] items[m]).spec_index() < trips.len() by {
        assert(p.contains(p[m]));
        p.to_multiset_ensures();
        pairs.to_multiset_ensures();
        assert(p.to_multiset().count(p[m]) > 0);
        assert(pairs.to_multiset().count(p[m]) > 0);
        assert(pairs.contains(p[m]));
        let k = choose|k: int| 0 <= k < pairs.len() && pairs[k] == p[m];
        assert(trips[k].idx.0 == k);
    }
}

/// Compiles a feed to the bytes of a network file. Fails exactly where a
/// table, a text section or the service mask would be larger than its
/// positions can number; reading the bytes back gives a network on which
/// every query can be asked.
pub fn compile_feed(feed: &Feed) -> (r: Result<Vec<u8>, CompileError>)
    requires
        calendar_ordered(feed.calendar@, feed.calendar_dates@),
        transfers_fit(*feed),
    ensures
        r is Ok <==> feed_fits(*feed),
        r matches Ok(bytes) ==> exists|n: NetworkView|
            parse_network(bytes@) == Ok::<NetworkView, Error>(n) && queryable(n) && network_of(*feed, n),
        r matches Ok(bytes) ==> bytes@.len() % 8 == 0,
{
    match build_network(feed) {
        Ok(network) => {
            let bytes = network.to_bytes();
            proof {
                assert(parse_network(bytes@) == Ok::<NetworkView, Error>(network@) && queryable(network@)
                    && network_of(*feed, network@));
            }
            Ok(bytes)
        },
        Err(e) => Err(e),
    }
}

/// On a compiled network, service `k` is active on a day exactly where the
/// day lies within the range its calendar row and calendar dates give it and
/// the service runs then: as the last calendar date naming it on that day
/// says, or else as its calendar row's range and weekdays say.
pub proof fn lemma_compiled_service_activity(feed: Feed, n: NetworkView, k: int, date: Date)
    requires
        network_of(feed, n),
        0 <= k < n.services.len(),
    ensures
        service_active(n, k, date) == ({
            let s = collected_services(feed.calendar@, feed.calendar_dates@)[k];
            &&& s.start_date.0 <= date.0 <= s.end_date.0
            &&& service_runs(feed.calendar@, feed.calendar_dates@, k, date.0 as int)
        }),
{
    let cs = collected_services(feed.calendar@, feed.calendar_dates@);
    assert(n.services[k].start_date == cs[k].start_date && n.services[k].end_date == cs[k].end_date);
    if n.services[k].start_date.0 <= date.0 <= n.services[k].end_date.0 {
        assert(byte_bit(
            n.active_mask,
            n.services[k].active_mask.start + (date.0 - n.services[k].start_date.0),
        ) == service_runs(feed.calendar@, feed.calendar_dates@, k, date.0 as int));
    }
}

/// On a compiled network, the stop times that trip `t` holds are exactly
/// the stop times of that trip, in order of their sequence numbers.
#[verifier::spinoff_prover]
pub proof fn lemma_compiled_trip_stop_times(feed: Feed, n: NetworkView, t: int)
    requires
        network_of(feed, n),
        0 <= t < n.trips.len(),
    ensures
        forall|k: int|
            0 <= k < n.stop_times.len() ==> ((#[trigger] n.stop_times[k]).trip_idx.0 == t <==> n.trips[t].stop_times.start
                <= k < n.trips[t].stop_times.start + n.trips[t].stop_times.count),
        forall|a: int, b: int|
            0 <= a < b < run_entries(n.stop_times, n.trips[t].stop_times).len() ==> run_entries(
                n.stop_times,
                n.trips[t].stop_times,
            )[a].sequence <= run_entries(n.stop_times, n.trips[t].stop_times)[b].sequence,
{
    let run = n.trips[t].stop_times;
    let keys = trip_keys(n.stop_times);
    assert(run_of(keys, t, run));
    StopTimeSlice::lemma_none_is_empty();
    assert forall|k: int| 0 <= k < n.stop_times.len() implies ((#[trigger] n.stop_times[k]).trip_idx.0 == t
        <==> run.start <= k < run.start + run.count) by {
        assert(keys[k] == n.stop_times[k].trip_idx.0);
    }
    let es = run_entries(n.stop_times, run);
    assert forall|a: int, b: int| 0 <= a < b < es.len() implies es[a].sequence <= es[b].sequence by {
        assert(es[a] == n.stop_times[run.start + a]);
        assert(es[b] == n.stop_times[run.start + b]);
        assert(in_trip_order(n.stop_times[run.start + a], n.stop_times[run.start + b]));
        assert(keys[run.start + a] == t);
        assert(keys[run.start + b] == t);
    }
}

/// Where an identifier lookup is valid and names every record, it has an
/// entry with identifier `id` exactly where some record carries `id`.
pub proof fn lemma_lookup_finds<R: Keyed, I: Idx>(records: Seq<R>, text: Seq<u8>, lookup: Seq<I>, id: Seq<u8>)
    requires
        ids_ok(records, text, lookup),
        lookup_complete(lookup, records.len()),
    ensures
        (exists|m: int| 0 <= m < lookup.len() && #[trigger] key_at(records, lookup, text, m) == id) <==> (exists|j: int|
            0 <= j < records.len() && run_text(text, (#[trigger] records[j]).spec_id()) == id),
{
    if exists|m: int| 0 <= m < lookup.len() && #[trigger] key_at(records, lookup, text, m) == id {
        let m = choose|m: int| 0 <= m < lookup.len() && #[trigger] key_at(records, lookup, text, m) == id;
        let j = lookup[m].spec_index() as int;
        assert(run_text(text, records[j].spec_id()) == id);
    }
    if exists|j: int| 0 <= j < records.len() && run_text(text, (#[trigger] records[j]).spec_id()) == id {
        let j = choose|j: int| 0 <= j < records.len() && run_text(text, (#[trigger] records[j]).spec_id()) == id;
        assert(positions_of(lookup).contains(j));
        let m = choose|m: int| 0 <= m < positions_of(lookup).len() && positions_of(lookup)[m] == j;
        assert(lookup[m].spec_index() == j);
        assert(key_at(records, lookup, text, m) == id);
    }
}

/// On a compiled network, `route_by_id(id)` finds a route exactly where
/// some route has identifier `id`, and then one that has it; likewise for
/// stops, trips and services.
pub proof fn lemma_compiled_lookups_find(feed: Feed, n: NetworkView, id: Seq<u8>)
    requires
        network_of(feed, n),
        queryable(n),
    ensures
        (exists|m: int| 0 <= m < n.routes_id_lookup.len() && #[trigger] key_at(n.routes, n.routes_id_lookup, n.route_ids, m) == id)
            <==> (exists|j: int| 0 <= j < n.routes.len() && run_text(n.route_ids, (#[trigger] n.routes[j]).id) == id),
        (exists|m: int| 0 <= m < n.stops_id_lookup.len() && #[trigger] key_at(n.stops, n.stops_id_lookup, n.stop_ids, m) == id)
            <==> (exists|j: int| 0 <= j < n.stops.len() && run_text(n.stop_ids, (#[trigger] n.stops[j]).id) == id),
        (exists|m: int| 0 <= m < n.trips_id_lookup.len() && #[trigger] key_at(n.trips, n.trips_id_lookup, n.trip_ids, m) == id)
            <==> (exists|j: int| 0 <= j < n.trips.len() && run_text(n.trip_ids, (#[trigger] n.trips[j]).id) == id),
        (exists|m: int|
            0 <= m < n.services_id_lookup.len() && #[trigger] key_at(n.services, n.services_id_lookup, n.service_ids, m)
                == id) <==> (exists|j: int|
            0 <= j < n.services.len() && run_text(n.service_ids, (#[trigger] n.services[j]).id) == id),
{
    lemma_lookup_finds(n.routes, n.route_ids, n.routes_id_lookup, id);
    lemma_lookup_finds(n.stops, n.stop_ids, n.stops_id_lookup, id);
    lemma_lookup_finds(n.trips, n.trip_ids, n.trips_id_lookup, id);
    lemma_lookup_finds(n.services, n.service_ids, n.services_id_lookup, id);
}

/// Reading compiled bytes back never fails, and gives a network on which
/// every query can be asked and which holds the feed: the bytes of
/// `compile_feed` start with a whole header whose first four bytes spell
/// "GTFS" and whose version is the current one, and `Consumer::new` on them
/// returns the network that was compiled, with one stop per stop row and
/// one route per route row of the feed.
pub proof fn lemma_compiled_bytes_read_back(feed: Feed, bytes: Seq<u8>, read: Result<NetworkView, Error>)
    requires
        exists|n: NetworkView|
            parse_network(bytes) == Ok::<NetworkView, Error>(n) && queryable(n) && network_of(feed, n),
        match read {
            Ok(c) => parse_network(bytes) == Ok::<NetworkView, Error>(c),
            Err(e) => parse_network(bytes) == Err::<NetworkView, Error>(e),
        },
    ensures
        bytes.len() >= HEADER_SIZE,
        bytes.take(4) == seq![0x47u8, 0x54u8, 0x46u8, 0x53u8],
        record_at::<Header>(bytes, 0).version == GTFS_BIN_VERSION,
        read matches Ok(c) && queryable(c) && network_of(feed, c) && c.stops.len() == feed.stops@.len()
            && c.routes.len() == feed.routes@.len(),
{
    let w = bytes.subrange(0, 4);
    assert(record_at::<Header>(bytes, 0).magic == le_word(w));
    assert(le_word(w) == MAGIC);
    let b0 = w[0];
    let b1 = w[1];
    let b2 = w[2];
    let b3 = w[3];
    assert(b0 + 256 * b1 + 65536 * b2 + 16777216 * b3 == 0x5346_5447) by {
        assert(0 <= b0 + 256 * b1 + 65536 * b2 + 16777216 * b3 <= u32::MAX);
    }
    assert(b0 == 0x47 && b1 == 0x54 && b2 == 0x46 && b3 == 0x53) by (nonlinear_arith)
        requires
            b0 + 256 * b1 + 65536 * b2 + 16777216 * b3 == 0x5346_5447,
            0 <= b0 < 256,
            0 <= b1 < 256,
            0 <= b2 < 256,
            0 <= b3 < 256,
    ;
    assert(bytes.take(4) =~= seq![0x47u8, 0x54u8, 0x46u8, 0x53u8]) by {
        assert(bytes.take(4)[0] == w[0]);
        assert(bytes.take(4)[1] == w[1]);
        assert(bytes.take(4)[2] == w[2]);
        assert(bytes.take(4)[3] == w[3]);
    }
}

/// In a compiled network, the run of trip patterns listed for stop `s` holds
/// each pattern as many times as that pattern calls at the stop: once for a
/// pattern that calls there once, never for one that does not call there.
pub proof fn lemma_patterns_at_stop(n: NetworkView, s: u32, g: u32)
    requires
        patterns_of(n),
        lookups_of(n),
        s < n.stops.len(),
        g < n.trip_patterns.len(),
    ensures
        run_entries(n.stop_to_trip_pattern, n.stop_to_trip_pattern_lookup[s as int]).to_multiset().count(
            TripPatternIdx(g),
        ) == pattern_seq(n.trip_patterns[g as int], n.trip_patterns_stop_seq).to_multiset().count(s),
{
    TripPatternSlice::lemma_none_is_empty();
    let patterns = n.trip_patterns;
    let ss = n.trip_patterns_stop_seq;
    let labels = stop_labels(patterns);
    let pairs = Seq::new(ss.len(), |k: int| (ss[k].0, labels[k]));
    let items = n.stop_to_trip_pattern;
    let entry = n.stop_to_trip_pattern_lookup[s as int];
    let run = run_entries(items, entry);
    let stops = pattern_seq(patterns[g as int], ss);
    let a = patterns[g as int].stops.start as int;
    let b = a + patterns[g as int].stops.count;
    // Each pattern is some trip's, so the patterns are numbered in 32 bits.
    assert(patterns.len() <= u32::MAX + 1) by {
        let last = patterns.len() - 1;
        let keys = pattern_keys(n.trip_patterns_trips, n.trip_to_trip_pattern);
        assert(run_of(keys, last, patterns[last].trips));
        assert(has_key(keys, last));
    }
    // The pairs of the stop sequences hold (s, g) once per call of g at s.
    lemma_labels_are_runs(patterns, ss, g as int);
    assert forall|k: int| 0 <= k < pairs.len() && !(a <= k < b) implies pairs[k] != (s, g) by {
        assert(labels[k] != g);
    }
    lemma_occurrences_within(pairs, (s, g), a, b);
    assert forall|j: int| 0 <= j < stops.len() implies (pairs.subrange(a, b)[j] == (s, g) <==> stops[j] == s) by {
        assert(labels[a + j] == g);
    }
    lemma_occurrences_pointwise(pairs.subrange(a, b), stops, (s, g), s);
    // The grouped pairs hold (s, g) once per listing of g in the run of s.
    let p = choose|p: Seq<(u32, u32)>|
        {
            &&& sorted(p)
            &&& p.to_multiset() == pattern_stop_pairs(patterns, ss)
            &&& seconds_of(items, p)
            &&& is_lookup(firsts(p), n.stop_to_trip_pattern_lookup, n.stops.len())
        };
    assert(run_of(firsts(p), s as int, entry));
    if has_key(firsts(p), s as int) {
        let c = entry.start as int;
        let d = c + entry.count;
        assert forall|k: int| 0 <= k < p.len() && !(c <= k < d) implies p[k] != (s, g) by {
            assert(firsts(p)[k] == p[k].0);
        }
        lemma_occurrences_within(p, (s, g), c, d);
        assert forall|j: int| 0 <= j < run.len() implies (p.subrange(c, d)[j] == (s, g) <==> run[j] == TripPatternIdx(g)) by {
            assert(firsts(p)[c + j] == p[c + j].0);
            assert(items[c + j].spec_index() == p[c + j].1);
        }
        lemma_occurrences_pointwise(p.subrange(c, d), run, (s, g), TripPatternIdx(g));
    } else {
        assert forall|k: int| 0 <= k < p.len() implies p[k] != (s, g) by {
            assert(firsts(p)[k] == p[k].0);
        }
        lemma_occurrences_zero(p, (s, g));
        lemma_occurrences_zero(run, TripPatternIdx(g));
    }
    lemma_occurrences_multiset(p, (s, g));
    lemma_occurrences_multiset(pairs, (s, g));
    lemma_occurrences_multiset(run, TripPatternIdx(g));
    lemma_occurrences_multiset(stops, s);
}

} // verus!
