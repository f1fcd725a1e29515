//! Building the stops table and the tables that hang off stops.

use vstd::prelude::*;
use vstd::utf8::encode_utf8;

use crate::compiler::feed::{add_text, lemma_sum_of_take, opt_len, sum_of, text_run, utf8, RawStop};
use crate::models::coordinate::Coordinate;
use crate::models::idx::StopIdx;
use crate::models::location_type::{location_code, LocationType};
use crate::models::opt::Opt;
use crate::models::sentinel::Sentinel;
use crate::models::slice::{StopIdSlice, StringSlice};
use crate::models::slice_builder::SliceBuilder;
use crate::models::stop::Stop;
use crate::compiler::ids::{build_ids, ids_assigned, ids_buildable};
use crate::compiler::runs::{group_unique_pairs, grouped_set, run_of};
use crate::models::idx::SearchIdx;
use crate::models::route_type::RouteType;
use crate::models::search_stop::SearchStop;
use crate::models::slice::{SearchSlice, Slice};
use crate::sorting::{par_sort, Ordered};
use crate::models::idx::TripIdx;
use crate::models::slice::TripSlice;
use crate::models::stoptime::StopTime;
use crate::text_map::TextMap;

verus! {

/// The bytes of text that a stop adds to the strings buffer, at most.
pub open spec fn stop_text_len(s: RawStop) -> nat {
    opt_len(s.code) + opt_len(s.name) + opt_len(s.description)
}

/// The identifiers of `raw`, as bytes.
pub open spec fn stop_ids_of(raw: Seq<RawStop>) -> Seq<Seq<u8>> {
    raw.map_values(|s: RawStop| utf8(s.id))
}

/// The position of every stop, as an index.
pub open spec fn stop_positions(n: nat) -> Seq<StopIdx> {
    Seq::new(n, |j: int| StopIdx(j as u32))
}

/// The texts of `s` have runs in `b`.
pub open spec fn stop_texts_added(b: &SliceBuilder<StringSlice>, s: RawStop) -> bool {
    &&& s.code is Some ==> b.spec_lookup(utf8(s.code->0)) is Some
    &&& s.name is Some ==> b.spec_lookup(utf8(s.name->0)) is Some
    &&& s.description is Some ==> b.spec_lookup(utf8(s.description->0)) is Some
}

/// The parent station of `s`, found by its identifier.
pub open spec fn parent_of(s: RawStop, ids: &TextMap<StopIdx>) -> Opt<StopIdx> {
    match s.parent_station {
        Some(p) => match ids.spec_get(utf8(p)) {
            Some(x) => Opt(x),
            None => Opt(StopIdx::spec_none()),
        },
        None => Opt(StopIdx::spec_none()),
    }
}

/// The stop built from row `i`, `s`, before parents are linked.
pub open spec fn unlinked_stop(s: RawStop, i: int, b: &SliceBuilder<StringSlice>) -> Stop {
    Stop {
        coordinate: match s.coordinate {
            Some(c) => Opt(c),
            None => Opt(Coordinate::spec_none()),
        },
        id: StopIdSlice::spec_none(),
        code: text_run(b, s.code),
        name: text_run(b, s.name),
        desc: text_run(b, s.description),
        idx: StopIdx(i as u32),
        parent_idx: Opt(StopIdx::spec_none()),
        location_type: LocationType(location_code(s.location_type)),
    }
}

/// The stop built from row `i`, `s`.
pub open spec fn stop_of(s: RawStop, i: int, b: &SliceBuilder<StringSlice>, ids: &TextMap<StopIdx>) -> Stop {
    let u = unlinked_stop(s, i, b);
    Stop {
        coordinate: u.coordinate,
        id: u.id,
        code: u.code,
        name: u.name,
        desc: u.desc,
        idx: u.idx,
        parent_idx: parent_of(s, ids),
        location_type: u.location_type,
    }
}

/// An optional text keeps its run as more texts are added.
pub proof fn lemma_text_run_kept(new: &SliceBuilder<StringSlice>, old: &SliceBuilder<StringSlice>, v: Option<String>)
    requires
        old.wf(),
        new.wf(),
        new.extends(old),
        v is Some ==> old.spec_lookup(utf8(v->0)) is Some,
    ensures
        text_run(new, v) == text_run(old, v),
        v is Some ==> new.spec_lookup(utf8(v->0)) is Some,
{
    if v is Some {
        new.lemma_lookup_kept(old, utf8(v->0));
    }
}

/// Builds the stops table, and the map from stop identifiers to stops.
/// Row `i` becomes stop `i`; its texts go into the strings buffer; its parent
/// is the stop whose identifier is its `parent_station`, the last such row
/// where identifiers repeat.
pub fn build_stops(raw_stops: &[RawStop], slice_builder: &mut SliceBuilder<StringSlice>) -> (r: (
    Vec<Stop>,
    TextMap<StopIdx>,
))
    requires
        old(slice_builder).wf(),
        old(slice_builder).text().len() + sum_of(raw_stops@, |s: RawStop| stop_text_len(s))
            <= usize::MAX,
        raw_stops@.len() < u32::MAX,
    ensures
        final(slice_builder).wf(),
        final(slice_builder).extends(&*old(slice_builder)),
        final(slice_builder).text().len() <= old(slice_builder).text().len() + sum_of(raw_stops@, |s: RawStop| stop_text_len(s)),
        r.1.wf(),
        r.1.indexes(stop_ids_of(raw_stops@), stop_positions(raw_stops@.len())),
        r.0@.len() == raw_stops@.len(),
        forall|i: int| 0 <= i < raw_stops@.len() ==> stop_texts_added(&*final(slice_builder), #[trigger] raw_stops@[i]),
        forall|i: int|
            0 <= i < raw_stops@.len() ==> #[trigger] r.0@[i] == stop_of(
                raw_stops@[i],
                i,
                &*final(slice_builder),
                &r.1,
            ),
{
    let ghost f = |s: RawStop| stop_text_len(s);
    let ghost ids = stop_ids_of(raw_stops@);
    let ghost pos = stop_positions(raw_stops@.len());
    let mut id_map: TextMap<StopIdx> = TextMap::new();
    let mut stops: Vec<Stop> = Vec::new();
    proof {
        id_map.lemma_indexes_empty();
        slice_builder.lemma_extends_refl();
        assert(ids.take(0) =~= Seq::<Seq<u8>>::empty());
        assert(pos.take(0) =~= Seq::<StopIdx>::empty());
        assert(raw_stops@.take(0) =~= Seq::<RawStop>::empty());
    }
    let mut i: usize = 0;
    while i < raw_stops.len()
        invariant
            i <= raw_stops@.len() < u32::MAX,
            ids == stop_ids_of(raw_stops@),
            pos == stop_positions(raw_stops@.len()),
            f == (|s: RawStop| stop_text_len(s)),
            slice_builder.wf(),
            slice_builder.extends(&*old(slice_builder)),
            slice_builder.text().len() <= old(slice_builder).text().len() + sum_of(
                raw_stops@.take(i as int),
                f,
            ),
            old(slice_builder).wf(),
            old(slice_builder).text().len() + sum_of(raw_stops@, f) <= usize::MAX,
            id_map.wf(),
            id_map.indexes(ids.take(i as int), pos.take(i as int)),
            stops@.len() == i,
            forall|j: int| 0 <= j < i ==> stop_texts_added(&*slice_builder, #[trigger] raw_stops@[j]),
            forall|j: int|
                0 <= j < i ==> #[trigger] stops@[j] == unlinked_stop(
                    raw_stops@[j],
                    j,
                    &*slice_builder,
                ),
        decreases raw_stops@.len() - i,
    {
        let stop = &raw_stops[i];
        proof {
            lemma_sum_of_take(raw_stops@, f, i as int);
            assert(f(raw_stops@[i as int]) == stop_text_len(*stop));
        }
        let coordinate = match stop.coordinate {
            Some(c) => Opt::new(c),
            None => Opt::new(Coordinate::none()),
        };
        let idx = StopIdx::from_usize(i);
        let ghost map0 = id_map;
        id_map.insert(stop.id.as_str(), idx);
        proof {
            id_map.lemma_indexes_insert(&map0, ids.take(i as int), pos.take(i as int), utf8(stop.id), idx);
            assert(ids.take(i as int).push(utf8(stop.id)) =~= ids.take(i + 1));
            assert(pos.take(i as int).push(idx) =~= pos.take(i + 1));
        }
        let ghost b0 = *slice_builder;
        let code = add_text(slice_builder, &stop.code);
        let ghost b1 = *slice_builder;
        let name = add_text(slice_builder, &stop.name);
        let ghost b2 = *slice_builder;
        let description = add_text(slice_builder, &stop.description);
        let location_type = LocationType::from_gtfs(stop.location_type);
        let s = Stop {
            coordinate,
            id: StopIdSlice::none(),
            code,
            name,
            desc: description,
            idx,
            parent_idx: Opt::new(StopIdx::none()),
            location_type,
        };
        stops.push(s);
        proof {
            b2.lemma_extends_trans(&b1, &b0);
            slice_builder.lemma_extends_trans(&b2, &b1);
            slice_builder.lemma_extends_trans(&b2, &b0);
            slice_builder.lemma_extends_trans(&b0, &*old(slice_builder));
            lemma_text_run_kept(&*slice_builder, &b1, stop.code);
            lemma_text_run_kept(&*slice_builder, &b2, stop.name);
            assert forall|j: int| 0 <= j < i implies stop_texts_added(&*slice_builder, #[trigger] raw_stops@[j])
                && stops@[j] == unlinked_stop(raw_stops@[j], j, &*slice_builder) by {
                let rj = raw_stops@[j];
                lemma_text_run_kept(&*slice_builder, &b0, rj.code);
                lemma_text_run_kept(&*slice_builder, &b0, rj.name);
                lemma_text_run_kept(&*slice_builder, &b0, rj.description);
            }
            assert(stops@[i as int] == unlinked_stop(raw_stops@[i as int], i as int, &*slice_builder));
        }
        i = i + 1;
    }
    proof {
        assert(ids.take(i as int) =~= ids);
        assert(pos.take(i as int) =~= pos);
        assert(raw_stops@.take(i as int) =~= raw_stops@);
    }
    let mut k: usize = 0;
    while k < raw_stops.len()
        invariant
            k <= raw_stops@.len(),
            stops@.len() == raw_stops@.len(),
            id_map.wf(),
            forall|j: int|
                0 <= j < k ==> #[trigger] stops@[j] == stop_of(
                    raw_stops@[j],
                    j,
                    &*slice_builder,
                    &id_map,
                ),
            forall|j: int|
                k <= j < raw_stops@.len() ==> #[trigger] stops@[j] == unlinked_stop(
                    raw_stops@[j],
                    j,
                    &*slice_builder,
                ),
        decreases raw_stops@.len() - k,
    {
        if let Some(parent) = &raw_stops[k].parent_station {
            if let Some(idx) = id_map.get(parent.as_str().as_bytes()) {
                let mut s = stops[k];
                s.parent_idx = Opt::new(*idx);
                stops.set(k, s);
            }
        }
        k = k + 1;
    }
    (stops, id_map)
}

/// The (stop, trip) pairs of the stop times.
pub open spec fn stop_trip_pairs(stop_times: Seq<StopTime>) -> Set<(u32, u32)> {
    stop_times.map_values(|st: StopTime| (st.stop_idx.0, st.trip_idx.0)).to_set()
}

/// Builds, for each stop, the trips that call at it: every trip once, in
/// increasing order, grouped by stop; the lookup holds each stop's run, the
/// reserved run for a stop without trips.
pub fn build_stop_to_trips(stops: &[Stop], stop_times: &[StopTime]) -> (r: (Vec<TripIdx>, Vec<TripSlice>))
    requires
        stop_times@.len() <= u32::MAX,
        forall|k: int| 0 <= k < stop_times@.len() ==> (#[trigger] stop_times@[k]).stop_idx.0 < stops@.len(),
    ensures
        grouped_set(stop_trip_pairs(stop_times@), r.0@, r.1@, stops@.len()),
{
    let mut pairs: Vec<(u32, u32)> = Vec::new();
    let mut i: usize = 0;
    while i < stop_times.len()
        invariant
            i <= stop_times@.len(),
            pairs@ == stop_times@.take(i as int).map_values(|st: StopTime| (st.stop_idx.0, st.trip_idx.0)),
        decreases stop_times@.len() - i,
    {
        pairs.push((stop_times[i].stop_idx.0, stop_times[i].trip_idx.0));
        assert(stop_times@.take(i + 1).map_values(|st: StopTime| (st.stop_idx.0, st.trip_idx.0))
            =~= stop_times@.take(i as int).map_values(|st: StopTime| (st.stop_idx.0, st.trip_idx.0)).push(
            (stop_times@[i as int].stop_idx.0, stop_times@[i as int].trip_idx.0),
        ));
        i = i + 1;
    }
    assert(stop_times@.take(i as int) =~= stop_times@);
    group_unique_pairs::<TripIdx, TripSlice>(pairs, stops.len())
}

/// Packs the stop identifiers into one text, gives each stop the run of its
/// identifier, and orders the stops by identifier.
pub fn build_stop_ids(stops: &mut Vec<Stop>, stop_map: &TextMap<StopIdx>) -> (r: (Vec<StopIdx>, String))
    requires
        ids_buildable(stop_map, old(stops)@),
    ensures
        ids_assigned(stop_map, old(stops)@, final(stops)@, r.0@, encode_utf8(r.1@)),
{
    build_ids(stops, stop_map)
}

/// The name under which stop `i` is searched: its own name for a named
/// station, or a named stop with no parent among generic nodes; else the name
/// of its parent station, where that has one.
pub open spec fn search_name(stops: Seq<Stop>, i: int) -> Option<StringSlice> {
    let st = stops[i];
    if st.name.spec_option() is Some && (st.location_type.0 == 1 || (st.location_type.0 == 3
        && st.parent_idx.spec_option() is None)) {
        Some(st.name.0)
    } else if st.parent_idx.spec_option() is Some && stops[st.parent_idx.0.0 as int].name.spec_option() is Some {
        Some(stops[st.parent_idx.0.0 as int].name.0)
    } else {
        None
    }
}

/// The name a stop is searched under. A named station (location type 1),
/// or a named generic node (type 3) with no parent, is searched under its
/// own name. Every other stop, a stop point (type 0) among them, is
/// searched under the name of its parent station where that is named, so it
/// shares its parent station's search group; it has no search name where
/// its parent has no name or it has no parent.
pub proof fn lemma_search_name_of_stop(stops: Seq<Stop>, i: int)
    requires
        0 <= i < stops.len(),
        stops[i].parent_idx.0.0 != u32::MAX ==> stops[i].parent_idx.0.0 < stops.len(),
    ensures
        ({
            let st = stops[i];
            let lt = st.location_type.0;
            let own = lt == 1 || (lt == 3 && st.parent_idx.spec_option() is None);
            let p = st.parent_idx.0.0 as int;
            &&& own && st.name.spec_option() is Some ==> search_name(stops, i) == Some(st.name.0)
            &&& !own && st.parent_idx.spec_option() is Some && stops[p].name.spec_option() is Some ==> search_name(
                stops,
                i,
            ) == Some(stops[p].name.0)
            &&& !own && st.parent_idx.spec_option() is Some && stops[p].location_type.0 == 1
                && stops[p].name.spec_option() is Some ==> search_name(stops, i) == search_name(stops, p)
            &&& !own && st.parent_idx.spec_option() is None ==> search_name(stops, i) is None
            &&& st.parent_idx.spec_option() is Some && stops[p].name.spec_option() is None && (!own
                || st.name.spec_option() is None) ==> search_name(stops, i) is None
        }),
{
}

/// The search name of stop `i`, where it has one.
fn search_name_of(stops: &[Stop], i: usize) -> (r: Option<StringSlice>)
    requires
        i < stops@.len(),
        stops@[i as int].parent_idx.0.0 != u32::MAX ==> stops@[i as int].parent_idx.0.0 < stops@.len(),
    ensures
        r == search_name(stops@, i as int),
{
    let st = &stops[i];
    let lt = st.location_type.0;
    match st.name.as_option() {
        Some(name) => {
            if lt == 1 || (lt == 3 && st.parent_idx.is_none()) {
                return Some(name);
            }
        },
        None => {},
    }
    match st.parent_idx.as_option() {
        Some(parent) => stops[parent.0 as usize].name.as_option(),
        None => None,
    }
}

/// Groups stops by the name they are searched under. Each group lists its
/// stops in increasing order; groups are never empty and have distinct
/// names, in increasing order of where their names lie in the strings; every
/// stop with a search name is in exactly one group.
pub fn build_stop_search(stops: &[Stop]) -> (r: (Vec<SearchStop>, Vec<StopIdx>))
    requires
        stops@.len() < u32::MAX,
        forall|i: int|
            0 <= i < stops@.len() && (#[trigger] stops@[i]).parent_idx.0.0 != u32::MAX ==> stops@[i].parent_idx.0.0
                < stops@.len(),
    ensures
        exists|perm: Seq<int>, gk: Seq<u32>|
            #![trigger perm.len(), gk.len()]
            {
                &&& perm.len() == r.1@.len() == gk.len()
                &&& forall|m: int| 0 <= m < perm.len() ==> 0 <= #[trigger] perm[m] < stops@.len()
                    && r.1@[m] == stops@[perm[m]].idx && search_name(stops@, perm[m]) == Some(
                    r.0@[gk[m] as int].name,
                )
                &&& forall|a: int, b: int| 0 <= a < b < perm.len() ==> perm[a] != perm[b]
                &&& forall|i: int|
                    0 <= i < stops@.len() && search_name(stops@, i) is Some ==> exists|m: int|
                        0 <= m < perm.len() && perm[m] == i
                &&& forall|m: int| 0 <= m < gk.len() ==> #[trigger] gk[m] < r.0@.len()
                &&& forall|g: int|
                    0 <= g < r.0@.len() ==> (#[trigger] r.0@[g]).idx == SearchIdx(g as u32) && r.0@[g].route_type
                        == RouteType::spec_none() && run_of(gk, g, r.0@[g].stops)
                &&& forall|g1: int, g2: int| 0 <= g1 < g2 < r.0@.len() ==> r.0@[g1].name != r.0@[g2].name
                &&& forall|a: int, b: int|
                    #![trigger perm[a], perm[b]]
                    0 <= a < b < perm.len() && gk[a] == gk[b] ==> perm[a] < perm[b]
            },
        forall|g: int| 0 <= g < r.0@.len() ==> (#[trigger] r.0@[g]).stops.count > 0,
        forall|g1: int, g2: int|
            #![trigger r.0@[g1], r.0@[g2]]
            0 <= g1 < g2 < r.0@.len() ==> r.0@[g1].name.start < r.0@[g2].name.start || (r.0@[g1].name.start
                == r.0@[g2].name.start && r.0@[g1].name.count < r.0@[g2].name.count),
{
    let n = stops.len();
    let mut entries: Vec<(u32, u32, u32)> = Vec::new();
    let mut i: usize = 0;
    while i < n
        invariant
            n == stops@.len() < u32::MAX,
            i <= n,
            forall|j: int|
                0 <= j < stops@.len() && (#[trigger] stops@[j]).parent_idx.0.0 != u32::MAX ==> stops@[j].parent_idx.0.0
                    < stops@.len(),
            entries@.len() <= i,
            forall|q: int| 0 <= q < entries@.len() ==> (#[trigger] entries@[q]).2 < i && search_name(stops@, entries@[q].2 as int)
                == Some(StringSlice { start: entries@[q].0, count: entries@[q].1 }),
            forall|a: int, b: int| 0 <= a < b < entries@.len() ==> entries@[a].2 < entries@[b].2,
            forall|j: int| 0 <= j < i && search_name(stops@, j) is Some ==> exists|q: int|
                0 <= q < entries@.len() && entries@[q].2 == j,
        decreases n - i,
    {
        let ghost e0 = entries@;
        match search_name_of(stops, i) {
            Some(name) => {
                entries.push((name.start, name.count, i as u32));
                proof {
                    assert(entries@[entries@.len() - 1].2 == i);
                }
            },
            None => {},
        }
        proof {
            assert forall|j: int| 0 <= j < i + 1 && search_name(stops@, j) is Some implies exists|q: int|
                0 <= q < entries@.len() && entries@[q].2 == j by {
                if j < i {
                    let q = choose|q: int| 0 <= q < e0.len() && e0[q].2 == j;
                    assert(entries@[q] == e0[q]);
                } else {
                    assert(entries@[entries@.len() - 1].2 == i);
                }
            }
        }
        i = i + 1;
    }
    let ghost before = entries@;
    par_sort(&mut entries);
    proof {
        vstd::seq_lib::to_multiset_len(entries@);
        vstd::seq_lib::to_multiset_len(before);
        assert forall|q: int| 0 <= q < entries@.len() implies before.contains(#[trigger] entries@[q]) by {
            vstd::seq_lib::to_multiset_contains(entries@, entries@[q]);
            vstd::seq_lib::to_multiset_contains(before, entries@[q]);
        }
        assert forall|q: int| 0 <= q < before.len() implies entries@.contains(#[trigger] before[q]) by {
            vstd::seq_lib::to_multiset_contains(entries@, before[q]);
            vstd::seq_lib::to_multiset_contains(before, before[q]);
        }
        assert forall|a: int, b: int| 0 <= a < b < entries@.len() implies entries@[a].2 != entries@[b].2 by {
            if entries@[a].2 == entries@[b].2 {
                let wa = choose|w: int| 0 <= w < before.len() && before[w] == entries@[a];
                let wb = choose|w: int| 0 <= w < before.len() && before[w] == entries@[b];
                if wa != wb {
                    if wa < wb {
                        assert(before[wa].2 < before[wb].2);
                    } else {
                        assert(before[wb].2 < before[wa].2);
                    }
                }
                crate::sorting::lemma_count_two(entries@, a, b);
                lemma_count_one_distinct(before, wa);
            }
        }
    }
    // Walk the runs of equal names.
    let m_total = entries.len();
    let mut search_stops: Vec<SearchStop> = Vec::new();
    let mut search_to_stops: Vec<StopIdx> = Vec::new();
    let ghost mut gk: Seq<u32> = Seq::empty();
    let mut m: usize = 0;
    while m < m_total
        invariant
            m <= m_total == entries@.len() <= stops@.len() < u32::MAX,
            forall|q: int| 0 <= q < entries@.len() ==> before.contains(#[trigger] entries@[q]),
            forall|q: int| 0 <= q < before.len() ==> (#[trigger] before[q]).2 < stops@.len() && search_name(stops@, before[q].2 as int)
                == Some(StringSlice { start: before[q].0, count: before[q].1 }),
            forall|a: int, b: int| 0 <= a < b < entries@.len() ==> entries@[a].le(entries@[b]),
            gk.len() == m,
            search_to_stops@.len() == m,
            search_stops@.len() <= m,
            forall|q: int| 0 <= q < m ==> #[trigger] search_to_stops@[q] == stops@[entries@[q].2 as int].idx,
            forall|q: int| 0 <= q < m ==> #[trigger] gk[q] < search_stops@.len(),
            forall|q: int|
                0 <= q < m ==> search_stops@[gk[q] as int].name == (StringSlice { start: (#[trigger] entries@[q]).0, count: entries@[q].1 }),
            forall|g: int|
                0 <= g < search_stops@.len() ==> {
                    &&& (#[trigger] search_stops@[g]).idx == SearchIdx(g as u32)
                    &&& search_stops@[g].route_type == RouteType::spec_none()
                    &&& search_stops@[g].stops.count > 0
                    &&& search_stops@[g].stops.start + search_stops@[g].stops.count <= m
                    &&& forall|q: int| 0 <= q < m ==> (gk[q] == g <==> search_stops@[g].stops.start <= q < search_stops@[g].stops.start
                        + search_stops@[g].stops.count)
                },
            forall|g1: int, g2: int|
                #![trigger search_stops@[g1], search_stops@[g2]]
                0 <= g1 < g2 < search_stops@.len() ==> {
                let n1 = search_stops@[g1].name;
                let n2 = search_stops@[g2].name;
                n1.start < n2.start || (n1.start == n2.start && n1.count < n2.count)
            },
            search_stops@.len() > 0 ==> search_stops@.last().stops.start + search_stops@.last().stops.count == m,
            search_stops@.len() > 0 && m < m_total ==> (entries@[m as int].0 != search_stops@.last().name.start
                || entries@[m as int].1 != search_stops@.last().name.count),
            search_stops@.len() == 0 ==> m == 0,
        decreases m_total - m,
    {
        let s = m;
        let g = search_stops.len();
        let name = (StringSlice { start: entries[s].0, count: entries[s].1 });
        let ghost gk0 = gk;
        let ghost tos0 = search_to_stops@;
        let ghost ss0 = search_stops@;
        while m < m_total && entries[m].0 == name.start && entries[m].1 == name.count
            invariant
                s <= m <= m_total == entries@.len(),
                forall|q: int| s <= q < m ==> (#[trigger] entries@[q]).0 == name.start && entries@[q].1 == name.count,
                search_to_stops@.len() == m,
                search_to_stops@.subrange(0, s as int) == tos0,
                tos0.len() == s,
                forall|q: int| s <= q < m ==> #[trigger] search_to_stops@[q] == stops@[entries@[q].2 as int].idx,
                forall|q: int| 0 <= q < entries@.len() ==> before.contains(#[trigger] entries@[q]),
                forall|q: int| 0 <= q < before.len() ==> (#[trigger] before[q]).2 < stops@.len(),
            decreases m_total - m,
        {
            proof {
                let w = choose|w: int| 0 <= w < before.len() && before[w] == entries@[m as int];
            }
            search_to_stops.push(stops[entries[m].2 as usize].idx);
            proof {
                assert(search_to_stops@.subrange(0, s as int) =~= tos0);
            }
            m = m + 1;
        }
        search_stops.push(SearchStop::new(
            SearchIdx(g as u32),
            name,
            SearchSlice::from_usize(s, m - s),
            RouteType::none(),
        ));
        proof {
            gk = gk0 + Seq::new((m - s) as nat, |x: int| g as u32);
            assert(m > s);
            assert(search_stops@.drop_last() =~= ss0);
            assert forall|q: int| 0 <= q < m implies #[trigger] search_to_stops@[q] == stops@[entries@[q].2 as int].idx by {
                if q < s {
                    assert(search_to_stops@.subrange(0, s as int)[q] == tos0[q]);
                }
            }
            if g > 0 {
                let last = ss0[g - 1];
                let ps = last.stops.start as int;
                assert(entries@[s - 1].le(entries@[s as int]));
                assert(gk0[s - 1] == g - 1);
                assert(search_stops@[g - 1].name == (StringSlice { start: entries@[s - 1].0, count: entries@[s - 1].1 }));
            }
        }
    }
    proof {
        let perm = entries@.map_values(|e: (u32, u32, u32)| e.2 as int);
        assert forall|m2: int| 0 <= m2 < perm.len() implies 0 <= #[trigger] perm[m2] < stops@.len()
            && search_to_stops@[m2] == stops@[perm[m2]].idx && search_name(stops@, perm[m2]) == Some(
            search_stops@[gk[m2] as int].name,
        ) by {
            let w = choose|w: int| 0 <= w < before.len() && before[w] == entries@[m2];
        }
        assert forall|a: int, b: int| 0 <= a < b < perm.len() implies perm[a] != perm[b] by {
        }
        assert forall|i2: int| 0 <= i2 < stops@.len() && search_name(stops@, i2) is Some implies exists|m2: int|
            0 <= m2 < perm.len() && perm[m2] == i2 by {
            let q = choose|q: int| 0 <= q < before.len() && before[q].2 == i2;
            assert(entries@.contains(before[q]));
            let m2 = choose|m2: int| 0 <= m2 < entries@.len() && entries@[m2] == before[q];
            assert(perm[m2] == i2);
        }
        assert forall|g: int| 0 <= g < search_stops@.len() implies run_of(gk, g, (#[trigger] search_stops@[g]).stops) by {
            assert(gk[search_stops@[g].stops.start as int] == g);
        }
        assert forall|g1: int, g2: int| 0 <= g1 < g2 < search_stops@.len() implies search_stops@[g1].name != search_stops@[g2].name by {
        }
        assert forall|a: int, b: int|
            #![trigger perm[a], perm[b]]
            0 <= a < b < perm.len() && gk[a] == gk[b] implies perm[a] < perm[b] by {
            assert(entries@[a].le(entries@[b]));
            assert(search_stops@[gk[a] as int].name == (StringSlice { start: entries@[a].0, count: entries@[a].1 }));
            assert(search_stops@[gk[b] as int].name == (StringSlice { start: entries@[b].0, count: entries@[b].1 }));
        }
        assert(perm.len() == search_to_stops@.len() == gk.len());
        assert(forall|m2: int| 0 <= m2 < gk.len() ==> #[trigger] gk[m2] < search_stops@.len());
        assert(forall|g: int|
                    0 <= g < search_stops@.len() ==> (#[trigger] search_stops@[g]).idx == SearchIdx(g as u32) && search_stops@[g].route_type
                        == RouteType::spec_none() && run_of(gk, g, search_stops@[g].stops));
    }
    (search_stops, search_to_stops)
}

/// In a table whose entries have distinct third components, each entry is
/// counted once.
proof fn lemma_count_one_distinct(s: Seq<(u32, u32, u32)>, p: int)
    requires
        0 <= p < s.len(),
        forall|a: int, b: int| 0 <= a < b < s.len() ==> s[a].2 < s[b].2,
    ensures
        s.to_multiset().count(s[p]) == 1,
{
    broadcast use vstd::multiset::group_multiset_axioms;

    vstd::seq_lib::to_multiset_remove(s, p);
    vstd::seq_lib::to_multiset_contains(s, s[p]);
    assert forall|k: int| 0 <= k < s.remove(p).len() implies s.remove(p)[k] != s[p] by {
        if k < p {
            assert(s.remove(p)[k] == s[k]);
        } else {
            assert(s.remove(p)[k] == s[k + 1]);
        }
    }
    vstd::seq_lib::to_multiset_contains(s.remove(p), s[p]);
}

} // verus!
