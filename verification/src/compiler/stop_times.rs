//! Building the stop times table.

use vstd::prelude::*;

use crate::compiler::feed::{add_text, lemma_sum_of_take, opt_len, sum_of, text_run, utf8, RawStopTime};
use crate::compiler::runs::{group_runs, run_of};
use crate::compiler::stops::lemma_text_run_kept;
use crate::models::coordinate::Distance;
use crate::models::idx::{Idx, StopIdx, StopTimeIdx, TripIdx};
use crate::models::opt::Opt;
use crate::models::sentinel::Sentinel;
use crate::models::slice::{StopTimeSlice, StringSlice};
use crate::models::slice_builder::SliceBuilder;
use crate::models::stoptime::StopTime;
use crate::models::time::Time;
use crate::models::trip::Trip;
use crate::sorting::{lemma_reordered_positions, par_sort, Ordered};
use crate::text_map::TextMap;

verus! {

/// The rows of `raw` whose trip and stop are both known; the others are left
/// out.
pub open spec fn kept_stop_times(raw: Seq<RawStopTime>, trips: &TextMap<TripIdx>, stops: &TextMap<StopIdx>) -> Seq<RawStopTime> {
    raw.filter(
        |st: RawStopTime|
            trips.spec_get(utf8(st.trip_id)) is Some && stops.spec_get(utf8(st.stop_id)) is Some,
    )
}

/// The stop time built from the kept row `st`, before it is placed.
pub open spec fn stop_time_of(
    st: RawStopTime,
    trips: &TextMap<TripIdx>,
    stops: &TextMap<StopIdx>,
    b: &SliceBuilder<StringSlice>,
) -> StopTime {
    StopTime {
        headsign: text_run(b, st.stop_headsign),
        idx: StopTimeIdx::spec_none(),
        stop_idx: stops.spec_get(utf8(st.stop_id))->0,
        trip_idx: trips.spec_get(utf8(st.trip_id))->0,
        sequence: st.stop_sequence,
        arrival_time: opt_time(st.arrival_time),
        departure_time: opt_time(st.departure_time),
        distance_traveled: opt_distance(st.shape_dist_traveled),
    }
}

/// A time where the row gives one; none otherwise.
pub open spec fn opt_time(t: Option<u32>) -> Opt<Time> {
    match t {
        Some(v) => Opt(Time(v)),
        None => Opt(Time::spec_none()),
    }
}

/// A distance where the row gives one; none otherwise.
pub open spec fn opt_distance(d: Option<Distance>) -> Opt<Distance> {
    match d {
        Some(v) => Opt(v),
        None => Opt(Distance::spec_none()),
    }
}

/// `st` placed at position `i` of the table.
pub open spec fn placed(st: StopTime, i: int) -> StopTime {
    StopTime {
        headsign: st.headsign,
        idx: StopTimeIdx(i as u32),
        stop_idx: st.stop_idx,
        trip_idx: st.trip_idx,
        sequence: st.sequence,
        arrival_time: st.arrival_time,
        departure_time: st.departure_time,
        distance_traveled: st.distance_traveled,
    }
}

/// `a` comes no later than `b`: by trip, then by sequence.
pub open spec fn in_trip_order(a: StopTime, b: StopTime) -> bool {
    a.trip_idx.0 < b.trip_idx.0 || (a.trip_idx.0 == b.trip_idx.0 && a.sequence <= b.sequence)
}

/// `t` with its run of stop times.
pub open spec fn with_stop_times(t: Trip, s: StopTimeSlice) -> Trip {
    Trip {
        id: t.id,
        headsign: t.headsign,
        short_name: t.short_name,
        shape: t.shape,
        stop_times: s,
        idx: t.idx,
        route_idx: t.route_idx,
        service_idx: t.service_idx,
    }
}

/// The trip of each stop time.
pub open spec fn trip_keys(sts: Seq<StopTime>) -> Seq<u32> {
    sts.map_values(|st: StopTime| st.trip_idx.0)
}

/// `perm` lists each of `0..n` once.
pub open spec fn is_permutation(perm: Seq<int>, n: nat) -> bool {
    &&& perm.len() == n
    &&& forall|m: int| 0 <= m < n ==> 0 <= #[trigger] perm[m] < n
    &&& forall|a: int, b: int| 0 <= a < b < n ==> perm[a] != perm[b]
}

/// A permutation of `0..n` takes every value of `0..n`.
pub proof fn lemma_permutation_onto(perm: Seq<int>, n: nat)
    requires
        is_permutation(perm, n),
    ensures
        forall|x: int| 0 <= x < n ==> #[trigger] perm.contains(x),
{
    assert(perm.no_duplicates()) by {
        assert forall|a: int, b: int| 0 <= a < perm.len() && 0 <= b < perm.len() && a != b implies perm[a] != perm[b] by {
            if a < b {
                assert(perm[a] != perm[b]);
            } else {
                assert(perm[b] != perm[a]);
            }
        }
    }
    perm.unique_seq_to_set();
    vstd::seq_lib::seq_to_set_is_finite(perm);
    vstd::set_lib::lemma_int_range(0, n as int);
    let range = vstd::set_lib::set_int_range(0, n as int);
    assert(perm.to_set().subset_of(range)) by {
        assert forall|x: int| perm.to_set().contains(x) implies range.contains(x) by {
            let m = choose|m: int| 0 <= m < perm.len() && perm[m] == x;
            assert(0 <= perm[m] < n);
        }
    }
    vstd::set_lib::lemma_subset_equality(perm.to_set(), range);
    assert forall|x: int| 0 <= x < n implies #[trigger] perm.contains(x) by {
        assert(range.contains(x));
        assert(perm.to_set().contains(x));
    }
}

/// Builds the stop times table: rows whose trip and stop are known become stop
/// times, ordered by trip and then by sequence, each knowing its position;
/// each trip gets the run of its stop times.
pub fn build_stop_times(
    raw_stop_times: &[RawStopTime],
    trips: &mut Vec<Trip>,
    trip_map: &TextMap<TripIdx>,
    stop_map: &TextMap<StopIdx>,
    slice_builder: &mut SliceBuilder<StringSlice>,
) -> (r: Vec<StopTime>)
    requires
        trip_map.wf(),
        stop_map.wf(),
        old(slice_builder).wf(),
        old(slice_builder).text().len() + sum_of(raw_stop_times@, |st: RawStopTime| opt_len(st.stop_headsign))
            <= usize::MAX,
        raw_stop_times@.len() < u32::MAX,
        old(trips)@.len() <= u32::MAX,
        forall|p: int| 0 <= p < trip_map.values().len() ==> (#[trigger] trip_map.values()[p]).0 < old(trips)@.len(),
    ensures
        final(slice_builder).wf(),
        final(slice_builder).extends(&*old(slice_builder)),
        final(slice_builder).text().len() <= old(slice_builder).text().len() + sum_of(raw_stop_times@, |st: RawStopTime| opt_len(st.stop_headsign)),
        r@.len() == kept_stop_times(raw_stop_times@, trip_map, stop_map).len(),
        exists|perm: Seq<int>|
            {
                &&& is_permutation(perm, r@.len())
                &&& forall|m: int|
                    0 <= m < r@.len() ==> #[trigger] r@[m] == placed(
                        stop_time_of(
                            kept_stop_times(raw_stop_times@, trip_map, stop_map)[perm[m]],
                            trip_map,
                            stop_map,
                            &*final(slice_builder),
                        ),
                        m,
                    )
            },
        forall|j: int|
            0 <= j < r@.len() ==> (#[trigger] kept_stop_times(raw_stop_times@, trip_map, stop_map)[j]).stop_headsign
                is Some ==> final(slice_builder).spec_lookup(
                utf8(kept_stop_times(raw_stop_times@, trip_map, stop_map)[j].stop_headsign->0),
            ) is Some,
        forall|a: int, b: int| 0 <= a < b < r@.len() ==> in_trip_order(r@[a], r@[b]),
        final(trips)@.len() == old(trips)@.len(),
        forall|t: int|
            0 <= t < old(trips)@.len() ==> #[trigger] final(trips)@[t] == with_stop_times(
                old(trips)@[t],
                final(trips)@[t].stop_times,
            ) && run_of(trip_keys(r@), t, final(trips)@[t].stop_times),
{
    let ghost f = |st: RawStopTime| opt_len(st.stop_headsign);
    let ghost pred = |st: RawStopTime|
        trip_map.spec_get(utf8(st.trip_id)) is Some && stop_map.spec_get(utf8(st.stop_id)) is Some;
    let mut built: Vec<StopTime> = Vec::new();
    proof {
        slice_builder.lemma_extends_refl();
        reveal(Seq::filter);
        assert(raw_stop_times@.take(0) =~= Seq::<RawStopTime>::empty());
    }
    let mut i: usize = 0;
    while i < raw_stop_times.len()
        invariant
            i <= raw_stop_times@.len() < u32::MAX,
            f == (|st: RawStopTime| opt_len(st.stop_headsign)),
            pred == (|st: RawStopTime|
                trip_map.spec_get(utf8(st.trip_id)) is Some && stop_map.spec_get(utf8(st.stop_id)) is Some),
            trip_map.wf(),
            stop_map.wf(),
            slice_builder.wf(),
            slice_builder.extends(&*old(slice_builder)),
            slice_builder.text().len() <= old(slice_builder).text().len() + sum_of(
                raw_stop_times@.take(i as int),
                f,
            ),
            old(slice_builder).wf(),
            old(slice_builder).text().len() + sum_of(raw_stop_times@, f) <= usize::MAX,
            built@.len() == raw_stop_times@.take(i as int).filter(pred).len(),
            built@.len() <= i,
            forall|j: int|
                0 <= j < built@.len() ==> (#[trigger] raw_stop_times@.take(i as int).filter(pred)[j]).stop_headsign
                    is Some ==> slice_builder.spec_lookup(
                    utf8(raw_stop_times@.take(i as int).filter(pred)[j].stop_headsign->0),
                ) is Some,
            forall|j: int|
                0 <= j < built@.len() ==> #[trigger] built@[j] == stop_time_of(
                    raw_stop_times@.take(i as int).filter(pred)[j],
                    trip_map,
                    stop_map,
                    &*slice_builder,
                ),
        decreases raw_stop_times@.len() - i,
    {
        let st = &raw_stop_times[i];
        let ghost kept = raw_stop_times@.take(i as int).filter(pred);
        proof {
            lemma_sum_of_take(raw_stop_times@, f, i as int);
            assert(f(raw_stop_times@[i as int]) == opt_len(st.stop_headsign));
            reveal(Seq::filter);
            assert(raw_stop_times@.take(i + 1).drop_last() =~= raw_stop_times@.take(i as int));
            assert(raw_stop_times@.take(i + 1).last() == *st);
        }
        let trip_idx = trip_map.get(st.trip_id.as_str().as_bytes());
        let stop_idx = stop_map.get(st.stop_id.as_str().as_bytes());
        if let (Some(trip_idx), Some(stop_idx)) = (trip_idx, stop_idx) {
            let ghost b0 = *slice_builder;
            let headsign = add_text(slice_builder, &st.stop_headsign);
            built.push(StopTime {
                headsign,
                idx: StopTimeIdx::none(),
                stop_idx: *stop_idx,
                trip_idx: *trip_idx,
                sequence: st.stop_sequence,
                arrival_time: match st.arrival_time {
                    Some(v) => Opt::new(Time(v)),
                    None => Opt::new(Time::none()),
                },
                departure_time: match st.departure_time {
                    Some(v) => Opt::new(Time(v)),
                    None => Opt::new(Time::none()),
                },
                distance_traveled: match st.shape_dist_traveled {
                    Some(v) => Opt::new(v),
                    None => Opt::new(Distance::none()),
                },
            });
            proof {
                let kept1 = raw_stop_times@.take(i + 1).filter(pred);
                assert(kept1 == kept.push(*st));
                slice_builder.lemma_extends_trans(&b0, &*old(slice_builder));
                assert forall|j: int| 0 <= j < built@.len() implies ((#[trigger] kept1[j]).stop_headsign
                    is Some ==> slice_builder.spec_lookup(utf8(kept1[j].stop_headsign->0)) is Some)
                    && built@[j] == stop_time_of(kept1[j], trip_map, stop_map, &*slice_builder) by {
                    if j < kept.len() {
                        assert(kept1[j] == kept[j]);
                        lemma_text_run_kept(&*slice_builder, &b0, kept[j].stop_headsign);
                    }
                }
            }
        } else {
            proof {
                assert(raw_stop_times@.take(i + 1).filter(pred) == kept);
            }
        }
        i = i + 1;
    }
    proof {
        assert(raw_stop_times@.take(i as int) =~= raw_stop_times@);
    }
    let ghost kept_all = raw_stop_times@.filter(pred);
    // Sort positions by trip and sequence.
    let mut order: Vec<(u32, u32, u32)> = Vec::new();
    let mut k: usize = 0;
    while k < built.len()
        invariant
            k <= built@.len() < u32::MAX,
            order@.len() == k,
            forall|m: int|
                0 <= m < k ==> #[trigger] order@[m] == (built@[m].trip_idx.0, built@[m].sequence, m as u32),
        decreases built@.len() - k,
    {
        order.push((built[k].trip_idx.0, built[k].sequence, k as u32));
        k = k + 1;
    }
    let ghost unsorted = order@;
    par_sort(&mut order);
    proof {
        lemma_reordered_positions(unsorted, order@, |t: (u32, u32, u32)| t.2 as int);
    }
    let mut stop_times: Vec<StopTime> = Vec::new();
    let mut m: usize = 0;
    while m < order.len()
        invariant
            m <= order@.len() == built@.len() < u32::MAX,
            stop_times@.len() == m,
            forall|q: int| 0 <= q < order@.len() ==> (#[trigger] order@[q]).2 < built@.len() && order@[q]
                == unsorted[order@[q].2 as int],
            forall|q: int| 0 <= q < unsorted.len() ==> #[trigger] unsorted[q] == (built@[q].trip_idx.0, built@[q].sequence, q as u32),
            forall|q: int| 0 <= q < m ==> #[trigger] stop_times@[q] == placed(built@[order@[q].2 as int], q),
        decreases order@.len() - m,
    {
        let pos = order[m].2 as usize;
        let mut st = built[pos];
        st.idx = StopTimeIdx(m as u32);
        stop_times.push(st);
        m = m + 1;
    }
    let ghost perm = order@.map_values(|t: (u32, u32, u32)| t.2 as int);
    proof {
        assert forall|a: int, b: int| 0 <= a < b < stop_times@.len() implies in_trip_order(stop_times@[a], stop_times@[b]) by {
            assert(order@[a].le(order@[b]));
        }
    }
    // Group by trip and hand each trip its run.
    let mut keys: Vec<u32> = Vec::new();
    let mut q: usize = 0;
    while q < stop_times.len()
        invariant
            q <= stop_times@.len(),
            keys@ == trip_keys(stop_times@.take(q as int)),
        decreases stop_times@.len() - q,
    {
        keys.push(stop_times[q].trip_idx.0);
        assert(trip_keys(stop_times@.take(q + 1)) =~= trip_keys(stop_times@.take(q as int)).push(stop_times@[q as int].trip_idx.0));
        q = q + 1;
    }
    proof {
        assert(stop_times@.take(q as int) =~= stop_times@);
        assert forall|x: int| 0 <= x < keys@.len() implies keys@[x] < trips@.len() by {
            let w = order@[x].2 as int;
            assert(stop_times@[x].trip_idx == built@[w].trip_idx);
            let kw = kept_all[w];
            assert(built@[w] == stop_time_of(kw, trip_map, stop_map, &*slice_builder));
            let tk = trip_map.spec_get(utf8(kw.trip_id));
            trip_map.lemma_wf();
            let fi = crate::text_map::find(trip_map.keys(), utf8(kw.trip_id))->0;
            assert(trip_map.values()[fi].0 < old(trips)@.len());
        }
        assert forall|a: int, b: int| 0 <= a < b < keys@.len() implies keys@[a] <= keys@[b] by {
            assert(in_trip_order(stop_times@[a], stop_times@[b]));
        }
    }
    let lookup = group_runs::<StopTimeSlice>(keys.as_slice(), trips.len());
    let ghost old_trips = trips@;
    let mut t: usize = 0;
    while t < trips.len()
        invariant
            t <= trips@.len(),
            trips@.len() == old_trips.len() == lookup@.len(),
            forall|x: int| 0 <= x < t ==> #[trigger] trips@[x] == with_stop_times(old_trips[x], lookup@[x]),
            forall|x: int| t <= x < trips@.len() ==> #[trigger] trips@[x] == old_trips[x],
        decreases trips@.len() - t,
    {
        let mut tr = trips[t];
        tr.stop_times = lookup[t];
        trips.set(t, tr);
        t = t + 1;
    }
    proof {
        assert forall|x: int| 0 <= x < old(trips)@.len() implies #[trigger] trips@[x] == with_stop_times(
            old(trips)@[x],
            trips@[x].stop_times,
        ) && run_of(trip_keys(stop_times@), x, trips@[x].stop_times) by {
            assert(run_of(keys@, x, lookup@[x]));
        }
        assert(is_permutation(perm, stop_times@.len()));
        assert forall|x: int| 0 <= x < stop_times@.len() implies #[trigger] stop_times@[x] == placed(
            stop_time_of(kept_all[perm[x]], trip_map, stop_map, &*slice_builder),
            x,
        ) by {
        }
    }
    stop_times
}

} // verus!
