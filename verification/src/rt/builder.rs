//! Laying realtime feed messages over a compiled network.

use vstd::prelude::*;
use vstd::string::StringSliceAdditionalSpecFns;

use crate::consumer::lookup::{key_at, lookup_sorted, run_entries, run_fits};
use crate::consumer::valid::queryable;
use crate::consumer::{Consumer, NetworkView};
use crate::models::coordinate::Coordinate;
use crate::models::idx::TripIdx;
use crate::models::opt::Opt;
use crate::models::sentinel::Sentinel;
use crate::models::stoptime::StopTime;
use crate::models::time::{delay_of, Delay, Time};
use crate::rt::feed::{
    descriptor_id, trip_id_of, FeedEntity, FeedMessage, OccupancyStatus, StopTimeEvent, StopTimeUpdate, TripUpdate,
    VehiclePosition, VehicleStopStatus,
};
use crate::rt::{
    initial_realtime, sized, stop_time_status_of, trip_status_of, Realtime, RealtimeView, StopTimeStatus, TripStatus, Vehicle,
};

verus! {

/// The time of day, in seconds, of `t` seconds since the epoch, taken as the
/// remainder of a truncating division: a negative remainder is no time.
pub open spec fn day_time(t: i64) -> Time {
    if t >= 0 {
        Time((t % 86400) as u32)
    } else if (-t) % 86400 == 0 {
        Time(0)
    } else {
        Time(u32::MAX)
    }
}

/// The delay that a predicted event gives against the scheduled time: its
/// own delay, else its time against the scheduled one where both are known.
pub open spec fn event_delay(ev: Option<StopTimeEvent>, scheduled: Opt<Time>) -> Opt<Delay> {
    match ev {
        None => Opt(Delay::spec_none()),
        Some(e) => match e.delay {
            Some(d) => Opt(delay_of(d as int)),
            None => match e.time {
                Some(t) => if scheduled.spec_option() is Some {
                    Opt(delay_of(day_time(t).0 - scheduled.0.0))
                } else {
                    Opt(Delay::spec_none())
                },
                None => Opt(Delay::spec_none()),
            },
        },
    }
}

/// The delay of a predicted event against a scheduled time: an event with a
/// delay gives that delay, whatever time it names; an event with only a
/// predicted time `t` (seconds since the epoch, not before it) gives the
/// seconds from the scheduled time `s` to `t`'s time of day, later being
/// late: `t % 86400 - s`, positive where `t` falls after `s` in the day and
/// negative where before, within the range of a delay; no event, or a time
/// against no scheduled time, gives no delay.
pub proof fn lemma_event_delay(ev: StopTimeEvent, t: i64, s: u32)
    ensures
        ev.delay matches Some(d) ==> event_delay(Some(ev), Opt(Time(s))) == Opt(delay_of(d as int)),
        ev.delay is None && ev.time == Some(t) && t >= 0 && s != u32::MAX ==> event_delay(Some(ev), Opt(Time(s)))
            == Opt(delay_of(t % 86400 - s)),
        ev.delay is None && ev.time == Some(t) && t >= 0 && s != u32::MAX && s < t % 86400 < s + i16::MAX
            ==> event_delay(Some(ev), Opt(Time(s))).0.0 > 0,
        ev.delay is None && ev.time == Some(t) && t >= 0 && s != u32::MAX && s + i16::MIN <= t % 86400 < s
            ==> event_delay(Some(ev), Opt(Time(s))).0.0 < 0,
        ev.delay is None && ev.time is Some ==> event_delay(Some(ev), Opt(Time::spec_none())).spec_option() is None,
        event_delay(None, Opt(Time(s))).spec_option() is None,
{
}

/// The status that a stop time update gives; scheduled where it names none.
pub open spec fn update_status(u: StopTimeUpdate) -> StopTimeStatus {
    match u.schedule_relationship {
        Some(rel) => stop_time_status_of(rel),
        None => StopTimeStatus::Scheduled,
    }
}

/// The status that a trip update gives; scheduled where it names none.
pub open spec fn trip_update_status(u: TripUpdate) -> TripStatus {
    match u.trip.schedule_relationship {
        Some(rel) => trip_status_of(rel),
        None => TripStatus::Unchanged,
    }
}

/// `r` with stop time `i` updated by `u`, `st` being the scheduled stop time.
pub open spec fn stop_time_set(r: RealtimeView, i: int, u: StopTimeUpdate, st: StopTime) -> RealtimeView {
    RealtimeView {
        stop_time_departure_delays: r.stop_time_departure_delays.update(i, event_delay(u.departure, st.departure_time)),
        stop_time_arrival_delays: r.stop_time_arrival_delays.update(i, event_delay(u.arrival, st.arrival_time)),
        stop_time_status: r.stop_time_status.update(i, update_status(u)),
        trip_status: r.trip_status,
        trip_delay: r.trip_delay,
        trip_vehicles: r.trip_vehicles,
    }
}

/// `r` with the status and delay of trip `t` set by `u`.
pub open spec fn trip_set(r: RealtimeView, t: int, u: TripUpdate) -> RealtimeView {
    RealtimeView {
        stop_time_departure_delays: r.stop_time_departure_delays,
        stop_time_arrival_delays: r.stop_time_arrival_delays,
        stop_time_status: r.stop_time_status,
        trip_status: r.trip_status.update(t, trip_update_status(u)),
        trip_delay: r.trip_delay.update(
            t,
            Opt(
                delay_of(
                    match u.delay {
                        Some(d) => d as int,
                        None => 0,
                    },
                ),
            ),
        ),
        trip_vehicles: r.trip_vehicles,
    }
}

/// `r` with the vehicle of trip `t` set to `v`.
pub open spec fn vehicle_set(r: RealtimeView, t: int, v: Vehicle) -> RealtimeView {
    RealtimeView {
        stop_time_departure_delays: r.stop_time_departure_delays,
        stop_time_arrival_delays: r.stop_time_arrival_delays,
        stop_time_status: r.stop_time_status,
        trip_status: r.trip_status,
        trip_delay: r.trip_delay,
        trip_vehicles: r.trip_vehicles.update(t, Some(v)),
    }
}

/// The vehicle that a position report at `position` gives.
pub open spec fn vehicle_of(v: VehiclePosition, position: Coordinate) -> Vehicle {
    Vehicle {
        position,
        current_status: match v.current_status {
            Some(s) => s,
            None => VehicleStopStatus::InTransitTo,
        },
        occupancy_status: match v.occupancy_status {
            Some(s) => s,
            None => OccupancyStatus::Empty,
        },
        occupancy_percentage: v.occupancy_percentage,
        current_stop_sequence: v.current_stop_sequence,
    }
}

/// The stop times are in increasing order of sequence number.
pub open spec fn sequence_sorted(sts: Seq<StopTime>) -> bool {
    forall|a: int, b: int| 0 <= a < b < sts.len() ==> sts[a].sequence <= sts[b].sequence
}

/// Entry `m` of the trip lookup names a trip with identifier `id`.
pub open spec fn found_trip(n: NetworkView, id: Seq<u8>, m: int) -> bool {
    &&& 0 <= m < n.trips_id_lookup.len()
    &&& key_at(n.trips, n.trips_id_lookup, n.trip_ids, m) == id
}

/// Where the trip lookup is sorted, no trip has identifier `id`.
pub open spec fn trip_missing(n: NetworkView, id: Seq<u8>) -> bool {
    lookup_sorted(n.trips, n.trips_id_lookup, n.trip_ids) ==> forall|m: int|
        0 <= m < n.trips_id_lookup.len() ==> key_at(n.trips, n.trips_id_lookup, n.trip_ids, m) != id
}

/// `after` is `before` with stop time update `u` of trip `t` applied: to the
/// stop time of the trip with the update's sequence number, or to none
/// where, the trip's stop times being in order of sequence, none has it.
pub open spec fn stop_time_update_applied(
    n: NetworkView,
    t: int,
    before: RealtimeView,
    u: StopTimeUpdate,
    after: RealtimeView,
) -> bool {
    let run = n.trips[t].stop_times;
    let sts = run_entries(n.stop_times, run);
    let key = match u.stop_sequence {
        Some(s) => s,
        None => u32::MAX,
    };
    ||| after == before && (sequence_sorted(sts) ==> forall|p: int| 0 <= p < sts.len() ==> sts[p].sequence != key)
    ||| exists|p: int|
        0 <= p < sts.len() && sts[p].sequence == key && after == stop_time_set(before, run.start + p, u, sts[p])
}

/// `after` is `before` with the stop time updates `us` of trip `t` applied
/// in order.
pub open spec fn stop_time_updates_applied(
    n: NetworkView,
    t: int,
    before: RealtimeView,
    us: Seq<StopTimeUpdate>,
    after: RealtimeView,
) -> bool
    decreases us.len(),
{
    if us.len() == 0 {
        after == before
    } else {
        exists|mid: RealtimeView|
            stop_time_updates_applied(n, t, before, us.drop_last(), mid) && stop_time_update_applied(
                n,
                t,
                mid,
                us.last(),
                after,
            )
    }
}

/// The sequence number that stop time update `u` names; `u32::MAX` where it
/// names none.
pub open spec fn update_key(u: StopTimeUpdate) -> u32 {
    match u.stop_sequence {
        Some(s) => s,
        None => u32::MAX,
    }
}

/// Some update of `us` names sequence number `s`.
pub open spec fn has_update(us: Seq<StopTimeUpdate>, s: u32) -> bool {
    exists|k: int| 0 <= k < us.len() && #[trigger] update_key(us[k]) == s
}

/// The delay that stop time `i` passes on to later ones: its departure
/// delay, or its arrival delay where it has no departure delay.
pub open spec fn passed_delay(r: RealtimeView, i: int) -> Opt<Delay> {
    if r.stop_time_departure_delays[i].spec_option() is Some {
        r.stop_time_departure_delays[i]
    } else {
        r.stop_time_arrival_delays[i]
    }
}

/// The delay that reaches the `p`-th stop time of a trip whose stop times
/// `sts` start at `start`: the one passed on by the last earlier stop time
/// that an update of `us` names; none where no earlier one is named.
pub open spec fn carried(r: RealtimeView, start: int, sts: Seq<StopTime>, us: Seq<StopTimeUpdate>, p: int) -> Opt<
    Delay,
>
    decreases p,
{
    if p <= 0 {
        Opt(Delay::spec_none())
    } else if has_update(us, sts[p - 1].sequence) {
        passed_delay(r, start + p - 1)
    } else {
        carried(r, start, sts, us, p - 1)
    }
}

/// The delay that stop time `i` takes on when delays cascade along trip
/// `t`: where `i` is one of the trip's first `upto` stop times, no update of
/// `us` names it, and a delay reaches it, that delay; else what `delays`
/// holds.
pub open spec fn cascaded_delay(
    n: NetworkView,
    t: int,
    r: RealtimeView,
    us: Seq<StopTimeUpdate>,
    upto: int,
    delays: Seq<Opt<Delay>>,
    i: int,
) -> Opt<Delay> {
    let run = n.trips[t].stop_times;
    let sts = run_entries(n.stop_times, run);
    if run.start <= i < run.start + upto && !has_update(us, sts[i - run.start].sequence) && carried(
        r,
        run.start as int,
        sts,
        us,
        i - run.start,
    ).spec_option() is Some {
        carried(r, run.start as int, sts, us, i - run.start)
    } else {
        delays[i]
    }
}

/// `r` with the delays of trip `t` cascaded over its first `upto` stop
/// times: each stop time that no update of `us` names takes on, as arrival
/// and departure delay, the delay passed on by the last earlier stop time
/// that one names.
pub open spec fn cascade_upto(n: NetworkView, t: int, r: RealtimeView, us: Seq<StopTimeUpdate>, upto: int) -> RealtimeView {
    RealtimeView {
        stop_time_departure_delays: Seq::new(
            r.stop_time_departure_delays.len(),
            |i: int| cascaded_delay(n, t, r, us, upto, r.stop_time_departure_delays, i),
        ),
        stop_time_arrival_delays: Seq::new(
            r.stop_time_arrival_delays.len(),
            |i: int| cascaded_delay(n, t, r, us, upto, r.stop_time_arrival_delays, i),
        ),
        stop_time_status: r.stop_time_status,
        trip_status: r.trip_status,
        trip_delay: r.trip_delay,
        trip_vehicles: r.trip_vehicles,
    }
}

/// `r` with the delays of trip `t` cascaded over all its stop times.
pub open spec fn cascaded(n: NetworkView, t: int, r: RealtimeView, us: Seq<StopTimeUpdate>) -> RealtimeView {
    cascade_upto(n, t, r, us, n.trips[t].stop_times.count as int)
}

/// The delay that reaches a stop time is the one passed on by the last
/// earlier stop time that an update names.
proof fn lemma_carried_from(r: RealtimeView, start: int, sts: Seq<StopTime>, us: Seq<StopTimeUpdate>, q: int, p: int)
    requires
        0 <= q < p <= sts.len(),
        has_update(us, sts[q].sequence),
        forall|x: int| q < x < p ==> !has_update(us, #[trigger] sts[x].sequence),
    ensures
        carried(r, start, sts, us, p) == passed_delay(r, start + q),
    decreases p,
{
    if p - 1 > q {
        lemma_carried_from(r, start, sts, us, q, p - 1);
        assert(!has_update(us, sts[p - 1].sequence));
    }
}

/// With cascading delays, a stop time of trip `t` that no update names, and
/// that follows a named one with no named stop time between them, takes on,
/// as arrival and departure delay, the delay the named one passes on, where
/// that one passes on a delay.
pub proof fn lemma_cascade_reaches(n: NetworkView, t: int, r: RealtimeView, us: Seq<StopTimeUpdate>, q: int, p: int)
    requires
        0 <= t < n.trips.len(),
        run_fits(n.stop_times, n.trips[t].stop_times),
        r.stop_time_departure_delays.len() == n.stop_times.len(),
        r.stop_time_arrival_delays.len() == n.stop_times.len(),
        0 <= q < p < n.trips[t].stop_times.count,
        has_update(us, run_entries(n.stop_times, n.trips[t].stop_times)[q].sequence),
        forall|x: int|
            q < x <= p ==> !has_update(us, #[trigger] run_entries(n.stop_times, n.trips[t].stop_times)[x].sequence),
        passed_delay(r, n.trips[t].stop_times.start + q).spec_option() is Some,
    ensures
        cascaded(n, t, r, us).stop_time_arrival_delays[n.trips[t].stop_times.start + p] == passed_delay(
            r,
            n.trips[t].stop_times.start + q,
        ),
        cascaded(n, t, r, us).stop_time_departure_delays[n.trips[t].stop_times.start + p] == passed_delay(
            r,
            n.trips[t].stop_times.start + q,
        ),
{
    let run = n.trips[t].stop_times;
    let sts = run_entries(n.stop_times, run);
    lemma_carried_from(r, run.start as int, sts, us, q, p);
    assert(!has_update(us, sts[p].sequence));
    assert(run.start + p - run.start == p);
}

/// One update naming stop time `k` of trip `t`, with a departure delay of
/// `d` seconds, applied where the trip's stop times have increasing sequence
/// numbers: stop time `k` takes `d` as its departure delay and every other
/// stop time keeps its delays; where delays then cascade, every later stop
/// time of the trip takes `d` on as arrival and departure delay, and stop
/// time `k` keeps it.
pub proof fn lemma_single_update(
    n: NetworkView,
    t: int,
    before: RealtimeView,
    su: StopTimeUpdate,
    after: RealtimeView,
    k: int,
    d: i32,
)
    requires
        0 <= t < n.trips.len(),
        run_fits(n.stop_times, n.trips[t].stop_times),
        before.stop_time_departure_delays.len() == n.stop_times.len(),
        before.stop_time_arrival_delays.len() == n.stop_times.len(),
        forall|a: int, b: int|
            0 <= a < b < n.trips[t].stop_times.count ==> (#[trigger] run_entries(n.stop_times, n.trips[t].stop_times)[a]).sequence
                < (#[trigger] run_entries(n.stop_times, n.trips[t].stop_times)[b]).sequence,
        0 <= k < n.trips[t].stop_times.count,
        su.stop_sequence == Some(run_entries(n.stop_times, n.trips[t].stop_times)[k].sequence),
        su.departure matches Some(e) && e.delay == Some(d),
        i16::MIN <= d < i16::MAX,
        stop_time_updates_applied(n, t, before, seq![su], after),
    ensures
        after.stop_time_departure_delays[n.trips[t].stop_times.start + k] == Opt(delay_of(d as int)),
        forall|i: int|
            0 <= i < n.stop_times.len() && i != n.trips[t].stop_times.start + k ==> #[trigger] after.stop_time_departure_delays[i]
                == before.stop_time_departure_delays[i] && after.stop_time_arrival_delays[i] == before.stop_time_arrival_delays[i],
        cascaded(n, t, after, seq![su]).stop_time_departure_delays[n.trips[t].stop_times.start + k] == Opt(
            delay_of(d as int),
        ),
        forall|p: int|
            k < p < n.trips[t].stop_times.count ==> #[trigger] cascaded(n, t, after, seq![su]).stop_time_departure_delays[n.trips[t].stop_times.start + p]
                == Opt(delay_of(d as int)) && cascaded(n, t, after, seq![su]).stop_time_arrival_delays[n.trips[t].stop_times.start
                + p] == Opt(delay_of(d as int)),
{
    let run = n.trips[t].stop_times;
    let sts = run_entries(n.stop_times, run);
    let us = seq![su];
    let key = sts[k].sequence;
    assert(us.drop_last() =~= Seq::<StopTimeUpdate>::empty());
    let mid = choose|mid: RealtimeView|
        stop_time_updates_applied(n, t, before, us.drop_last(), mid) && stop_time_update_applied(n, t, mid, us.last(), after);
    assert(mid == before);
    assert(update_key(su) == key);
    if after == before && (sequence_sorted(sts) ==> forall|p: int| 0 <= p < sts.len() ==> sts[p].sequence != key) {
        assert(sequence_sorted(sts)) by {
            assert forall|a: int, b: int| 0 <= a < b < sts.len() implies sts[a].sequence <= sts[b].sequence by {
                assert(sts[a].sequence < sts[b].sequence);
            }
        }
        assert(sts[k].sequence == key);
    }
    let p0 = if exists|p: int|
        0 <= p < sts.len() && sts[p].sequence == key && after == stop_time_set(before, run.start + p, su, sts[p]) {
        choose|p: int| 0 <= p < sts.len() && sts[p].sequence == key && after == stop_time_set(before, run.start + p, su, sts[p])
    } else {
        k
    };
    assert(after == stop_time_set(before, run.start + p0, su, sts[p0]));
    assert(p0 == k) by {
        if p0 < k {
            assert(sts[p0].sequence < sts[k].sequence);
        } else if p0 > k {
            assert(sts[k].sequence < sts[p0].sequence);
        }
    }
    assert(event_delay(su.departure, sts[k].departure_time) == Opt(delay_of(d as int)));
    assert(has_update(us, key)) by {
        assert(update_key(us[0]) == key);
    }
    assert(passed_delay(after, run.start + k) == Opt(delay_of(d as int)));
    assert(cascaded(n, t, after, us).stop_time_departure_delays[run.start + k] == Opt(delay_of(d as int))) by {
        assert(run.start + k - run.start == k);
    }
    assert forall|p: int| k < p < run.count implies #[trigger] cascaded(n, t, after, us).stop_time_departure_delays[run.start + p]
        == Opt(delay_of(d as int)) && cascaded(n, t, after, us).stop_time_arrival_delays[run.start + p] == Opt(
        delay_of(d as int),
    ) by {
        assert forall|x: int| k < x <= p implies !has_update(us, #[trigger] sts[x].sequence) by {
            if has_update(us, sts[x].sequence) {
                let j = choose|j: int| 0 <= j < us.len() && #[trigger] update_key(us[j]) == sts[x].sequence;
                assert(j == 0);
                assert(sts[k].sequence < sts[x].sequence);
            }
        }
        lemma_cascade_reaches(n, t, after, us, k, p);
    }
}

/// `after` is `before` with trip update `u` applied: to the trip with its
/// identifier, or to none where, the trip lookup being sorted, none has it.
/// Where delays cascade, the trip's stop times that no update names then
/// take on the delay of the last earlier one that an update names.
pub open spec fn trip_update_applied(
    n: NetworkView,
    cascade: bool,
    before: RealtimeView,
    u: Option<TripUpdate>,
    after: RealtimeView,
) -> bool {
    match u {
        None => after == before,
        Some(u) => {
            let id = descriptor_id(u.trip);
            ||| after == before && trip_missing(n, id)
            ||| exists|m: int, mid: RealtimeView|
                #![trigger found_trip(n, id, m), stop_time_updates_applied(n, n.trips_id_lookup[m].0 as int, trip_set(before, n.trips_id_lookup[m].0 as int, u), u.stop_time_update@, mid)]
                found_trip(n, id, m) && stop_time_updates_applied(
                    n,
                    n.trips_id_lookup[m].0 as int,
                    trip_set(before, n.trips_id_lookup[m].0 as int, u),
                    u.stop_time_update@,
                    mid,
                ) && after == (if cascade {
                    cascaded(n, n.trips_id_lookup[m].0 as int, mid, u.stop_time_update@)
                } else {
                    mid
                })
        },
    }
}

/// `after` is `before` with vehicle report `v` applied: a report with a
/// position and a trip sets the vehicle of the trip with its identifier, or
/// of none where, the trip lookup being sorted, none has it.
pub open spec fn vehicle_applied(
    n: NetworkView,
    before: RealtimeView,
    v: Option<VehiclePosition>,
    after: RealtimeView,
) -> bool {
    match v {
        Some(v) => match v.position {
            Some(position) => match v.trip {
                Some(d) => {
                    let id = descriptor_id(d);
                    ||| after == before && trip_missing(n, id)
                    ||| exists|m: int|
                        found_trip(n, id, m) && after == vehicle_set(
                            before,
                            n.trips_id_lookup[m].0 as int,
                            vehicle_of(v, position),
                        )
                },
                None => after == before,
            },
            None => after == before,
        },
        None => after == before,
    }
}

/// `after` is `before` with entity `e` applied: its trip update, then its
/// vehicle report.
pub open spec fn entity_applied(n: NetworkView, cascade: bool, before: RealtimeView, e: FeedEntity, after: RealtimeView) -> bool {
    exists|mid: RealtimeView|
        trip_update_applied(n, cascade, before, e.trip_update, mid) && vehicle_applied(n, mid, e.vehicle, after)
}

/// `after` is `before` with the entities `es` applied in order.
pub open spec fn entities_applied(
    n: NetworkView,
    cascade: bool,
    before: RealtimeView,
    es: Seq<FeedEntity>,
    after: RealtimeView,
) -> bool
    decreases es.len(),
{
    if es.len() == 0 {
        after == before
    } else {
        exists|mid: RealtimeView|
            entities_applied(n, cascade, before, es.drop_last(), mid) && entity_applied(
                n,
                cascade,
                mid,
                es.last(),
                after,
            )
    }
}

/// The entities of the messages, message by message.
pub open spec fn all_entities(ms: Seq<FeedMessage>) -> Seq<FeedEntity>
    decreases ms.len(),
{
    if ms.len() == 0 {
        Seq::empty()
    } else {
        all_entities(ms.drop_last()) + ms.last().entity@
    }
}

/// The time of day of `t` seconds since the epoch.
fn day_time_of(t: i64) -> (r: Time)
    ensures
        r == day_time(t),
{
    if t >= 0 {
        Time((t % 86400) as u32)
    } else {
        let neg: u64 = (0 - (t + 1)) as u64 + 1;
        if neg % 86400 == 0 {
            Time(0)
        } else {
            Time::none()
        }
    }
}

/// The delay that a predicted event gives against the scheduled time.
fn event_delay_of(ev: &Option<StopTimeEvent>, scheduled: Opt<Time>) -> (r: Opt<Delay>)
    ensures
        r == event_delay(*ev, scheduled),
{
    match ev {
        None => Opt::new(Delay::none()),
        Some(e) => match e.delay {
            Some(d) => Opt::new(Delay::from_i32(d)),
            None => match e.time {
                Some(t) => {
                    if scheduled.is_some() {
                        let new_time = day_time_of(t);
                        Opt::new(Delay::from_i64(new_time.0 as i64 - scheduled.0.0 as i64))
                    } else {
                        Opt::new(Delay::none())
                    }
                },
                None => Opt::new(Delay::none()),
            },
        },
    }
}

/// Finds a stop time with sequence number `key`, by halving; where the stop
/// times are in order of sequence, none is missed.
fn search_sequence(sts: &[StopTime], key: u32) -> (r: Option<usize>)
    ensures
        match r {
            Some(p) => p < sts@.len() && sts@[p as int].sequence == key,
            None => sequence_sorted(sts@) ==> forall|p: int| 0 <= p < sts@.len() ==> sts@[p].sequence != key,
        },
{
    let mut lo: usize = 0;
    let mut hi: usize = sts.len();
    while lo < hi
        invariant
            lo <= hi <= sts@.len(),
            sequence_sorted(sts@) ==> forall|p: int| 0 <= p < lo ==> sts@[p].sequence < key,
            sequence_sorted(sts@) ==> forall|p: int| hi <= p < sts@.len() ==> sts@[p].sequence > key,
        decreases hi - lo,
    {
        let mid = lo + (hi - lo) / 2;
        let s = sts[mid].sequence;
        if s == key {
            return Some(mid);
        } else if s < key {
            lo = mid + 1;
        } else {
            hi = mid;
        }
    }
    None
}

/// Lays realtime feed messages over a network.
pub struct RealtimeBuilder<'a> {
    consumer: &'a Consumer,
    cascade_delay: bool,
}

impl<'a> RealtimeBuilder<'a> {
    /// The network the messages are laid over.
    pub closed spec fn network(&self) -> NetworkView {
        self.consumer@
    }

    /// Whether delays are to cascade along a trip.
    pub closed spec fn cascades(&self) -> bool {
        self.cascade_delay
    }

    /// A builder over `consumer`, with cascading delays.
    pub fn new(consumer: &'a Consumer) -> (r: Self)
        ensures
            r.network() == consumer@,
            r.cascades(),
    {
        RealtimeBuilder { consumer, cascade_delay: true }
    }

    /// The builder with cascading delays on or off.
    pub fn with_cascading_delays(self, value: bool) -> (r: Self)
        ensures
            r.network() == self.network(),
            r.cascades() == value,
    {
        RealtimeBuilder { consumer: self.consumer, cascade_delay: value }
    }

    /// Applies stop time update `u` to trip `t`.
    fn apply_stop_time_update(&self, t: usize, u: &StopTimeUpdate, realtime: &mut Realtime)
        requires
            queryable(self.network()),
            t < self.network().trips.len(),
            sized(old(realtime)@, self.network().stop_times.len(), self.network().trips.len()),
        ensures
            sized(final(realtime)@, self.network().stop_times.len(), self.network().trips.len()),
            stop_time_update_applied(self.network(), t as int, old(realtime)@, *u, final(realtime)@),
    {
        let ghost n = self.network();
        let run = self.consumer.trips[t].stop_times;
        proof {
            assert(run_fits(n.stop_times, n.trips[t as int].stop_times));
        }
        let sts = self.consumer.stop_times_by_trip(TripIdx(t as u32));
        let total = self.consumer.stop_times.len();
        proof {
            assert(sts@.len() == run.count);
            assert(run.start + run.count <= total);
        }
        let key = match u.stop_sequence {
            Some(s) => s,
            None => u32::MAX,
        };
        match search_sequence(sts, key) {
            Some(p) => {
                let i = run.start as usize + p;
                let st = self.consumer.stop_times[i];
                let status = match u.schedule_relationship {
                    Some(rel) => StopTimeStatus::from(rel),
                    None => StopTimeStatus::Scheduled,
                };
                realtime.stop_time_status.set(i, status);
                realtime.stop_time_departure_delays.set(i, event_delay_of(&u.departure, st.departure_time));
                realtime.stop_time_arrival_delays.set(i, event_delay_of(&u.arrival, st.arrival_time));
                proof {
                    assert(sts@[p as int] == st);
                    assert(realtime@ == stop_time_set(old(realtime)@, run.start + p, *u, st));
                }
            },
            None => {},
        }
    }

    /// Cascades the delays of trip `t` along its stop times: each stop time
    /// that no update of `us` names takes on, as arrival and departure delay,
    /// the delay passed on by the last earlier stop time that one names.
    fn cascade(&self, t: usize, us: &Vec<StopTimeUpdate>, realtime: &mut Realtime)
        requires
            queryable(self.network()),
            t < self.network().trips.len(),
            sized(old(realtime)@, self.network().stop_times.len(), self.network().trips.len()),
        ensures
            sized(final(realtime)@, self.network().stop_times.len(), self.network().trips.len()),
            final(realtime)@ == cascaded(self.network(), t as int, old(realtime)@, us@),
    {
        let ghost n = self.network();
        let ghost r0 = realtime@;
        let run = self.consumer.trips[t].stop_times;
        proof {
            assert(run_fits(n.stop_times, n.trips[t as int].stop_times));
        }
        let sts = self.consumer.stop_times_by_trip(TripIdx(t as u32));
        let ghost start = run.start as int;
        let mut carry: Opt<Delay> = Opt::none();
        let mut p: usize = 0;
        let _total = self.consumer.stop_times.len();
        proof {
            assert(self.consumer.stop_times@.len() == n.stop_times.len());
            let c0 = cascade_upto(n, t as int, r0, us@, 0);
            assert(c0.stop_time_departure_delays =~= r0.stop_time_departure_delays);
            assert(c0.stop_time_arrival_delays =~= r0.stop_time_arrival_delays);
            assert(c0 =~= r0);
        }
        while p < sts.len()
            invariant
                n == self.network(),
                t < n.trips.len(),
                n.stop_times.len() <= usize::MAX,
                run == n.trips[t as int].stop_times,
                sts@ == run_entries(n.stop_times, run),
                sts@.len() == run.count,
                run.start + run.count <= n.stop_times.len(),
                start == run.start,
                sized(r0, n.stop_times.len(), n.trips.len()),
                p <= sts@.len(),
                realtime@ == cascade_upto(n, t as int, r0, us@, p as int),
                carry == carried(r0, start, sts@, us@, p as int),
            decreases sts@.len() - p,
        {
            let i = run.start as usize + p;
            let key = sts[p].sequence;
            let mut named = false;
            let mut k: usize = 0;
            while k < us.len()
                invariant
                    k <= us@.len(),
                    named <==> exists|q: int| 0 <= q < k && #[trigger] update_key(us@[q]) == key,
                decreases us@.len() - k,
            {
                let uk = match us[k].stop_sequence {
                    Some(s) => s,
                    None => u32::MAX,
                };
                if uk == key {
                    named = true;
                }
                proof {
                    assert(update_key(us@[k as int]) == uk);
                }
                k = k + 1;
            }
            let ghost before = realtime@;
            proof {
                assert(named == has_update(us@, sts@[p as int].sequence));
                assert(before.stop_time_departure_delays[i as int] == r0.stop_time_departure_delays[i as int]);
                assert(before.stop_time_arrival_delays[i as int] == r0.stop_time_arrival_delays[i as int]);
            }
            if named {
                let dep = realtime.stop_time_departure_delays[i];
                carry = match dep.get() {
                    Some(_) => dep,
                    None => realtime.stop_time_arrival_delays[i],
                };
            } else {
                match carry.get() {
                    Some(_) => {
                        realtime.stop_time_departure_delays.set(i, carry);
                        realtime.stop_time_arrival_delays.set(i, carry);
                    },
                    None => {},
                }
            }
            proof {
                let r1 = cascade_upto(n, t as int, r0, us@, p + 1);
                assert(realtime@.stop_time_departure_delays =~= r1.stop_time_departure_delays);
                assert(realtime@.stop_time_arrival_delays =~= r1.stop_time_arrival_delays);
                assert(realtime@ == r1);
                assert(carry == carried(r0, start, sts@, us@, p + 1));
            }
            p = p + 1;
        }
    }

    /// Applies trip update `u`.
    fn apply_trip_update(&self, u: &TripUpdate, realtime: &mut Realtime)
        requires
            queryable(self.network()),
            sized(old(realtime)@, self.network().stop_times.len(), self.network().trips.len()),
        ensures
            sized(final(realtime)@, self.network().stop_times.len(), self.network().trips.len()),
            trip_update_applied(self.network(), self.cascades(), old(realtime)@, Some(*u), final(realtime)@),
    {
        let ghost n = self.network();
        let id = trip_id_of(&u.trip);
        match self.consumer.trip_by_id(id) {
            None => {},
            Some(trip) => {
                let ghost m = choose|m: int|
                    0 <= m < n.trips_id_lookup.len() && *trip == n.trips[n.trips_id_lookup[m].0 as int] && key_at(
                        n.trips,
                        n.trips_id_lookup,
                        n.trip_ids,
                        m,
                    ) == id.spec_bytes();
                let t = trip.idx.0 as usize;
                proof {
                    assert(n.trips_id_lookup[m].0 < n.trips.len());
                    assert(t == n.trips_id_lookup[m].0);
                }
                let status = match u.trip.schedule_relationship {
                    Some(rel) => TripStatus::from(rel),
                    None => TripStatus::Unchanged,
                };
                let delay = match u.delay {
                    Some(d) => d,
                    None => 0,
                };
                realtime.trip_status.set(t, status);
                realtime.trip_delay.set(t, Opt::new(Delay::from_i32(delay)));
                let ghost start = realtime@;
                proof {
                    assert(start == trip_set(old(realtime)@, t as int, *u));
                    assert(u.stop_time_update@.take(0) =~= Seq::<StopTimeUpdate>::empty());
                }
                let mut k: usize = 0;
                while k < u.stop_time_update.len()
                    invariant
                        queryable(n),
                        n == self.network(),
                        t < n.trips.len(),
                        k <= u.stop_time_update@.len(),
                        sized(realtime@, n.stop_times.len(), n.trips.len()),
                        stop_time_updates_applied(n, t as int, start, u.stop_time_update@.take(k as int), realtime@),
                    decreases u.stop_time_update@.len() - k,
                {
                    let ghost before = realtime@;
                    self.apply_stop_time_update(t, &u.stop_time_update[k], realtime);
                    proof {
                        let us = u.stop_time_update@.take(k + 1);
                        assert(us.drop_last() =~= u.stop_time_update@.take(k as int));
                        assert(us.last() == u.stop_time_update@[k as int]);
                        assert(stop_time_updates_applied(n, t as int, start, us.drop_last(), before));
                        assert(stop_time_update_applied(n, t as int, before, us.last(), realtime@));
                    }
                    k = k + 1;
                }
                proof {
                    assert(u.stop_time_update@.take(k as int) =~= u.stop_time_update@);
                    assert(found_trip(n, descriptor_id(u.trip), m));
                }
                let ghost mid = realtime@;
                if self.cascade_delay {
                    self.cascade(t, &u.stop_time_update, realtime);
                }
                proof {
                    assert(stop_time_updates_applied(n, t as int, start, u.stop_time_update@, mid));
                    assert(realtime@ == (if self.cascades() {
                        cascaded(n, t as int, mid, u.stop_time_update@)
                    } else {
                        mid
                    }));
                }
            },
        }
    }

    /// Applies vehicle report `v`.
    fn apply_vehicle(&self, v: &VehiclePosition, realtime: &mut Realtime)
        requires
            queryable(self.network()),
            sized(old(realtime)@, self.network().stop_times.len(), self.network().trips.len()),
        ensures
            sized(final(realtime)@, self.network().stop_times.len(), self.network().trips.len()),
            vehicle_applied(self.network(), old(realtime)@, Some(*v), final(realtime)@),
    {
        let ghost n = self.network();
        match (&v.position, &v.trip) {
            (Some(position), Some(d)) => {
                let id = trip_id_of(d);
                match self.consumer.trip_by_id(id) {
                    None => {},
                    Some(trip) => {
                        let ghost m = choose|m: int|
                            0 <= m < n.trips_id_lookup.len() && *trip == n.trips[n.trips_id_lookup[m].0 as int]
                                && key_at(n.trips, n.trips_id_lookup, n.trip_ids, m) == id.spec_bytes();
                        let t = trip.idx.0 as usize;
                        proof {
                            assert(n.trips_id_lookup[m].0 < n.trips.len());
                            assert(t == n.trips_id_lookup[m].0);
                        }
                        let vehicle = Vehicle {
                            position: *position,
                            current_status: match v.current_status {
                                Some(s) => s,
                                None => VehicleStopStatus::InTransitTo,
                            },
                            occupancy_status: match v.occupancy_status {
                                Some(s) => s,
                                None => OccupancyStatus::Empty,
                            },
                            occupancy_percentage: v.occupancy_percentage,
                            current_stop_sequence: v.current_stop_sequence,
                        };
                        realtime.trip_vehicles.set(t, Some(vehicle));
                        proof {
                            assert(found_trip(n, descriptor_id(*d), m));
                            assert(realtime@ == vehicle_set(old(realtime)@, t as int, vehicle_of(*v, *position)));
                        }
                    },
                }
            },
            _ => {},
        }
    }

    /// Applies entity `e`: its trip update, then its vehicle report.
    pub fn apply_entity(&self, e: &FeedEntity, realtime: &mut Realtime)
        requires
            queryable(self.network()),
            sized(old(realtime)@, self.network().stop_times.len(), self.network().trips.len()),
        ensures
            sized(final(realtime)@, self.network().stop_times.len(), self.network().trips.len()),
            entity_applied(self.network(), self.cascades(), old(realtime)@, *e, final(realtime)@),
    {
        if let Some(u) = &e.trip_update {
            self.apply_trip_update(u, realtime);
        }
        let ghost mid = realtime@;
        if let Some(v) = &e.vehicle {
            self.apply_vehicle(v, realtime);
        }
        proof {
            assert(trip_update_applied(self.network(), self.cascades(), old(realtime)@, e.trip_update, mid));
            assert(vehicle_applied(self.network(), mid, e.vehicle, realtime@));
        }
    }

    /// Applies the entities of `messages`, in order.
    pub fn apply(self, messages: &[FeedMessage], realtime: &mut Realtime)
        requires
            queryable(self.network()),
            sized(old(realtime)@, self.network().stop_times.len(), self.network().trips.len()),
        ensures
            sized(final(realtime)@, self.network().stop_times.len(), self.network().trips.len()),
            entities_applied(self.network(), self.cascades(), old(realtime)@, all_entities(messages@), final(realtime)@),
    {
        let ghost n = self.network();
        let ghost start = realtime@;
        proof {
            assert(messages@.take(0) =~= Seq::<FeedMessage>::empty());
            assert(all_entities(messages@.take(0)) =~= Seq::<FeedEntity>::empty());
        }
        let mut i: usize = 0;
        while i < messages.len()
            invariant
                n == self.network(),
                queryable(n),
                i <= messages@.len(),
                sized(realtime@, n.stop_times.len(), n.trips.len()),
                entities_applied(n, self.cascades(), start, all_entities(messages@.take(i as int)), realtime@),
            decreases messages@.len() - i,
        {
            let entities = &messages[i].entity;
            let ghost done = all_entities(messages@.take(i as int));
            proof {
                let ms = messages@.take(i + 1);
                assert(ms.drop_last() =~= messages@.take(i as int));
                assert(ms.last() == messages@[i as int]);
                assert(done + entities@.take(0) =~= done);
            }
            let mut k: usize = 0;
            while k < entities.len()
                invariant
                    n == self.network(),
                    queryable(n),
                    k <= entities@.len(),
                    sized(realtime@, n.stop_times.len(), n.trips.len()),
                    entities_applied(n, self.cascades(), start, done + entities@.take(k as int), realtime@),
                decreases entities@.len() - k,
            {
                let ghost before = realtime@;
                self.apply_entity(&entities[k], realtime);
                proof {
                    let es = done + entities@.take(k + 1);
                    assert(es.drop_last() =~= done + entities@.take(k as int));
                    assert(es.last() == entities@[k as int]);
                    assert(entities_applied(n, self.cascades(), start, es.drop_last(), before));
                    assert(entity_applied(n, self.cascades(), before, es.last(), realtime@));
                }
                k = k + 1;
            }
            proof {
                assert(entities@.take(k as int) =~= entities@);
                assert(all_entities(messages@.take(i + 1)) == done + entities@);
            }
            i = i + 1;
        }
        proof {
            assert(messages@.take(i as int) =~= messages@);
        }
    }

    /// The realtime state of the network after the entities of `messages`,
    /// in order.
    pub fn build(self, messages: &[FeedMessage]) -> (r: Realtime)
        requires
            queryable(self.network()),
        ensures
            entities_applied(
                self.network(),
                self.cascades(),
                initial_realtime(self.network().stop_times.len(), self.network().trips.len()),
                all_entities(messages@),
                r@,
            ),
    {
        let mut realtime = Realtime::new(self.consumer);
        self.apply(messages, &mut realtime);
        realtime
    }
}

} // verus!
