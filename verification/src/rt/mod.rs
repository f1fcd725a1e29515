//! Realtime state laid over a compiled network: the status and delays of
//! trips and stop times, and where vehicles are.

use vstd::prelude::*;

use crate::consumer::Consumer;
use crate::models::coordinate::Coordinate;
use crate::models::opt::Opt;
use crate::models::sentinel::Sentinel;
use crate::models::time::Delay;

pub mod builder;
pub mod feed;

pub use builder::RealtimeBuilder;
use feed::{OccupancyStatus, StopTimeScheduleRelationship, TripScheduleRelationship, VehicleStopStatus};

verus! {

/// What realtime data says of a trip.
#[derive(Debug, Clone, Copy, PartialEq, Eq, Structural)]
pub enum TripStatus {
    /// Runs as scheduled.
    Unchanged,
    /// An extra trip.
    Added,
    /// Does not run.
    Cancled,
    /// Removed from the schedule.
    Deleted,
    /// Runs without a schedule.
    Unscheduled,
}

impl Default for TripStatus {
    fn default() -> (r: Self)
        ensures
            r == TripStatus::Unchanged,
    {
        TripStatus::Unchanged
    }
}

impl From<TripScheduleRelationship> for TripStatus {
    fn from(value: TripScheduleRelationship) -> (r: Self) {
        match value {
            TripScheduleRelationship::Added => TripStatus::Added,
            TripScheduleRelationship::Unscheduled => TripStatus::Unscheduled,
            TripScheduleRelationship::Canceled => TripStatus::Cancled,
            TripScheduleRelationship::Deleted => TripStatus::Deleted,
            _ => TripStatus::Unchanged,
        }
    }
}

impl vstd::std_specs::convert::FromSpecImpl<TripScheduleRelationship> for TripStatus {
    open spec fn obeys_from_spec() -> bool {
        true
    }

    open spec fn from_spec(v: TripScheduleRelationship) -> Self {
        trip_status_of(v)
    }
}

/// Added, unscheduled, canceled and deleted trips keep that status; any
/// other relationship leaves the trip unchanged.
pub open spec fn trip_status_of(v: TripScheduleRelationship) -> TripStatus {
    match v {
        TripScheduleRelationship::Added => TripStatus::Added,
        TripScheduleRelationship::Unscheduled => TripStatus::Unscheduled,
        TripScheduleRelationship::Canceled => TripStatus::Cancled,
        TripScheduleRelationship::Deleted => TripStatus::Deleted,
        _ => TripStatus::Unchanged,
    }
}

/// What realtime data says of a stop time.
#[derive(Debug, Clone, Copy, PartialEq, Eq, Structural)]
pub enum StopTimeStatus {
    /// No update.
    Unchanged,
    /// The vehicle calls as scheduled.
    Scheduled,
    /// The stop is skipped.
    Skipped,
    /// No realtime data.
    NoData,
    /// Runs without a schedule.
    Unscheduled,
}

impl Default for StopTimeStatus {
    fn default() -> (r: Self)
        ensures
            r == StopTimeStatus::Unchanged,
    {
        StopTimeStatus::Unchanged
    }
}

impl From<StopTimeScheduleRelationship> for StopTimeStatus {
    fn from(value: StopTimeScheduleRelationship) -> (r: Self) {
        match value {
            StopTimeScheduleRelationship::Scheduled => StopTimeStatus::Scheduled,
            StopTimeScheduleRelationship::Skipped => StopTimeStatus::Skipped,
            StopTimeScheduleRelationship::NoData => StopTimeStatus::NoData,
            StopTimeScheduleRelationship::Unscheduled => StopTimeStatus::Unscheduled,
        }
    }
}

impl vstd::std_specs::convert::FromSpecImpl<StopTimeScheduleRelationship> for StopTimeStatus {
    open spec fn obeys_from_spec() -> bool {
        true
    }

    open spec fn from_spec(v: StopTimeScheduleRelationship) -> Self {
        stop_time_status_of(v)
    }
}

/// Each relationship becomes the status of the same name.
pub open spec fn stop_time_status_of(v: StopTimeScheduleRelationship) -> StopTimeStatus {
    match v {
        StopTimeScheduleRelationship::Scheduled => StopTimeStatus::Scheduled,
        StopTimeScheduleRelationship::Skipped => StopTimeStatus::Skipped,
        StopTimeScheduleRelationship::NoData => StopTimeStatus::NoData,
        StopTimeScheduleRelationship::Unscheduled => StopTimeStatus::Unscheduled,
    }
}

/// Where a vehicle is and how full it is.
#[derive(Debug, Clone, Copy)]
pub struct Vehicle {
    /// Its position.
    pub position: Coordinate,
    /// Where it is relative to its current stop.
    pub current_status: VehicleStopStatus,
    /// How full it is.
    pub occupancy_status: OccupancyStatus,
    /// How full it is, in percent.
    pub occupancy_percentage: Option<u32>,
    /// The sequence number of its current stop.
    pub current_stop_sequence: Option<u32>,
}

/// The realtime state, entry by entry.
pub struct RealtimeView {
    pub stop_time_departure_delays: Seq<Opt<Delay>>,
    pub stop_time_arrival_delays: Seq<Opt<Delay>>,
    pub stop_time_status: Seq<StopTimeStatus>,
    pub trip_status: Seq<TripStatus>,
    pub trip_delay: Seq<Opt<Delay>>,
    pub trip_vehicles: Seq<Option<Vehicle>>,
}

/// The realtime state of a network: one entry per stop time and per trip.
pub struct Realtime {
    /// The departure delay of each stop time.
    pub stop_time_departure_delays: Vec<Opt<Delay>>,
    /// The arrival delay of each stop time.
    pub stop_time_arrival_delays: Vec<Opt<Delay>>,
    /// The status of each stop time.
    pub stop_time_status: Vec<StopTimeStatus>,
    /// The status of each trip.
    pub trip_status: Vec<TripStatus>,
    /// The delay of each trip.
    pub trip_delay: Vec<Opt<Delay>>,
    /// The vehicle serving each trip.
    pub trip_vehicles: Vec<Option<Vehicle>>,
}

impl View for Realtime {
    type V = RealtimeView;

    open spec fn view(&self) -> RealtimeView {
        RealtimeView {
            stop_time_departure_delays: self.stop_time_departure_delays@,
            stop_time_arrival_delays: self.stop_time_arrival_delays@,
            stop_time_status: self.stop_time_status@,
            trip_status: self.trip_status@,
            trip_delay: self.trip_delay@,
            trip_vehicles: self.trip_vehicles@,
        }
    }
}

/// The state of a network with `stop_times` stop times and `trips` trips
/// before any update: no delays, nothing changed, no vehicles.
pub open spec fn initial_realtime(stop_times: nat, trips: nat) -> RealtimeView {
    RealtimeView {
        stop_time_departure_delays: Seq::new(stop_times, |i: int| Opt(Delay::spec_none())),
        stop_time_arrival_delays: Seq::new(stop_times, |i: int| Opt(Delay::spec_none())),
        stop_time_status: Seq::new(stop_times, |i: int| StopTimeStatus::Unchanged),
        trip_status: Seq::new(trips, |i: int| TripStatus::Unchanged),
        trip_delay: Seq::new(trips, |i: int| Opt(Delay::spec_none())),
        trip_vehicles: Seq::new(trips, |i: int| None::<Vehicle>),
    }
}

/// The state has one entry per stop time and per trip.
pub open spec fn sized(r: RealtimeView, stop_times: nat, trips: nat) -> bool {
    &&& r.stop_time_departure_delays.len() == stop_times
    &&& r.stop_time_arrival_delays.len() == stop_times
    &&& r.stop_time_status.len() == stop_times
    &&& r.trip_status.len() == trips
    &&& r.trip_delay.len() == trips
    &&& r.trip_vehicles.len() == trips
}

/// `n` copies of `value`.
fn filled<T: Copy>(value: T, n: usize) -> (r: Vec<T>)
    ensures
        r@ == Seq::new(n as nat, |i: int| value),
{
    let mut v: Vec<T> = Vec::new();
    let mut i: usize = 0;
    while i < n
        invariant
            i <= n,
            v@ == Seq::new(i as nat, |j: int| value),
        decreases n - i,
    {
        v.push(value);
        proof {
            assert(v@ =~= Seq::new((i + 1) as nat, |j: int| value));
        }
        i = i + 1;
    }
    v
}

impl Realtime {
    /// The state of `consumer` before any update.
    pub fn new(consumer: &Consumer) -> (r: Self)
        ensures
            r@ == initial_realtime(consumer.stop_times@.len(), consumer.trips@.len()),
    {
        let stop_times = consumer.stop_times.len();
        let trips = consumer.trips.len();
        let none_delay = Opt::new(Delay::none());
        Realtime {
            stop_time_departure_delays: filled(none_delay, stop_times),
            stop_time_arrival_delays: filled(none_delay, stop_times),
            stop_time_status: filled(StopTimeStatus::Unchanged, stop_times),
            trip_status: filled(TripStatus::Unchanged, trips),
            trip_vehicles: filled(None, trips),
            trip_delay: filled(none_delay, trips),
        }
    }
}

} // verus!
