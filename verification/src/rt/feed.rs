//! The parts of a GTFS Realtime feed message that updates are read from.

use vstd::prelude::*;

use crate::models::coordinate::Coordinate;

verus! {

/// How a trip relates to the schedule.
#[derive(Debug, Clone, Copy, PartialEq, Eq, Structural)]
pub enum TripScheduleRelationship {
    /// Runs as scheduled.
    Scheduled,
    /// An extra trip.
    Added,
    /// Runs without a schedule.
    Unscheduled,
    /// Does not run.
    Canceled,
    /// Replaces the scheduled trip.
    Replacement,
    /// A copy of a scheduled trip at another time.
    Duplicated,
    /// Removed from the schedule.
    Deleted,
}

/// How a stop time relates to the schedule.
#[derive(Debug, Clone, Copy, PartialEq, Eq, Structural)]
pub enum StopTimeScheduleRelationship {
    /// The vehicle calls as scheduled.
    Scheduled,
    /// The stop is skipped.
    Skipped,
    /// No realtime data for this stop.
    NoData,
    /// Runs without a schedule.
    Unscheduled,
}

/// Where a vehicle is relative to its current stop.
#[derive(Debug, Clone, Copy, PartialEq, Eq, Structural)]
pub enum VehicleStopStatus {
    /// About to arrive.
    IncomingAt,
    /// Standing at the stop.
    StoppedAt,
    /// On the way to the stop.
    InTransitTo,
}

/// How full a vehicle is.
#[derive(Debug, Clone, Copy, PartialEq, Eq, Structural)]
pub enum OccupancyStatus {
    /// No passengers.
    Empty,
    /// Many seats free.
    ManySeatsAvailable,
    /// Few seats free.
    FewSeatsAvailable,
    /// Standing room only.
    StandingRoomOnly,
    /// Crowded standing room only.
    CrushedStandingRoomOnly,
    /// Full.
    Full,
    /// Takes no more passengers.
    NotAcceptingPassengers,
    /// Unknown.
    NoDataAvailable,
    /// Cannot be boarded.
    NotBoardable,
}

/// Which trip an update is about.
pub struct TripDescriptor {
    /// The trip's identifier.
    pub trip_id: Option<String>,
    /// How the trip relates to the schedule; scheduled where absent.
    pub schedule_relationship: Option<TripScheduleRelationship>,
}

/// A predicted arrival or departure.
#[derive(Debug, Clone, Copy)]
pub struct StopTimeEvent {
    /// Seconds late, negative where early.
    pub delay: Option<i32>,
    /// The predicted time, in seconds since the epoch.
    pub time: Option<i64>,
}

/// An update of one stop time of a trip.
pub struct StopTimeUpdate {
    /// The sequence number of the stop time.
    pub stop_sequence: Option<u32>,
    /// The predicted arrival.
    pub arrival: Option<StopTimeEvent>,
    /// The predicted departure.
    pub departure: Option<StopTimeEvent>,
    /// How the stop time relates to the schedule; scheduled where absent.
    pub schedule_relationship: Option<StopTimeScheduleRelationship>,
}

/// An update of a trip.
pub struct TripUpdate {
    /// The trip.
    pub trip: TripDescriptor,
    /// Seconds the whole trip is late.
    pub delay: Option<i32>,
    /// Updates of its stop times.
    pub stop_time_update: Vec<StopTimeUpdate>,
}

/// The position of a vehicle.
pub struct VehiclePosition {
    /// The trip it serves.
    pub trip: Option<TripDescriptor>,
    /// Where it is.
    pub position: Option<Coordinate>,
    /// The sequence number of its current stop.
    pub current_stop_sequence: Option<u32>,
    /// Where it is relative to its current stop; in transit where absent.
    pub current_status: Option<VehicleStopStatus>,
    /// How full it is; empty where absent.
    pub occupancy_status: Option<OccupancyStatus>,
    /// How full it is, in percent.
    pub occupancy_percentage: Option<u32>,
}

/// One entity of a feed message.
pub struct FeedEntity {
    /// An update of a trip.
    pub trip_update: Option<TripUpdate>,
    /// The position of a vehicle.
    pub vehicle: Option<VehiclePosition>,
}

/// A feed message.
pub struct FeedMessage {
    /// Its entities, in order.
    pub entity: Vec<FeedEntity>,
}

/// The identifier bytes of a trip descriptor; empty where absent.
pub open spec fn descriptor_id(d: TripDescriptor) -> Seq<u8> {
    match d.trip_id {
        Some(s) => vstd::utf8::encode_utf8(s@),
        None => Seq::empty(),
    }
}

/// The identifier of a trip descriptor; empty where absent.
pub fn trip_id_of(d: &TripDescriptor) -> (r: &str)
    ensures
        vstd::utf8::encode_utf8(r@) == descriptor_id(*d),
{
    match &d.trip_id {
        Some(s) => s.as_str(),
        None => {
            let e = "";
            proof {
                reveal_strlit("");
                assert(e@ =~= Seq::<char>::empty());
                assert(vstd::utf8::encode_utf8(Seq::<char>::empty()) =~= Seq::<u8>::empty());
            }
            e
        },
    }
}

} // verus!
