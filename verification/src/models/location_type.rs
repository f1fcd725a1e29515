use vstd::prelude::*;

use crate::models::sentinel::Sentinel;

verus! {

/// The kind of a location in the stops table; `u8::MAX` is reserved for
/// "unknown".
#[derive(Debug, Clone, Copy, PartialEq, Eq, Structural, Hash, PartialOrd, Ord)]
pub struct LocationType(pub u8);

/// The location types a GTFS feed can name.
#[derive(Debug, Clone, Copy, PartialEq, Eq, Structural)]
pub enum GtfsLocationType {
    StopPoint,
    StopArea,
    StationEntrance,
    GenericNode,
    BoardingArea,
    Unknown(i16),
}

/// The stored code of a GTFS location type.
pub open spec fn location_code(value: GtfsLocationType) -> u8 {
    match value {
        GtfsLocationType::StopPoint => 0,
        GtfsLocationType::StopArea => 1,
        GtfsLocationType::StationEntrance => 2,
        GtfsLocationType::GenericNode => 3,
        GtfsLocationType::BoardingArea => 4,
        GtfsLocationType::Unknown(_) => 255,
    }
}

impl Sentinel for LocationType {
    open spec fn spec_none() -> Self {
        LocationType(255)
    }

    fn none() -> (r: Self) {
        LocationType(255)
    }

    fn is_none(self) -> (b: bool) {
        self.0 == 255
    }

    fn is_some(self) -> (b: bool) {
        self.0 != 255
    }

    fn as_option(self) -> (o: Option<Self>) {
        if self.0 == 255 {
            None
        } else {
            Some(self)
        }
    }
}

impl Default for LocationType {
    fn default() -> (r: Self)
        ensures
            r.0 == 255,
    {
        LocationType(255)
    }
}

impl LocationType {
    /// A stop or platform.
    pub fn stop_point() -> (r: Self)
        ensures
            r.0 == 0,
    {
        LocationType(0)
    }

    /// A station.
    pub fn stop_area() -> (r: Self)
        ensures
            r.0 == 1,
    {
        LocationType(1)
    }

    /// An entrance or exit of a station.
    pub fn station_entrance() -> (r: Self)
        ensures
            r.0 == 2,
    {
        LocationType(2)
    }

    /// A generic node within a station.
    pub fn generic_node() -> (r: Self)
        ensures
            r.0 == 3,
    {
        LocationType(3)
    }

    /// A boarding area of a platform.
    pub fn boarding_area() -> (r: Self)
        ensures
            r.0 == 4,
    {
        LocationType(4)
    }

    /// The stored code of a GTFS location type.
    pub fn from_gtfs(value: GtfsLocationType) -> (r: Self)
        ensures
            r.0 == location_code(value),
    {
        match value {
            GtfsLocationType::StopPoint => LocationType(0),
            GtfsLocationType::StopArea => LocationType(1),
            GtfsLocationType::StationEntrance => LocationType(2),
            GtfsLocationType::GenericNode => LocationType(3),
            GtfsLocationType::BoardingArea => LocationType(4),
            GtfsLocationType::Unknown(_) => LocationType(255),
        }
    }
}

/// Each named GTFS location type is stored as its GTFS code: stop point 0,
/// station 1, station entrance 2, generic node 3, boarding area 4; so two
/// named types are stored alike only where they are the same type, and any
/// other code is stored as the reserved "unknown", which no named type is.
pub proof fn lemma_location_codes(a: GtfsLocationType, b: GtfsLocationType, other: i16)
    ensures
        location_code(GtfsLocationType::StopPoint) == 0,
        location_code(GtfsLocationType::StopArea) == 1,
        location_code(GtfsLocationType::StationEntrance) == 2,
        location_code(GtfsLocationType::GenericNode) == 3,
        location_code(GtfsLocationType::BoardingArea) == 4,
        location_code(GtfsLocationType::Unknown(other)) == LocationType::spec_none().0,
        !(a is Unknown) ==> location_code(a) < 5,
        !(a is Unknown) && !(b is Unknown) && location_code(a) == location_code(b) ==> a == b,
{
}

} // verus!
