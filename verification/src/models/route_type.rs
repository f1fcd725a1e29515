use vstd::prelude::*;

use crate::models::sentinel::Sentinel;

verus! {

/// A set of modes of transport, one bit per mode.
#[derive(Debug, Clone, Copy, PartialEq, Eq, Structural, Hash, PartialOrd, Ord)]
pub struct RouteType(pub u16);

/// The route types a GTFS feed can name.
#[derive(Debug, Clone, Copy, PartialEq, Eq, Structural)]
pub enum GtfsRouteType {
    Tramway,
    Subway,
    Rail,
    Bus,
    Ferry,
    CableCar,
    Gondola,
    Funicular,
    Coach,
    Air,
    Taxi,
    /// Any other code, extended route types included.
    Other(i16),
}

/// The mode flags of an extended or unknown route type code, by Google's
/// table of extended route types; 0 for a code outside it.
pub open spec fn extended_route_bits(code: i16) -> u16 {
    if (100 <= code <= 199) || (300 <= code <= 399) {
        4
    } else if 200 <= code <= 299 {
        256
    } else if 400 <= code <= 699 {
        2
    } else if 700 <= code <= 899 {
        8
    } else if 900 <= code <= 999 {
        1
    } else if (1000 <= code <= 1099) || (1200 <= code <= 1299) {
        16
    } else if 1100 <= code <= 1199 {
        512
    } else if 1300 <= code <= 1399 {
        64
    } else if 1400 <= code <= 1499 {
        128
    } else if 1500 <= code <= 1599 {
        1024
    } else {
        0
    }
}

/// The mode flag of a GTFS route type.
pub open spec fn route_type_bits(value: GtfsRouteType) -> u16 {
    match value {
        GtfsRouteType::Tramway => 1,
        GtfsRouteType::Subway => 2,
        GtfsRouteType::Rail => 4,
        GtfsRouteType::Bus => 8,
        GtfsRouteType::Ferry => 16,
        GtfsRouteType::CableCar => 32,
        GtfsRouteType::Gondola => 64,
        GtfsRouteType::Funicular => 128,
        GtfsRouteType::Coach => 256,
        GtfsRouteType::Air => 512,
        GtfsRouteType::Taxi => 1024,
        GtfsRouteType::Other(code) => extended_route_bits(code),
    }
}

impl Sentinel for RouteType {
    open spec fn spec_none() -> Self {
        RouteType(0)
    }

    fn none() -> (r: Self) {
        RouteType(0)
    }

    fn is_none(self) -> (b: bool) {
        self.0 == 0
    }

    fn is_some(self) -> (b: bool) {
        self.0 != 0
    }

    fn as_option(self) -> (o: Option<Self>) {
        if self.0 == 0 {
            None
        } else {
            Some(self)
        }
    }
}

impl Default for RouteType {
    fn default() -> (r: Self)
        ensures
            r.0 == 0,
    {
        RouteType(0)
    }
}

impl RouteType {
    /// Only the tram, streetcar or light rail flag.
    pub fn tram() -> (r: Self)
        ensures
            r.0 == 1,
    {
        RouteType(1)
    }

    /// Only the subway or metro flag.
    pub fn subway() -> (r: Self)
        ensures
            r.0 == 2,
    {
        RouteType(2)
    }

    /// Only the intercity or long-distance rail flag.
    pub fn rail() -> (r: Self)
        ensures
            r.0 == 4,
    {
        RouteType(4)
    }

    /// Only the bus flag.
    pub fn bus() -> (r: Self)
        ensures
            r.0 == 8,
    {
        RouteType(8)
    }

    /// Only the ferry flag.
    pub fn ferry() -> (r: Self)
        ensures
            r.0 == 16,
    {
        RouteType(16)
    }

    /// Only the street-level cable car flag.
    pub fn cable_car() -> (r: Self)
        ensures
            r.0 == 32,
    {
        RouteType(32)
    }

    /// Only the aerial lift flag.
    pub fn gondola() -> (r: Self)
        ensures
            r.0 == 64,
    {
        RouteType(64)
    }

    /// Only the funicular flag.
    pub fn funicular() -> (r: Self)
        ensures
            r.0 == 128,
    {
        RouteType(128)
    }

    /// Only the coach flag.
    pub fn coach() -> (r: Self)
        ensures
            r.0 == 256,
    {
        RouteType(256)
    }

    /// Only the air service flag.
    pub fn air() -> (r: Self)
        ensures
            r.0 == 512,
    {
        RouteType(512)
    }

    /// Only the taxi flag.
    pub fn taxi() -> (r: Self)
        ensures
            r.0 == 1024,
    {
        RouteType(1024)
    }

    /// The flag of a GTFS route type.
    pub fn from_gtfs(value: GtfsRouteType) -> (r: Self)
        ensures
            r.0 == route_type_bits(value),
    {
        match value {
            GtfsRouteType::Tramway => RouteType(1),
            GtfsRouteType::Subway => RouteType(2),
            GtfsRouteType::Rail => RouteType(4),
            GtfsRouteType::Bus => RouteType(8),
            GtfsRouteType::Ferry => RouteType(16),
            GtfsRouteType::CableCar => RouteType(32),
            GtfsRouteType::Gondola => RouteType(64),
            GtfsRouteType::Funicular => RouteType(128),
            GtfsRouteType::Coach => RouteType(256),
            GtfsRouteType::Air => RouteType(512),
            GtfsRouteType::Taxi => RouteType(1024),
            GtfsRouteType::Other(code) => {
                if (100 <= code && code <= 199) || (300 <= code && code <= 399) {
                    RouteType(4)
                } else if 200 <= code && code <= 299 {
                    RouteType(256)
                } else if 400 <= code && code <= 699 {
                    RouteType(2)
                } else if 700 <= code && code <= 899 {
                    RouteType(8)
                } else if 900 <= code && code <= 999 {
                    RouteType(1)
                } else if (1000 <= code && code <= 1099) || (1200 <= code && code <= 1299) {
                    RouteType(16)
                } else if 1100 <= code && code <= 1199 {
                    RouteType(512)
                } else if 1300 <= code && code <= 1399 {
                    RouteType(64)
                } else if 1400 <= code && code <= 1499 {
                    RouteType(128)
                } else if 1500 <= code && code <= 1599 {
                    RouteType(1024)
                } else {
                    RouteType(0)
                }
            },
        }
    }

    /// The union of both sets of modes.
    pub fn join(self, other: Self) -> (r: Self)
        ensures
            r.0 == (self.0 | other.0),
    {
        RouteType(self.0 | other.0)
    }

    /// Every mode of `other` is in `self`.
    pub fn contains(self, other: Self) -> (r: bool)
        ensures
            r == ((self.0 & other.0) == other.0),
    {
        self.0 & other.0 == other.0
    }
}

/// A union of two sets of modes contains each of them, and containment
/// passes through.
pub proof fn lemma_route_types_join_contains(a: RouteType, b: RouteType, c: RouteType)
    ensures
        ((a.0 | b.0) & a.0) == a.0,
        ((a.0 | b.0) & b.0) == b.0,
        (a.0 & b.0) == b.0 && (b.0 & c.0) == c.0 ==> (a.0 & c.0) == c.0,
{
    let (x, y, z) = (a.0, b.0, c.0);
    assert(((x | y) & x) == x && ((x | y) & y) == y) by (bit_vector);
    assert((x & y) == y && (y & z) == z ==> (x & z) == z) by (bit_vector);
}

/// The basic GTFS route types, as opposed to other and extended codes.
pub open spec fn is_basic_route_type(v: GtfsRouteType) -> bool {
    !(v is Other)
}

/// Each basic GTFS route type has exactly one flag, that of the mode it
/// names: tram 1 << 0 (GTFS code 0), subway 1 << 1 (code 1), rail 1 << 2
/// (code 2), bus 1 << 3 (code 3), ferry 1 << 4 (code 4), cable car 1 << 5
/// (code 5), aerial lift 1 << 6 (code 6), funicular 1 << 7 (code 7), coach
/// 1 << 8, air 1 << 9 and taxi 1 << 10; so two basic types share a flag only
/// where they are the same type. An extended code of Google's table has the
/// flag of the basic type naming the same mode, and a code outside the table
/// has no flag.
pub proof fn lemma_route_type_modes(a: GtfsRouteType, b: GtfsRouteType, code: i16)
    ensures
        route_type_bits(GtfsRouteType::Tramway) == 1u16 << 0u16,
        route_type_bits(GtfsRouteType::Subway) == 1u16 << 1u16,
        route_type_bits(GtfsRouteType::Rail) == 1u16 << 2u16,
        route_type_bits(GtfsRouteType::Bus) == 1u16 << 3u16,
        route_type_bits(GtfsRouteType::Ferry) == 1u16 << 4u16,
        route_type_bits(GtfsRouteType::CableCar) == 1u16 << 5u16,
        route_type_bits(GtfsRouteType::Gondola) == 1u16 << 6u16,
        route_type_bits(GtfsRouteType::Funicular) == 1u16 << 7u16,
        route_type_bits(GtfsRouteType::Coach) == 1u16 << 8u16,
        route_type_bits(GtfsRouteType::Air) == 1u16 << 9u16,
        route_type_bits(GtfsRouteType::Taxi) == 1u16 << 10u16,
        is_basic_route_type(a) && is_basic_route_type(b) && route_type_bits(a) == route_type_bits(b) ==> a == b,
        is_basic_route_type(a) ==> route_type_bits(a) != 0 && (route_type_bits(a) & (route_type_bits(a) - 1) as u16) == 0,
        (100 <= code <= 199 || 300 <= code <= 399) ==> route_type_bits(GtfsRouteType::Other(code)) == route_type_bits(
            GtfsRouteType::Rail,
        ),
        200 <= code <= 299 ==> route_type_bits(GtfsRouteType::Other(code)) == route_type_bits(GtfsRouteType::Coach),
        400 <= code <= 699 ==> route_type_bits(GtfsRouteType::Other(code)) == route_type_bits(GtfsRouteType::Subway),
        700 <= code <= 899 ==> route_type_bits(GtfsRouteType::Other(code)) == route_type_bits(GtfsRouteType::Bus),
        900 <= code <= 999 ==> route_type_bits(GtfsRouteType::Other(code)) == route_type_bits(GtfsRouteType::Tramway),
        (1000 <= code <= 1099 || 1200 <= code <= 1299) ==> route_type_bits(GtfsRouteType::Other(code))
            == route_type_bits(GtfsRouteType::Ferry),
        1100 <= code <= 1199 ==> route_type_bits(GtfsRouteType::Other(code)) == route_type_bits(GtfsRouteType::Air),
        1300 <= code <= 1399 ==> route_type_bits(GtfsRouteType::Other(code)) == route_type_bits(
            GtfsRouteType::Gondola,
        ),
        1400 <= code <= 1499 ==> route_type_bits(GtfsRouteType::Other(code)) == route_type_bits(
            GtfsRouteType::Funicular,
        ),
        1500 <= code <= 1599 ==> route_type_bits(GtfsRouteType::Other(code)) == route_type_bits(GtfsRouteType::Taxi),
        (code < 100 || code > 1599) ==> route_type_bits(GtfsRouteType::Other(code)) == 0,
{
    assert(1u16 << 0u16 == 1 && 1u16 << 1u16 == 2 && 1u16 << 2u16 == 4 && 1u16 << 3u16 == 8 && 1u16 << 4u16 == 16
        && 1u16 << 5u16 == 32 && 1u16 << 6u16 == 64 && 1u16 << 7u16 == 128 && 1u16 << 8u16 == 256 && 1u16 << 9u16
        == 512 && 1u16 << 10u16 == 1024) by (bit_vector);
    if is_basic_route_type(a) {
        let x = route_type_bits(a);
        assert(x == 1 || x == 2 || x == 4 || x == 8 || x == 16 || x == 32 || x == 64 || x == 128 || x == 256 || x
            == 512 || x == 1024);
        assert((x == 1 || x == 2 || x == 4 || x == 8 || x == 16 || x == 32 || x == 64 || x == 128 || x == 256 || x
            == 512 || x == 1024) ==> (x & (x - 1) as u16) == 0) by (bit_vector);
    }
}

} // verus!
