//! The records of a compiled network and the small value types they are made of.

pub mod idx;
pub mod sentinel;
pub mod slice;
pub mod slice_builder;

pub use idx::{
    AreaIdx, Idx, RouteIdx, SearchIdx, ServiceIdx, StopIdx, StopTimeIdx, TransferIdx, TripIdx,
    TripPatternIdx,
};
pub use sentinel::Sentinel;
pub use slice_builder::SliceBuilder;
pub use slice::{
    AreaIdSlice, RouteIdSlice, RouteSlice, SearchSlice, ServiceBinarySlice, ServiceIdSlice,
    ShapeSlice, Slice, StopIdSlice, StopSlice, StopTimeSlice, StringSlice, TransferSlice,
    TripIdSlice, TripPatternSlice, TripSlice,
};
pub mod area;
pub mod coordinate;
pub mod date;
pub mod header;
pub mod location_type;
pub mod opt;
pub mod route;
pub mod route_type;
pub mod search_stop;
pub mod service;
pub mod stop;
pub mod stoptime;
pub mod text;
pub mod time;
pub mod transfer;
pub mod trip;
pub mod trip_pattern;
pub mod weekday;

pub use date::Date;
pub use location_type::{GtfsLocationType, LocationType};
pub use opt::Opt;
pub use route_type::{GtfsRouteType, RouteType};
pub use time::{Delay, Duration, Time};
pub use weekday::{BitMask, Weekday};
pub use area::Area;
pub use coordinate::{Coordinate, Distance, Shape};
pub use header::{Header, Section};
pub use route::Route;
pub use search_stop::SearchStop;
pub use service::Service;
pub use stop::Stop;
pub use stoptime::StopTime;
pub use transfer::Transfer;
pub use trip::Trip;
pub use trip_pattern::TripPattern;
