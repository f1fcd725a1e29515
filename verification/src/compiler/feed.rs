//! The records of a GTFS feed as the compiler reads them.

use vstd::prelude::*;
use vstd::string::StringSliceAdditionalSpecFns;
use vstd::utf8::encode_utf8;

use crate::models::coordinate::{Coordinate, Distance};
use crate::models::date::Date;
use crate::models::location_type::GtfsLocationType;
use crate::models::opt::Opt;
use crate::models::route_type::GtfsRouteType;
use crate::models::slice::StringSlice;
use crate::models::slice_builder::SliceBuilder;
use crate::models::sentinel::Sentinel;

verus! {

/// A row of `stops.txt`.
pub struct RawStop {
    /// `stop_id`.
    pub id: String,
    /// `stop_code`.
    pub code: Option<String>,
    /// `stop_name`.
    pub name: Option<String>,
    /// `stop_desc`.
    pub description: Option<String>,
    /// `stop_lat` and `stop_lon`, scaled, where both are given.
    pub coordinate: Option<Coordinate>,
    /// `location_type`.
    pub location_type: GtfsLocationType,
    /// `parent_station`.
    pub parent_station: Option<String>,
}

/// A row of `routes.txt`.
pub struct RawRoute {
    /// `route_id`.
    pub id: String,
    /// `route_short_name`.
    pub short_name: Option<String>,
    /// `route_long_name`.
    pub long_name: Option<String>,
    /// `route_desc`.
    pub desc: Option<String>,
    /// `route_type`.
    pub route_type: GtfsRouteType,
}

/// A row of `trips.txt`.
pub struct RawTrip {
    /// `trip_id`.
    pub id: String,
    /// `service_id`.
    pub service_id: String,
    /// `route_id`.
    pub route_id: String,
    /// `shape_id`.
    pub shape_id: Option<String>,
    /// `trip_headsign`.
    pub trip_headsign: Option<String>,
    /// `trip_short_name`.
    pub trip_short_name: Option<String>,
}

/// A row of `stop_times.txt`.
pub struct RawStopTime {
    /// `trip_id`.
    pub trip_id: String,
    /// `stop_id`.
    pub stop_id: String,
    /// `stop_sequence`.
    pub stop_sequence: u32,
    /// `stop_headsign`.
    pub stop_headsign: Option<String>,
    /// `arrival_time`, in seconds after midnight.
    pub arrival_time: Option<u32>,
    /// `departure_time`, in seconds after midnight.
    pub departure_time: Option<u32>,
    /// `shape_dist_traveled`.
    pub shape_dist_traveled: Option<Distance>,
}

/// A row of `calendar.txt`.
pub struct RawCalendar {
    /// `service_id`.
    pub id: String,
    /// `monday`.
    pub monday: bool,
    /// `tuesday`.
    pub tuesday: bool,
    /// `wednesday`.
    pub wednesday: bool,
    /// `thursday`.
    pub thursday: bool,
    /// `friday`.
    pub friday: bool,
    /// `saturday`.
    pub saturday: bool,
    /// `sunday`.
    pub sunday: bool,
    /// `start_date`.
    pub start_date: Date,
    /// `end_date`.
    pub end_date: Date,
}

/// A row of `calendar_dates.txt`.
pub struct RawCalendarDate {
    /// `service_id`.
    pub service_id: String,
    /// `date`.
    pub date: Date,
    /// `exception_type`: service added on that date (`true`) or removed.
    pub added: bool,
}

/// A row of `shapes.txt`.
pub struct RawShape {
    /// `shape_id`.
    pub id: String,
    /// `shape_pt_lat` and `shape_pt_lon`, scaled.
    pub coordinate: Coordinate,
    /// `shape_pt_sequence`.
    pub sequence: usize,
    /// `shape_dist_traveled`.
    pub dist_traveled: Option<Distance>,
}

/// A row of `transfers.txt`.
pub struct RawTransfer {
    /// `from_stop_id`.
    pub from_stop_id: String,
    /// `to_stop_id`.
    pub to_stop_id: String,
    /// `transfer_type`, as its number.
    pub transfer_type: u8,
    /// `min_transfer_time`, in seconds.
    pub min_transfer_time: Option<u32>,
}

/// The files of a feed that the compiler reads; optional files that are
/// missing are empty.
pub struct Feed {
    /// `stops.txt`.
    pub stops: Vec<RawStop>,
    /// `routes.txt`.
    pub routes: Vec<RawRoute>,
    /// `trips.txt`.
    pub trips: Vec<RawTrip>,
    /// `stop_times.txt`.
    pub stop_times: Vec<RawStopTime>,
    /// `calendar.txt`.
    pub calendar: Vec<RawCalendar>,
    /// `calendar_dates.txt`.
    pub calendar_dates: Vec<RawCalendarDate>,
    /// `shapes.txt`.
    pub shapes: Vec<RawShape>,
    /// `transfers.txt`.
    pub transfers: Vec<RawTransfer>,
}

/// The UTF-8 bytes of a string.
pub open spec fn utf8(s: String) -> Seq<u8> {
    encode_utf8(s@)
}

/// The bytes of an optional string, none where it is absent.
pub open spec fn opt_len(value: Option<String>) -> nat {
    match value {
        Some(s) => utf8(s).len(),
        None => 0,
    }
}

/// The sum of `f` over `items`.
pub open spec fn sum_of<T>(items: Seq<T>, f: spec_fn(T) -> nat) -> nat
    decreases items.len(),
{
    if items.len() == 0 {
        0
    } else {
        sum_of(items.drop_last(), f) + f(items.last())
    }
}

/// `sum_of` over a prefix grows item by item.
pub proof fn lemma_sum_of_take<T>(items: Seq<T>, f: spec_fn(T) -> nat, i: int)
    requires
        0 <= i < items.len(),
    ensures
        sum_of(items.take(i + 1), f) == sum_of(items.take(i), f) + f(items[i]),
        sum_of(items.take(i), f) <= sum_of(items, f),
        sum_of(items.take(i + 1), f) <= sum_of(items, f),
    decreases items.len() - i,
{
    assert(items.take(i + 1).drop_last() =~= items.take(i));
    if i + 1 < items.len() {
        lemma_sum_of_take(items, f, i + 1);
    } else {
        assert(items.take(i + 1) =~= items);
    }
}

/// Removing one item takes its share off the sum.
pub proof fn lemma_sum_of_remove<T>(s: Seq<T>, i: int, f: spec_fn(T) -> nat)
    requires
        0 <= i < s.len(),
    ensures
        sum_of(s, f) == sum_of(s.remove(i), f) + f(s[i]),
    decreases s.len(),
{
    if i == s.len() - 1 {
        assert(s.remove(i) =~= s.drop_last());
    } else {
        lemma_sum_of_remove(s.drop_last(), i, f);
        assert(s.remove(i).drop_last() =~= s.drop_last().remove(i));
        assert(s.remove(i).last() == s.last());
    }
}

/// Sums do not depend on the order of the items.
pub proof fn lemma_sum_of_reordered<T>(a: Seq<T>, b: Seq<T>, f: spec_fn(T) -> nat)
    requires
        a.to_multiset() == b.to_multiset(),
    ensures
        sum_of(a, f) == sum_of(b, f),
    decreases a.len(),
{
    broadcast use vstd::multiset::group_multiset_axioms;

    vstd::seq_lib::to_multiset_len(a);
    vstd::seq_lib::to_multiset_len(b);
    if a.len() > 0 {
        let x = a.last();
        vstd::seq_lib::to_multiset_contains(a, x);
        vstd::seq_lib::to_multiset_contains(b, x);
        let i = choose|i: int| 0 <= i < b.len() && b[i] == x;
        vstd::seq_lib::to_multiset_remove(a, a.len() - 1);
        vstd::seq_lib::to_multiset_remove(b, i);
        assert(a.remove(a.len() - 1) =~= a.drop_last());
        lemma_sum_of_reordered(a.drop_last(), b.remove(i), f);
        lemma_sum_of_remove(b, i, f);
    }
}

/// The run handed out for `value`, or the reserved run where there is no text.
pub open spec fn text_run(b: &SliceBuilder<StringSlice>, value: Option<String>) -> Opt<StringSlice> {
    match value {
        Some(s) => Opt(b.spec_lookup(utf8(s))->0),
        None => Opt(StringSlice::spec_none()),
    }
}

/// Adds an optional text to the strings buffer.
pub fn add_text(builder: &mut SliceBuilder<StringSlice>, value: &Option<String>) -> (r: Opt<
    StringSlice,
>)
    requires
        old(builder).wf(),
        old(builder).text().len() + opt_len(*value) <= usize::MAX,
    ensures
        final(builder).wf(),
        final(builder).extends(&*old(builder)),
        final(builder).text().len() <= old(builder).text().len() + opt_len(*value),
        value is Some ==> final(builder).spec_lookup(utf8(value->0)) is Some,
        r == text_run(&*final(builder), *value),
{
    match value {
        Some(s) => {
            let slice = builder.add(s.as_str());
            proof {
                old(builder).lemma_wf();
            }
            Opt::new(slice)
        },
        None => {
            proof {
                builder.lemma_extends_refl();
            }
            Opt::new(StringSlice::none())
        },
    }
}

} // verus!
