//! Queries on trips, and the trips of a route or a stop.

use vstd::prelude::*;
use vstd::string::StringSliceAdditionalSpecFns;
use vstd::utf8::valid_utf8;

use crate::consumer::lookup::{
    all_below, entries, gather, gathered, key_at, lookup_sorted, lookup_valid, run_entries, run_fits, runs_within,
    search_by_id, text_of,
};
use crate::consumer::Consumer;
use crate::models::idx::{RouteIdx, StopIdx, TripIdx};
use crate::models::slice::TripIdSlice;
use crate::models::Trip;

verus! {

impl Consumer {
    /// The trip at `idx`.
    pub fn trip(&self, idx: TripIdx) -> (r: &Trip)
        requires
            idx.0 < self.trips@.len(),
        ensures
            *r == self.trips@[idx.0 as int],
    {
        &self.trips[idx.0 as usize]
    }

    /// The trip whose identifier is `id`. Where the identifier lookup is in
    /// increasing order of identifier, a trip it lists with that identifier
    /// is found.
    pub fn trip_by_id(&self, id: &str) -> (r: Option<&Trip>)
        requires
            runs_within(self.trips@, self.trip_ids@),
            lookup_valid(self.trips@, self.trips_id_lookup@),
        ensures
            match r {
                Some(s) => exists|m: int|
                    0 <= m < self.trips_id_lookup@.len() && *s == self.trips@[self.trips_id_lookup@[m].0 as int]
                        && key_at(self.trips@, self.trips_id_lookup@, self.trip_ids@, m) == id.spec_bytes(),
                None => lookup_sorted(self.trips@, self.trips_id_lookup@, self.trip_ids@) ==> forall|m: int|
                    0 <= m < self.trips_id_lookup@.len() ==> key_at(
                        self.trips@,
                        self.trips_id_lookup@,
                        self.trip_ids@,
                        m,
                    ) != id.spec_bytes(),
            },
    {
        match search_by_id(self.trips.as_slice(), self.trips_id_lookup.as_slice(), self.trip_ids.as_slice(), id.as_bytes()) {
            Some(m) => Some(self.trip(self.trips_id_lookup[m])),
            None => None,
        }
    }

    /// The identifier text of the run `id` of the trip ids section, where it
    /// is valid UTF-8.
    pub fn trip_id(&self, id: TripIdSlice) -> (r: Option<&str>)
        requires
            run_fits(self.trip_ids@, id),
        ensures
            r is Some <==> valid_utf8(run_entries(self.trip_ids@, id)),
            r matches Some(s) ==> s.spec_bytes() == run_entries(self.trip_ids@, id),
    {
        text_of(entries(self.trip_ids.as_slice(), id))
    }

    /// The trips of the route at `idx`.
    pub fn trips_by_route(&self, idx: RouteIdx) -> (r: &[TripIdx])
        requires
            idx.0 < self.route_to_trips_lookup@.len(),
            run_fits(self.route_to_trips@, self.route_to_trips_lookup@[idx.0 as int]),
        ensures
            r@ == run_entries(self.route_to_trips@, self.route_to_trips_lookup@[idx.0 as int]),
    {
        let slice = self.route_to_trips_lookup[idx.0 as usize];
        entries(self.route_to_trips.as_slice(), slice)
    }

    /// The trips of the route at `idx`, as records.
    pub fn iter_trips_by_route(&self, idx: RouteIdx) -> (r: Vec<Trip>)
        requires
            idx.0 < self.route_to_trips_lookup@.len(),
            run_fits(self.route_to_trips@, self.route_to_trips_lookup@[idx.0 as int]),
            all_below(run_entries(self.route_to_trips@, self.route_to_trips_lookup@[idx.0 as int]), self.trips@.len()),
        ensures
            r@ == gathered(self.trips@, run_entries(self.route_to_trips@, self.route_to_trips_lookup@[idx.0 as int])),
    {
        gather(self.trips.as_slice(), self.trips_by_route(idx))
    }

    /// The trips of the stop at `idx`.
    pub fn trips_by_stop(&self, idx: StopIdx) -> (r: &[TripIdx])
        requires
            idx.0 < self.stop_to_trips_lookup@.len(),
            run_fits(self.stop_to_trips@, self.stop_to_trips_lookup@[idx.0 as int]),
        ensures
            r@ == run_entries(self.stop_to_trips@, self.stop_to_trips_lookup@[idx.0 as int]),
    {
        let slice = self.stop_to_trips_lookup[idx.0 as usize];
        entries(self.stop_to_trips.as_slice(), slice)
    }

    /// The trips of the stop at `idx`, as records.
    pub fn iter_trips_by_stop(&self, idx: StopIdx) -> (r: Vec<Trip>)
        requires
            idx.0 < self.stop_to_trips_lookup@.len(),
            run_fits(self.stop_to_trips@, self.stop_to_trips_lookup@[idx.0 as int]),
            all_below(run_entries(self.stop_to_trips@, self.stop_to_trips_lookup@[idx.0 as int]), self.trips@.len()),
        ensures
            r@ == gathered(self.trips@, run_entries(self.stop_to_trips@, self.stop_to_trips_lookup@[idx.0 as int])),
    {
        gather(self.trips.as_slice(), self.trips_by_stop(idx))
    }
}

} // verus!
