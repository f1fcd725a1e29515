//! Queries on trip patterns: the trips that share one sequence of stops.

use vstd::prelude::*;

use crate::consumer::lookup::{all_below, entries, gather, gathered, run_entries, run_fits};
use crate::consumer::Consumer;
use crate::models::idx::{StopIdx, TripIdx, TripPatternIdx};
use crate::models::{Stop, Trip, TripPattern};

verus! {

impl Consumer {
    /// The trip pattern at `idx`.
    pub fn trip_pattern(&self, idx: TripPatternIdx) -> (r: &TripPattern)
        requires
            idx.0 < self.trip_patterns@.len(),
        ensures
            *r == self.trip_patterns@[idx.0 as int],
    {
        &self.trip_patterns[idx.0 as usize]
    }

    /// The trip pattern of the trip at `trip_idx`.
    pub fn trip_pattern_by_trip(&self, trip_idx: TripIdx) -> (r: &TripPattern)
        requires
            trip_idx.0 < self.trip_to_trip_pattern@.len(),
            self.trip_to_trip_pattern@[trip_idx.0 as int].0 < self.trip_patterns@.len(),
        ensures
            *r == self.trip_patterns@[self.trip_to_trip_pattern@[trip_idx.0 as int].0 as int],
    {
        let idx = self.trip_to_trip_pattern[trip_idx.0 as usize];
        self.trip_pattern(idx)
    }

    /// The positions of the trip patterns that serve the stop at `stop_idx`.
    pub fn trip_patterns_by_stop(&self, stop_idx: StopIdx) -> (r: &[TripPatternIdx])
        requires
            stop_idx.0 < self.stop_to_trip_pattern_lookup@.len(),
            run_fits(self.stop_to_trip_pattern@, self.stop_to_trip_pattern_lookup@[stop_idx.0 as int]),
        ensures
            r@ == run_entries(self.stop_to_trip_pattern@, self.stop_to_trip_pattern_lookup@[stop_idx.0 as int]),
    {
        let slice = self.stop_to_trip_pattern_lookup[stop_idx.0 as usize];
        entries(self.stop_to_trip_pattern.as_slice(), slice)
    }

    /// The trip patterns that serve the stop at `stop_idx`, as records.
    pub fn iter_trip_patterns_by_stop(&self, stop_idx: StopIdx) -> (r: Vec<TripPattern>)
        requires
            stop_idx.0 < self.stop_to_trip_pattern_lookup@.len(),
            run_fits(self.stop_to_trip_pattern@, self.stop_to_trip_pattern_lookup@[stop_idx.0 as int]),
            all_below(
                run_entries(self.stop_to_trip_pattern@, self.stop_to_trip_pattern_lookup@[stop_idx.0 as int]),
                self.trip_patterns@.len(),
            ),
        ensures
            r@ == gathered(
                self.trip_patterns@,
                run_entries(self.stop_to_trip_pattern@, self.stop_to_trip_pattern_lookup@[stop_idx.0 as int]),
            ),
    {
        gather(self.trip_patterns.as_slice(), self.trip_patterns_by_stop(stop_idx))
    }

    /// The stops of the trip pattern at `idx`, in the order they are served.
    pub fn stop_sequence_by_trip_pattern(&self, idx: TripPatternIdx) -> (r: &[StopIdx])
        requires
            idx.0 < self.trip_patterns@.len(),
            run_fits(self.trip_patterns_stop_seq@, self.trip_patterns@[idx.0 as int].stops),
        ensures
            r@ == run_entries(self.trip_patterns_stop_seq@, self.trip_patterns@[idx.0 as int].stops),
    {
        let slice = self.trip_pattern(idx).stops;
        entries(self.trip_patterns_stop_seq.as_slice(), slice)
    }

    /// The stops of the trip pattern at `idx`, as records.
    pub fn iter_stop_sequence_by_trip_pattern(&self, idx: TripPatternIdx) -> (r: Vec<Stop>)
        requires
            idx.0 < self.trip_patterns@.len(),
            run_fits(self.trip_patterns_stop_seq@, self.trip_patterns@[idx.0 as int].stops),
            all_below(
                run_entries(self.trip_patterns_stop_seq@, self.trip_patterns@[idx.0 as int].stops),
                self.stops@.len(),
            ),
        ensures
            r@ == gathered(self.stops@, run_entries(self.trip_patterns_stop_seq@, self.trip_patterns@[idx.0 as int].stops)),
    {
        gather(self.stops.as_slice(), self.stop_sequence_by_trip_pattern(idx))
    }

    /// The trips of the trip pattern at `idx`.
    pub fn trips_in_trip_pattern(&self, idx: TripPatternIdx) -> (r: &[TripIdx])
        requires
            idx.0 < self.trip_patterns@.len(),
            run_fits(self.trip_patterns_trips@, self.trip_patterns@[idx.0 as int].trips),
        ensures
            r@ == run_entries(self.trip_patterns_trips@, self.trip_patterns@[idx.0 as int].trips),
    {
        let slice = self.trip_pattern(idx).trips;
        entries(self.trip_patterns_trips.as_slice(), slice)
    }

    /// The trips of the trip pattern at `idx`, as records.
    pub fn iter_trips_in_trip_pattern(&self, idx: TripPatternIdx) -> (r: Vec<Trip>)
        requires
            idx.0 < self.trip_patterns@.len(),
            run_fits(self.trip_patterns_trips@, self.trip_patterns@[idx.0 as int].trips),
            all_below(
                run_entries(self.trip_patterns_trips@, self.trip_patterns@[idx.0 as int].trips),
                self.trips@.len(),
            ),
        ensures
            r@ == gathered(self.trips@, run_entries(self.trip_patterns_trips@, self.trip_patterns@[idx.0 as int].trips)),
    {
        gather(self.trips.as_slice(), self.trips_in_trip_pattern(idx))
    }
}

} // verus!
