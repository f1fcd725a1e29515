//! The stop times of a trip.

use vstd::prelude::*;

use crate::consumer::lookup::{entries, run_entries, run_fits};
use crate::consumer::Consumer;
use crate::models::idx::TripIdx;
use crate::models::StopTime;

verus! {

impl Consumer {
    /// The stop times of the trip at `idx`, in the order of the trip.
    pub fn trip_stop_times(&self, idx: TripIdx) -> (r: &[StopTime])
        requires
            idx.0 < self.trips@.len(),
            run_fits(self.stop_times@, self.trips@[idx.0 as int].stop_times),
        ensures
            r@ == run_entries(self.stop_times@, self.trips@[idx.0 as int].stop_times),
    {
        let slice = self.trip(idx).stop_times;
        entries(self.stop_times.as_slice(), slice)
    }
}

} // verus!
