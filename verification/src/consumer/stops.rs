//! Queries on stops and on the stop search table.

use vstd::prelude::*;
use vstd::string::StringSliceAdditionalSpecFns;
use vstd::utf8::valid_utf8;

use crate::consumer::lookup::{
    all_below, entries, gather, gathered, key_at, lookup_sorted, lookup_valid, run_entries, run_fits, runs_within,
    search_by_id, text_of,
};
use crate::consumer::Consumer;
use crate::models::idx::{SearchIdx, StopIdx};
use crate::models::slice::StopIdSlice;
use crate::models::{SearchStop, Stop};

verus! {

impl Consumer {
    /// The stop at `idx`.
    pub fn stop(&self, idx: StopIdx) -> (r: &Stop)
        requires
            idx.0 < self.stops@.len(),
        ensures
            *r == self.stops@[idx.0 as int],
    {
        &self.stops[idx.0 as usize]
    }

    /// The stop whose identifier is `id`. Where the identifier lookup is in
    /// increasing order of identifier, a stop it lists with that identifier
    /// is found.
    pub fn stop_by_id(&self, id: &str) -> (r: Option<&Stop>)
        requires
            runs_within(self.stops@, self.stop_ids@),
            lookup_valid(self.stops@, self.stops_id_lookup@),
        ensures
            match r {
                Some(s) => exists|m: int|
                    0 <= m < self.stops_id_lookup@.len() && *s == self.stops@[self.stops_id_lookup@[m].0 as int]
                        && key_at(self.stops@, self.stops_id_lookup@, self.stop_ids@, m) == id.spec_bytes(),
                None => lookup_sorted(self.stops@, self.stops_id_lookup@, self.stop_ids@) ==> forall|m: int|
                    0 <= m < self.stops_id_lookup@.len() ==> key_at(
                        self.stops@,
                        self.stops_id_lookup@,
                        self.stop_ids@,
                        m,
                    ) != id.spec_bytes(),
            },
    {
        match search_by_id(self.stops.as_slice(), self.stops_id_lookup.as_slice(), self.stop_ids.as_slice(), id.as_bytes()) {
            Some(m) => Some(self.stop(self.stops_id_lookup[m])),
            None => None,
        }
    }

    /// The identifier text of the run `id` of the stop ids section, where it
    /// is valid UTF-8.
    pub fn stop_id(&self, id: StopIdSlice) -> (r: Option<&str>)
        requires
            run_fits(self.stop_ids@, id),
        ensures
            r is Some <==> valid_utf8(run_entries(self.stop_ids@, id)),
            r matches Some(s) ==> s.spec_bytes() == run_entries(self.stop_ids@, id),
    {
        text_of(entries(self.stop_ids.as_slice(), id))
    }

    /// The search entry at `idx`.
    pub fn search(&self, idx: SearchIdx) -> (r: &SearchStop)
        requires
            idx.0 < self.search_stops@.len(),
        ensures
            *r == self.search_stops@[idx.0 as int],
    {
        &self.search_stops[idx.0 as usize]
    }

    /// The stops that the search entry at `idx` stands for.
    pub fn stops_by_search(&self, idx: SearchIdx) -> (r: &[StopIdx])
        requires
            idx.0 < self.search_stops@.len(),
            run_fits(self.search_to_stops@, self.search_stops@[idx.0 as int].stops),
        ensures
            r@ == run_entries(self.search_to_stops@, self.search_stops@[idx.0 as int].stops),
    {
        let search = self.search(idx);
        entries(self.search_to_stops.as_slice(), search.stops)
    }

    /// The stops that the search entry at `idx` stands for, as records.
    pub fn iter_stops_by_search(&self, idx: SearchIdx) -> (r: Vec<Stop>)
        requires
            idx.0 < self.search_stops@.len(),
            run_fits(self.search_to_stops@, self.search_stops@[idx.0 as int].stops),
            all_below(run_entries(self.search_to_stops@, self.search_stops@[idx.0 as int].stops), self.stops@.len()),
        ensures
            r@ == gathered(self.stops@, run_entries(self.search_to_stops@, self.search_stops@[idx.0 as int].stops)),
    {
        gather(self.stops.as_slice(), self.stops_by_search(idx))
    }
}

} // verus!
