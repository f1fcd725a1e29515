//! Queries on routes.

use vstd::prelude::*;
use vstd::string::StringSliceAdditionalSpecFns;
use vstd::utf8::valid_utf8;

use crate::consumer::lookup::{
    entries, key_at, lookup_sorted, lookup_valid, run_entries, run_fits, runs_within, search_by_id, text_of,
};
use crate::consumer::Consumer;
use crate::models::idx::RouteIdx;
use crate::models::slice::RouteIdSlice;
use crate::models::Route;

verus! {

impl Consumer {
    /// The route at `idx`.
    pub fn route(&self, idx: RouteIdx) -> (r: &Route)
        requires
            idx.0 < self.routes@.len(),
        ensures
            *r == self.routes@[idx.0 as int],
    {
        &self.routes[idx.0 as usize]
    }

    /// The route whose identifier is `id`. Where the identifier lookup is in
    /// increasing order of identifier, a route it lists with that identifier
    /// is found.
    pub fn route_by_id(&self, id: &str) -> (r: Option<&Route>)
        requires
            runs_within(self.routes@, self.route_ids@),
            lookup_valid(self.routes@, self.routes_id_lookup@),
        ensures
            match r {
                Some(s) => exists|m: int|
                    0 <= m < self.routes_id_lookup@.len() && *s == self.routes@[self.routes_id_lookup@[m].0 as int]
                        && key_at(self.routes@, self.routes_id_lookup@, self.route_ids@, m) == id.spec_bytes(),
                None => lookup_sorted(self.routes@, self.routes_id_lookup@, self.route_ids@) ==> forall|m: int|
                    0 <= m < self.routes_id_lookup@.len() ==> key_at(
                        self.routes@,
                        self.routes_id_lookup@,
                        self.route_ids@,
                        m,
                    ) != id.spec_bytes(),
            },
    {
        match search_by_id(self.routes.as_slice(), self.routes_id_lookup.as_slice(), self.route_ids.as_slice(), id.as_bytes()) {
            Some(m) => Some(self.route(self.routes_id_lookup[m])),
            None => None,
        }
    }

    /// The identifier text of the run `id` of the route ids section, where it
    /// is valid UTF-8.
    pub fn route_id(&self, id: RouteIdSlice) -> (r: Option<&str>)
        requires
            run_fits(self.route_ids@, id),
        ensures
            r is Some <==> valid_utf8(run_entries(self.route_ids@, id)),
            r matches Some(s) ==> s.spec_bytes() == run_entries(self.route_ids@, id),
    {
        text_of(entries(self.route_ids.as_slice(), id))
    }
}

} // verus!
