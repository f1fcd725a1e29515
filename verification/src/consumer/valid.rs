//! What makes a network safe to query: every position that one table holds
//! names an entry of the table it points into.

use vstd::prelude::*;

use crate::consumer::lookup::{
    all_below, check_all_below, check_ids, check_lookup_runs, ids_ok, lookup_runs, run_fits,
};
use crate::consumer::Consumer;
use crate::consumer::service::mask_reachable;
use crate::consumer::NetworkView;

verus! {

/// Every position and run of the network lies within the table it names,
/// and the identifier lookups are sorted: the queries on stops, routes,
/// trips, services, stop times, transfers and trip patterns can all be asked.
pub open spec fn queryable(n: NetworkView) -> bool {
    &&& ids_ok(n.stops, n.stop_ids, n.stops_id_lookup)
    &&& ids_ok(n.routes, n.route_ids, n.routes_id_lookup)
    &&& ids_ok(n.trips, n.trip_ids, n.trips_id_lookup)
    &&& ids_ok(n.services, n.service_ids, n.services_id_lookup)
    &&& forall|i: int|
        0 <= i < n.stops.len() ==> ((#[trigger] n.stops[i]).parent_idx.0.0 != u32::MAX ==> n.stops[i].parent_idx.0.0
            < n.stops.len())
    &&& forall|t: int|
        0 <= t < n.trips.len() ==> (#[trigger] n.trips[t]).idx.0 == t && n.trips[t].route_idx.0 < n.routes.len() && run_fits(
            n.stop_times,
            n.trips[t].stop_times,
        )
    &&& forall|k: int|
        0 <= k < n.stop_times.len() ==> (#[trigger] n.stop_times[k]).stop_idx.0 < n.stops.len()
            && n.stop_times[k].trip_idx.0 < n.trips.len()
    &&& forall|k: int| 0 <= k < n.services.len() ==> #[trigger] mask_reachable(n, k)
    &&& lookup_runs(n.stop_to_trips_lookup, n.stop_to_trips, n.stops.len())
    &&& all_below(n.stop_to_trips, n.trips.len())
    &&& lookup_runs(n.route_to_trips_lookup, n.route_to_trips, n.routes.len())
    &&& all_below(n.route_to_trips, n.trips.len())
    &&& forall|g: int| 0 <= g < n.search_stops.len() ==> run_fits(n.search_to_stops, (#[trigger] n.search_stops[g]).stops)
    &&& all_below(n.search_to_stops, n.stops.len())
    &&& forall|g: int|
        0 <= g < n.trip_patterns.len() ==> run_fits(n.trip_patterns_stop_seq, (#[trigger] n.trip_patterns[g]).stops)
            && run_fits(n.trip_patterns_trips, n.trip_patterns[g].trips)
    &&& all_below(n.trip_patterns_trips, n.trips.len())
    &&& all_below(n.trip_patterns_stop_seq, n.stops.len())
    &&& n.trip_to_trip_pattern.len() == n.trips.len()
    &&& all_below(n.trip_to_trip_pattern, n.trip_patterns.len())
    &&& lookup_runs(n.stop_to_trip_pattern_lookup, n.stop_to_trip_pattern, n.stops.len())
    &&& all_below(n.stop_to_trip_pattern, n.trip_patterns.len())
    &&& n.stop_to_transfer_out.len() <= n.stops.len()
    &&& lookup_runs(n.stop_to_transfer_out, n.transfers, n.stop_to_transfer_out.len())
    &&& lookup_runs(n.stop_to_transfer_in, n.transfers_in_indencies, n.stop_to_transfer_in.len())
    &&& all_below(n.transfers_in_indencies, n.transfers.len())
}

impl Consumer {
    /// Whether every query can be asked of the network: the same as
    /// `queryable`, tested table by table.
    pub fn is_queryable(&self) -> (r: bool)
        ensures
            r == queryable(self@),
    {
        let n = self.stops.len();
        let n_routes = self.routes.len();
        let n_trips = self.trips.len();
        let n_stop_times = self.stop_times.len();
        let n_patterns = self.trip_patterns.len();
        let n_mask = self.active_mask.len();
        if !check_ids(self.stops.as_slice(), self.stop_ids.as_slice(), self.stops_id_lookup.as_slice()) {
            return false;
        }
        if !check_ids(self.routes.as_slice(), self.route_ids.as_slice(), self.routes_id_lookup.as_slice()) {
            return false;
        }
        if !check_ids(self.trips.as_slice(), self.trip_ids.as_slice(), self.trips_id_lookup.as_slice()) {
            return false;
        }
        if !check_ids(self.services.as_slice(), self.service_ids.as_slice(), self.services_id_lookup.as_slice()) {
            return false;
        }
        let mut i: usize = 0;
        while i < n
            invariant
                n == self.stops@.len(),
                i <= n,
                forall|q: int|
                    0 <= q < i ==> ((#[trigger] self.stops@[q]).parent_idx.0.0 != u32::MAX
                        ==> self.stops@[q].parent_idx.0.0 < n),
            decreases n - i,
        {
            let p = self.stops[i].parent_idx.0.0;
            if p != u32::MAX && p as usize >= n {
                return false;
            }
            i = i + 1;
        }
        let mut t: usize = 0;
        while t < n_trips
            invariant
                n_trips == self.trips@.len(),
                n_routes == self.routes@.len(),
                n_stop_times == self.stop_times@.len(),
                t <= n_trips,
                forall|q: int|
                    0 <= q < t ==> (#[trigger] self.trips@[q]).idx.0 == q && self.trips@[q].route_idx.0 < n_routes
                        && run_fits(self.stop_times@, self.trips@[q].stop_times),
            decreases n_trips - t,
        {
            let tr = self.trips[t];
            if tr.idx.0 as usize != t || tr.route_idx.0 as usize >= n_routes
                || tr.stop_times.start as u64 + tr.stop_times.count as u64 > n_stop_times as u64 {
                return false;
            }
            t = t + 1;
        }
        let mut k: usize = 0;
        while k < n_stop_times
            invariant
                n_stop_times == self.stop_times@.len(),
                n == self.stops@.len(),
                n_trips == self.trips@.len(),
                k <= n_stop_times,
                forall|q: int|
                    0 <= q < k ==> (#[trigger] self.stop_times@[q]).stop_idx.0 < n && self.stop_times@[q].trip_idx.0
                        < n_trips,
            decreases n_stop_times - k,
        {
            let st = self.stop_times[k];
            if st.stop_idx.0 as usize >= n || st.trip_idx.0 as usize >= n_trips {
                proof {
                    assert(self@.stop_times[k as int] == st);
                }
                return false;
            }
            k = k + 1;
        }
        let mut v: usize = 0;
        while v < self.services.len()
            invariant
                n_mask == self.active_mask@.len(),
                v <= self.services@.len(),
                forall|q: int| 0 <= q < v ==> #[trigger] mask_reachable(self@, q),
            decreases self.services@.len() - v,
        {
            let s = self.services[v];
            if s.start_date.0 <= s.end_date.0 {
                let last: u64 = s.active_mask.start as u64 + (s.end_date.0 - s.start_date.0) as u64;
                if last > 0xffff_ffffu64 || (last / 8) as usize >= n_mask {
                    proof {
                        assert(!mask_reachable(self@, v as int));
                    }
                    return false;
                }
            }
            proof {
                assert(mask_reachable(self@, v as int));
            }
            v = v + 1;
        }
        if !check_lookup_runs(self.stop_to_trips_lookup.as_slice(), self.stop_to_trips.as_slice(), n)
            || !check_all_below(self.stop_to_trips.as_slice(), n_trips)
            || !check_lookup_runs(self.route_to_trips_lookup.as_slice(), self.route_to_trips.as_slice(), n_routes)
            || !check_all_below(self.route_to_trips.as_slice(), n_trips) {
            return false;
        }
        let n_search = self.search_to_stops.len();
        let mut g: usize = 0;
        while g < self.search_stops.len()
            invariant
                n_search == self.search_to_stops@.len(),
                g <= self.search_stops@.len(),
                forall|q: int| 0 <= q < g ==> run_fits(self.search_to_stops@, (#[trigger] self.search_stops@[q]).stops),
            decreases self.search_stops@.len() - g,
        {
            let run = self.search_stops[g].stops;
            if run.start as u64 + run.count as u64 > n_search as u64 {
                proof {
                    assert(self@.search_stops[g as int].stops == run);
                }
                return false;
            }
            g = g + 1;
        }
        if !check_all_below(self.search_to_stops.as_slice(), n) {
            return false;
        }
        let n_seq = self.trip_patterns_stop_seq.len();
        let n_listed = self.trip_patterns_trips.len();
        let mut h: usize = 0;
        while h < n_patterns
            invariant
                n_patterns == self.trip_patterns@.len(),
                n_seq == self.trip_patterns_stop_seq@.len(),
                n_listed == self.trip_patterns_trips@.len(),
                h <= n_patterns,
                forall|q: int|
                    0 <= q < h ==> run_fits(self.trip_patterns_stop_seq@, (#[trigger] self.trip_patterns@[q]).stops)
                        && run_fits(self.trip_patterns_trips@, self.trip_patterns@[q].trips),
            decreases n_patterns - h,
        {
            let pat = self.trip_patterns[h];
            if pat.stops.start as u64 + pat.stops.count as u64 > n_seq as u64 || pat.trips.start as u64
                + pat.trips.count as u64 > n_listed as u64 {
                return false;
            }
            h = h + 1;
        }
        if !check_all_below(self.trip_patterns_trips.as_slice(), n_trips)
            || !check_all_below(self.trip_patterns_stop_seq.as_slice(), n)
            || self.trip_to_trip_pattern.len() != n_trips
            || !check_all_below(self.trip_to_trip_pattern.as_slice(), n_patterns)
            || !check_lookup_runs(self.stop_to_trip_pattern_lookup.as_slice(), self.stop_to_trip_pattern.as_slice(), n)
            || !check_all_below(self.stop_to_trip_pattern.as_slice(), n_patterns) {
            return false;
        }
        let n_out = self.stop_to_transfer_out.len();
        let n_in = self.stop_to_transfer_in.len();
        if n_out > n || !check_lookup_runs(self.stop_to_transfer_out.as_slice(), self.transfers.as_slice(), n_out)
            || !check_lookup_runs(self.stop_to_transfer_in.as_slice(), self.transfers_in_indencies.as_slice(), n_in)
            || !check_all_below(self.transfers_in_indencies.as_slice(), self.transfers.len()) {
            return false;
        }
        true
    }
}

} // verus!
