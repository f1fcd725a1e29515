//! Queries on services and on the days they run.

use vstd::prelude::*;
use vstd::string::StringSliceAdditionalSpecFns;
use vstd::utf8::valid_utf8;

use crate::compiler::services::byte_bit;
use crate::consumer::lookup::{
    entries, key_at, lookup_sorted, lookup_valid, run_entries, run_fits, runs_within, search_by_id, text_of,
};
use crate::consumer::{Consumer, NetworkView};
use crate::models::date::Date;
use crate::models::idx::ServiceIdx;
use crate::models::slice::ServiceIdSlice;
use crate::models::Service;

verus! {

/// The mask bits of service `k`, from its first to its last day, can be
/// numbered in 32 bits and lie within the mask bytes.
pub open spec fn mask_reachable(n: NetworkView, k: int) -> bool {
    let s = n.services[k];
    s.start_date.0 <= s.end_date.0 ==> {
        &&& s.active_mask.start + (s.end_date.0 - s.start_date.0) <= u32::MAX
        &&& (s.active_mask.start + (s.end_date.0 - s.start_date.0)) / 8 < n.active_mask.len()
    }
}

/// Service `k` runs on `date`: the date lies within its days and the mask
/// bit of that day is set.
pub open spec fn service_active(n: NetworkView, k: int, date: Date) -> bool {
    let s = n.services[k];
    &&& s.start_date.0 <= date.0 <= s.end_date.0
    &&& byte_bit(n.active_mask, s.active_mask.start + (date.0 - s.start_date.0))
}

impl Consumer {
    /// The service at `idx`.
    pub fn service(&self, idx: ServiceIdx) -> (r: &Service)
        requires
            idx.0 < self.services@.len(),
        ensures
            *r == self.services@[idx.0 as int],
    {
        &self.services[idx.0 as usize]
    }

    /// The service whose identifier is `id`. Where the identifier lookup is
    /// in increasing order of identifier, a service it lists with that
    /// identifier is found.
    pub fn service_by_id(&self, id: &str) -> (r: Option<&Service>)
        requires
            runs_within(self.services@, self.service_ids@),
            lookup_valid(self.services@, self.services_id_lookup@),
        ensures
            match r {
                Some(s) => exists|m: int|
                    0 <= m < self.services_id_lookup@.len() && *s == self.services@[self.services_id_lookup@[m].0 as int]
                        && key_at(self.services@, self.services_id_lookup@, self.service_ids@, m) == id.spec_bytes(),
                None => lookup_sorted(self.services@, self.services_id_lookup@, self.service_ids@) ==> forall|m: int|
                    0 <= m < self.services_id_lookup@.len() ==> key_at(
                        self.services@,
                        self.services_id_lookup@,
                        self.service_ids@,
                        m,
                    ) != id.spec_bytes(),
            },
    {
        match search_by_id(
            self.services.as_slice(),
            self.services_id_lookup.as_slice(),
            self.service_ids.as_slice(),
            id.as_bytes(),
        ) {
            Some(m) => Some(self.service(self.services_id_lookup[m])),
            None => None,
        }
    }

    /// The identifier text of the run `id` of the service ids section, where
    /// it is valid UTF-8.
    pub fn service_id(&self, id: ServiceIdSlice) -> (r: Option<&str>)
        requires
            run_fits(self.service_ids@, id),
        ensures
            r is Some <==> valid_utf8(run_entries(self.service_ids@, id)),
            r matches Some(s) ==> s.spec_bytes() == run_entries(self.service_ids@, id),
    {
        text_of(entries(self.service_ids.as_slice(), id))
    }

    /// Whether the service at `idx` runs on `date`.
    pub fn is_service_active(&self, idx: ServiceIdx, date: Date) -> (r: bool)
        requires
            idx.0 < self.services@.len(),
            mask_reachable(self@, idx.0 as int),
        ensures
            r == service_active(self@, idx.0 as int, date),
    {
        let service = self.service(idx);
        if date.0 < service.start_date.0 || date.0 > service.end_date.0 {
            return false;
        }
        let day_offset = date.0 - service.start_date.0;
        let bit_idx = service.active_mask.start + day_offset;
        let byte_idx = (bit_idx / 8) as usize;
        let k = (bit_idx % 8) as u8;
        let b = self.active_mask[byte_idx];
        (b >> (7 - k)) & 1u8 == 1u8
    }
}

} // verus!
