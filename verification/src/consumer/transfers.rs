//! Queries on transfers between stops.

use vstd::prelude::*;

use crate::consumer::lookup::{all_below, entries, gather, gathered, run_entries, run_fits};
use crate::consumer::Consumer;
use crate::models::idx::{StopIdx, TransferIdx};
use crate::models::Transfer;

verus! {

impl Consumer {
    /// The transfer at `idx`.
    pub fn transfer(&self, idx: TransferIdx) -> (r: &Transfer)
        requires
            idx.0 < self.transfers@.len(),
        ensures
            *r == self.transfers@[idx.0 as int],
    {
        &self.transfers[idx.0 as usize]
    }

    /// The transfers from A to B, by the position of A.
    pub fn outbound_transfers_by_stop(&self, idx: StopIdx) -> (r: &[Transfer])
        requires
            idx.0 < self.stop_to_transfer_out@.len(),
            run_fits(self.transfers@, self.stop_to_transfer_out@[idx.0 as int]),
        ensures
            r@ == run_entries(self.transfers@, self.stop_to_transfer_out@[idx.0 as int]),
    {
        let slice = self.stop_to_transfer_out[idx.0 as usize];
        entries(self.transfers.as_slice(), slice)
    }

    /// The positions of the transfers from A to B, by the position of B.
    pub fn inbound_transfers_by_stop(&self, idx: StopIdx) -> (r: &[TransferIdx])
        requires
            idx.0 < self.stop_to_transfer_in@.len(),
            run_fits(self.transfers_in_indencies@, self.stop_to_transfer_in@[idx.0 as int]),
        ensures
            r@ == run_entries(self.transfers_in_indencies@, self.stop_to_transfer_in@[idx.0 as int]),
    {
        let slice = self.stop_to_transfer_in[idx.0 as usize];
        entries(self.transfers_in_indencies.as_slice(), slice)
    }

    /// The transfers from A to B, by the position of B, as records.
    pub fn iter_inbound_transfers_by_stop(&self, idx: StopIdx) -> (r: Vec<Transfer>)
        requires
            idx.0 < self.stop_to_transfer_in@.len(),
            run_fits(self.transfers_in_indencies@, self.stop_to_transfer_in@[idx.0 as int]),
            all_below(
                run_entries(self.transfers_in_indencies@, self.stop_to_transfer_in@[idx.0 as int]),
                self.transfers@.len(),
            ),
        ensures
            r@ == gathered(
                self.transfers@,
                run_entries(self.transfers_in_indencies@, self.stop_to_transfer_in@[idx.0 as int]),
            ),
    {
        gather(self.transfers.as_slice(), self.inbound_transfers_by_stop(idx))
    }
}

} // verus!
