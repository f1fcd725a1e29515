use vstd::prelude::*;

use crate::codec::{push_words, read_word, Record};
use crate::models::idx::StopIdx;
use crate::models::opt::Opt;
use crate::models::time::Duration;

verus! {

/// A transfer between two stops.
#[derive(Debug, Clone, Copy)]
pub struct Transfer {
    /// The stop the transfer leaves.
    pub from_stop_idx: StopIdx,
    /// The stop the transfer reaches.
    pub to_stop_idx: StopIdx,
    /// Time that must be available for the transfer, in seconds.
    pub min_transfer_time: Opt<Duration>,
    /// The kind of connection.
    pub transfer_type: u8,
}

impl Record for Transfer {
    open spec fn spec_word_count() -> nat {
        4
    }

    open spec fn spec_words(&self) -> Seq<u32> {
        seq![
            self.from_stop_idx.0,
            self.to_stop_idx.0,
            self.min_transfer_time.0.0,
            self.transfer_type as u32,
        ]
    }

    open spec fn spec_from_words(ws: Seq<u32>) -> Self {
        Transfer {
            from_stop_idx: StopIdx(ws[0]),
            to_stop_idx: StopIdx(ws[1]),
            min_transfer_time: Opt(Duration(ws[2])),
            transfer_type: (ws[3] as u8),
        }
    }

    proof fn lemma_words_roundtrip(&self) {
        
    }

    fn byte_size() -> (r: usize) {
        16
    }

    fn write_to(&self, buf: &mut Vec<u8>) {
        let ws: [u32; 4] = [
            self.from_stop_idx.0,
            self.to_stop_idx.0,
            self.min_transfer_time.0.0,
            self.transfer_type as u32,
        ];
        assert(ws@ =~= self.spec_words());
        push_words(buf, &ws);
    }

    fn read_from(b: &[u8], pos: usize) -> (r: Self) {
        let _n = b.len();
        Transfer {
            from_stop_idx: StopIdx(read_word(b, pos + 0)),
            to_stop_idx: StopIdx(read_word(b, pos + 4)),
            min_transfer_time: Opt(Duration(read_word(b, pos + 8))),
            transfer_type: (read_word(b, pos + 12) as u8),
        }
    }
}

} // verus!
