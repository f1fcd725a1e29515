use vstd::prelude::*;

use crate::codec::{push_words, read_word, Record};
use crate::models::idx::TripPatternIdx;
use crate::models::slice::{StopSlice, TripSlice};

verus! {

/// A sequence of stops shared by one or more trips.
#[derive(Debug, Clone, Copy)]
pub struct TripPattern {
    /// The stops of the pattern, in order.
    pub stops: StopSlice,
    /// The trips that call at exactly these stops.
    pub trips: TripSlice,
    /// The position of this pattern in the trip patterns table.
    pub idx: TripPatternIdx,
}

impl Record for TripPattern {
    open spec fn spec_word_count() -> nat {
        5
    }

    open spec fn spec_words(&self) -> Seq<u32> {
        seq![
            self.stops.start,
            self.stops.count,
            self.trips.start,
            self.trips.count,
            self.idx.0,
        ]
    }

    open spec fn spec_from_words(ws: Seq<u32>) -> Self {
        TripPattern {
            stops: StopSlice { start: ws[0], count: ws[1] },
            trips: TripSlice { start: ws[2], count: ws[3] },
            idx: TripPatternIdx(ws[4]),
        }
    }

    proof fn lemma_words_roundtrip(&self) {
        
    }

    fn byte_size() -> (r: usize) {
        20
    }

    fn write_to(&self, buf: &mut Vec<u8>) {
        let ws: [u32; 5] = [
            self.stops.start,
            self.stops.count,
            self.trips.start,
            self.trips.count,
            self.idx.0,
        ];
        assert(ws@ =~= self.spec_words());
        push_words(buf, &ws);
    }

    fn read_from(b: &[u8], pos: usize) -> (r: Self) {
        let _n = b.len();
        TripPattern {
            stops: StopSlice { start: read_word(b, pos + 0), count: read_word(b, pos + 4) },
            trips: TripSlice { start: read_word(b, pos + 8), count: read_word(b, pos + 12) },
            idx: TripPatternIdx(read_word(b, pos + 16)),
        }
    }
}

} // verus!
