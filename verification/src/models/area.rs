use vstd::prelude::*;

use crate::codec::{push_words, read_word, Record};
use crate::models::idx::AreaIdx;
use crate::models::slice::{AreaIdSlice, StringSlice};

verus! {

/// A geographic zone.
#[derive(Debug, Clone, Copy)]
pub struct Area {
    /// The identifier.
    pub id: AreaIdSlice,
    /// The name.
    pub name: StringSlice,
    /// The position of this area.
    pub idx: AreaIdx,
}

impl Record for Area {
    open spec fn spec_word_count() -> nat {
        5
    }

    open spec fn spec_words(&self) -> Seq<u32> {
        seq![
            self.id.start,
            self.id.count,
            self.name.start,
            self.name.count,
            self.idx.0,
        ]
    }

    open spec fn spec_from_words(ws: Seq<u32>) -> Self {
        Area {
            id: AreaIdSlice { start: ws[0], count: ws[1] },
            name: StringSlice { start: ws[2], count: ws[3] },
            idx: AreaIdx(ws[4]),
        }
    }

    proof fn lemma_words_roundtrip(&self) {
        
    }

    fn byte_size() -> (r: usize) {
        20
    }

    fn write_to(&self, buf: &mut Vec<u8>) {
        let ws: [u32; 5] = [
            self.id.start,
            self.id.count,
            self.name.start,
            self.name.count,
            self.idx.0,
        ];
        assert(ws@ =~= self.spec_words());
        push_words(buf, &ws);
    }

    fn read_from(b: &[u8], pos: usize) -> (r: Self) {
        let _n = b.len();
        Area {
            id: AreaIdSlice { start: read_word(b, pos + 0), count: read_word(b, pos + 4) },
            name: StringSlice { start: read_word(b, pos + 8), count: read_word(b, pos + 12) },
            idx: AreaIdx(read_word(b, pos + 16)),
        }
    }
}

} // verus!
