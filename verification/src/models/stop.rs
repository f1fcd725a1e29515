use vstd::prelude::*;

use crate::codec::{bits_i32, i32_bits, lemma_i32_bits, push_words, read_word, Record};
use crate::models::coordinate::Coordinate;
use crate::models::idx::StopIdx;
use crate::models::location_type::LocationType;
use crate::models::opt::Opt;
use crate::models::slice::{StopIdSlice, StringSlice};

verus! {

/// A stop, station or entrance.
#[derive(Debug, Clone, Copy)]
pub struct Stop {
    /// The geographic location.
    pub coordinate: Opt<Coordinate>,
    /// The identifier in the stop ids section.
    pub id: StopIdSlice,
    /// Short text or number that identifies the stop to riders.
    pub code: Opt<StringSlice>,
    /// The name of the location.
    pub name: Opt<StringSlice>,
    /// A description of the location.
    pub desc: Opt<StringSlice>,
    /// The position of this stop in the stops table.
    pub idx: StopIdx,
    /// The position of the parent station, if there is one.
    pub parent_idx: Opt<StopIdx>,
    /// The kind of location.
    pub location_type: LocationType,
}

impl Record for Stop {
    open spec fn spec_word_count() -> nat {
        13
    }

    open spec fn spec_words(&self) -> Seq<u32> {
        seq![
            i32_bits(self.coordinate.0.packed_latitude),
            i32_bits(self.coordinate.0.packed_longitude),
            self.id.start,
            self.id.count,
            self.code.0.start,
            self.code.0.count,
            self.name.0.start,
            self.name.0.count,
            self.desc.0.start,
            self.desc.0.count,
            self.idx.0,
            self.parent_idx.0.0,
            self.location_type.0 as u32,
        ]
    }

    open spec fn spec_from_words(ws: Seq<u32>) -> Self {
        Stop {
            coordinate: Opt(Coordinate { packed_latitude: bits_i32(ws[0]), packed_longitude: bits_i32(ws[1]) }),
            id: StopIdSlice { start: ws[2], count: ws[3] },
            code: Opt(StringSlice { start: ws[4], count: ws[5] }),
            name: Opt(StringSlice { start: ws[6], count: ws[7] }),
            desc: Opt(StringSlice { start: ws[8], count: ws[9] }),
            idx: StopIdx(ws[10]),
            parent_idx: Opt(StopIdx(ws[11])),
            location_type: LocationType(ws[12] as u8),
        }
    }

    proof fn lemma_words_roundtrip(&self) {
        lemma_i32_bits(self.coordinate.0.packed_latitude);
        lemma_i32_bits(self.coordinate.0.packed_longitude);
    }

    fn byte_size() -> (r: usize) {
        52
    }

    fn write_to(&self, buf: &mut Vec<u8>) {
        let ws: [u32; 13] = [
            (self.coordinate.0.packed_latitude as u32),
            (self.coordinate.0.packed_longitude as u32),
            self.id.start,
            self.id.count,
            self.code.0.start,
            self.code.0.count,
            self.name.0.start,
            self.name.0.count,
            self.desc.0.start,
            self.desc.0.count,
            self.idx.0,
            self.parent_idx.0.0,
            self.location_type.0 as u32,
        ];
        assert(ws@ =~= self.spec_words());
        push_words(buf, &ws);
    }

    fn read_from(b: &[u8], pos: usize) -> (r: Self) {
        let _n = b.len();
        Stop {
            coordinate: Opt(Coordinate { packed_latitude: (read_word(b, pos + 0) as i32), packed_longitude: (read_word(b, pos + 4) as i32) }),
            id: StopIdSlice { start: read_word(b, pos + 8), count: read_word(b, pos + 12) },
            code: Opt(StringSlice { start: read_word(b, pos + 16), count: read_word(b, pos + 20) }),
            name: Opt(StringSlice { start: read_word(b, pos + 24), count: read_word(b, pos + 28) }),
            desc: Opt(StringSlice { start: read_word(b, pos + 32), count: read_word(b, pos + 36) }),
            idx: StopIdx(read_word(b, pos + 40)),
            parent_idx: Opt(StopIdx(read_word(b, pos + 44))),
            location_type: LocationType(read_word(b, pos + 48) as u8),
        }
    }
}

} // verus!
