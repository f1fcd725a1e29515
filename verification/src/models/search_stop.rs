use vstd::prelude::*;

use crate::codec::{push_words, read_word, Record};
use crate::models::idx::SearchIdx;
use crate::models::route_type::RouteType;
use crate::models::slice::{SearchSlice, StringSlice};

verus! {

/// A named group of stops to search by.
#[derive(Debug, Clone, Copy)]
pub struct SearchStop {
    /// The position of this entry.
    pub idx: SearchIdx,
    /// The shared name.
    pub name: StringSlice,
    /// The stops of the group.
    pub stops: SearchSlice,
    /// Modes of transport serving the group. In the encoding its two bytes
    /// are followed by two zero padding bytes.
    pub route_type: RouteType,
}

impl Record for SearchStop {
    open spec fn spec_word_count() -> nat {
        6
    }

    open spec fn spec_words(&self) -> Seq<u32> {
        seq![
            self.idx.0,
            self.name.start,
            self.name.count,
            self.stops.start,
            self.stops.count,
            self.route_type.0 as u32,
        ]
    }

    open spec fn spec_from_words(ws: Seq<u32>) -> Self {
        SearchStop {
            idx: SearchIdx(ws[0]),
            name: StringSlice { start: ws[1], count: ws[2] },
            stops: SearchSlice { start: ws[3], count: ws[4] },
            route_type: RouteType((ws[5] & 0xffffu32) as u16),
        }
    }

    proof fn lemma_words_roundtrip(&self) {
        let x = self.route_type.0;
        assert(((x as u32) & 0xffffu32) as u16 == x) by (bit_vector);
    }

    fn byte_size() -> (r: usize) {
        24
    }

    fn write_to(&self, buf: &mut Vec<u8>) {
        let ws: [u32; 6] = [
            self.idx.0,
            self.name.start,
            self.name.count,
            self.stops.start,
            self.stops.count,
            self.route_type.0 as u32,
        ];
        assert(ws@ =~= self.spec_words());
        push_words(buf, &ws);
    }

    fn read_from(b: &[u8], pos: usize) -> (r: Self) {
        let _n = b.len();
        SearchStop {
            idx: SearchIdx(read_word(b, pos + 0)),
            name: StringSlice { start: read_word(b, pos + 4), count: read_word(b, pos + 8) },
            stops: SearchSlice { start: read_word(b, pos + 12), count: read_word(b, pos + 16) },
            route_type: RouteType((read_word(b, pos + 20) & 0xffffu32) as u16),
        }
    }
}

impl SearchStop {
    /// The entry of the given fields.
    pub fn new(idx: SearchIdx, name: StringSlice, stops: SearchSlice, route_type: RouteType) -> (r: Self)
        ensures
            r.idx == idx,
            r.name == name,
            r.stops == stops,
            r.route_type == route_type,
    {
        SearchStop { idx, name, stops, route_type }
    }
}

} // verus!
