use vstd::prelude::*;

use crate::codec::{push_words, read_word, Record};
use crate::models::idx::RouteIdx;
use crate::models::opt::Opt;
use crate::models::route_type::RouteType;
use crate::models::slice::{RouteIdSlice, StringSlice};

verus! {

/// A route.
#[derive(Debug, Clone, Copy)]
pub struct Route {
    /// The identifier in the route ids section.
    pub id: RouteIdSlice,
    /// Full name.
    pub long_name: Opt<StringSlice>,
    /// Short name.
    pub short_name: Opt<StringSlice>,
    /// Description.
    pub description: Opt<StringSlice>,
    /// The position of this route in the routes table.
    pub idx: RouteIdx,
    /// The mode of transport.
    pub route_type: RouteType,
}

impl Record for Route {
    open spec fn spec_word_count() -> nat {
        10
    }

    open spec fn spec_words(&self) -> Seq<u32> {
        seq![
            self.id.start,
            self.id.count,
            self.long_name.0.start,
            self.long_name.0.count,
            self.short_name.0.start,
            self.short_name.0.count,
            self.description.0.start,
            self.description.0.count,
            self.idx.0,
            self.route_type.0 as u32,
        ]
    }

    open spec fn spec_from_words(ws: Seq<u32>) -> Self {
        Route {
            id: RouteIdSlice { start: ws[0], count: ws[1] },
            long_name: Opt(StringSlice { start: ws[2], count: ws[3] }),
            short_name: Opt(StringSlice { start: ws[4], count: ws[5] }),
            description: Opt(StringSlice { start: ws[6], count: ws[7] }),
            idx: RouteIdx(ws[8]),
            route_type: RouteType(ws[9] as u16),
        }
    }

    proof fn lemma_words_roundtrip(&self) {
        
    }

    fn byte_size() -> (r: usize) {
        40
    }

    fn write_to(&self, buf: &mut Vec<u8>) {
        let ws: [u32; 10] = [
            self.id.start,
            self.id.count,
            self.long_name.0.start,
            self.long_name.0.count,
            self.short_name.0.start,
            self.short_name.0.count,
            self.description.0.start,
            self.description.0.count,
            self.idx.0,
            self.route_type.0 as u32,
        ];
        assert(ws@ =~= self.spec_words());
        push_words(buf, &ws);
    }

    fn read_from(b: &[u8], pos: usize) -> (r: Self) {
        let _n = b.len();
        Route {
            id: RouteIdSlice { start: read_word(b, pos + 0), count: read_word(b, pos + 4) },
            long_name: Opt(StringSlice { start: read_word(b, pos + 8), count: read_word(b, pos + 12) }),
            short_name: Opt(StringSlice { start: read_word(b, pos + 16), count: read_word(b, pos + 20) }),
            description: Opt(StringSlice { start: read_word(b, pos + 24), count: read_word(b, pos + 28) }),
            idx: RouteIdx(read_word(b, pos + 32)),
            route_type: RouteType(read_word(b, pos + 36) as u16),
        }
    }
}

} // verus!
