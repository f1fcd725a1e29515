use vstd::prelude::*;

use crate::codec::{push_words, read_word, Record};
use crate::models::idx::{RouteIdx, ServiceIdx, TripIdx};
use crate::models::opt::Opt;
use crate::models::slice::{ShapeSlice, StopTimeSlice, StringSlice, TripIdSlice};

verus! {

/// A trip.
#[derive(Debug, Clone, Copy)]
pub struct Trip {
    /// The identifier in the trip ids section.
    pub id: TripIdSlice,
    /// Text on signage identifying the destination.
    pub headsign: Opt<StringSlice>,
    /// The public name of the trip.
    pub short_name: Opt<StringSlice>,
    /// The points of the shape the trip follows.
    pub shape: Opt<ShapeSlice>,
    /// The stop times of the trip.
    pub stop_times: StopTimeSlice,
    /// The position of this trip in the trips table.
    pub idx: TripIdx,
    /// The position of its route.
    pub route_idx: RouteIdx,
    /// The position of its service.
    pub service_idx: ServiceIdx,
}

impl Record for Trip {
    open spec fn spec_word_count() -> nat {
        13
    }

    open spec fn spec_words(&self) -> Seq<u32> {
        seq![
            self.id.start,
            self.id.count,
            self.headsign.0.start,
            self.headsign.0.count,
            self.short_name.0.start,
            self.short_name.0.count,
            self.shape.0.start,
            self.shape.0.count,
            self.stop_times.start,
            self.stop_times.count,
            self.idx.0,
            self.route_idx.0,
            self.service_idx.0,
        ]
    }

    open spec fn spec_from_words(ws: Seq<u32>) -> Self {
        Trip {
            id: TripIdSlice { start: ws[0], count: ws[1] },
            headsign: Opt(StringSlice { start: ws[2], count: ws[3] }),
            short_name: Opt(StringSlice { start: ws[4], count: ws[5] }),
            shape: Opt(ShapeSlice { start: ws[6], count: ws[7] }),
            stop_times: StopTimeSlice { start: ws[8], count: ws[9] },
            idx: TripIdx(ws[10]),
            route_idx: RouteIdx(ws[11]),
            service_idx: ServiceIdx(ws[12]),
        }
    }

    proof fn lemma_words_roundtrip(&self) {
        
    }

    fn byte_size() -> (r: usize) {
        52
    }

    fn write_to(&self, buf: &mut Vec<u8>) {
        let ws: [u32; 13] = [
            self.id.start,
            self.id.count,
            self.headsign.0.start,
            self.headsign.0.count,
            self.short_name.0.start,
            self.short_name.0.count,
            self.shape.0.start,
            self.shape.0.count,
            self.stop_times.start,
            self.stop_times.count,
            self.idx.0,
            self.route_idx.0,
            self.service_idx.0,
        ];
        assert(ws@ =~= self.spec_words());
        push_words(buf, &ws);
    }

    fn read_from(b: &[u8], pos: usize) -> (r: Self) {
        let _n = b.len();
        Trip {
            id: TripIdSlice { start: read_word(b, pos + 0), count: read_word(b, pos + 4) },
            headsign: Opt(StringSlice { start: read_word(b, pos + 8), count: read_word(b, pos + 12) }),
            short_name: Opt(StringSlice { start: read_word(b, pos + 16), count: read_word(b, pos + 20) }),
            shape: Opt(ShapeSlice { start: read_word(b, pos + 24), count: read_word(b, pos + 28) }),
            stop_times: StopTimeSlice { start: read_word(b, pos + 32), count: read_word(b, pos + 36) },
            idx: TripIdx(read_word(b, pos + 40)),
            route_idx: RouteIdx(read_word(b, pos + 44)),
            service_idx: ServiceIdx(read_word(b, pos + 48)),
        }
    }
}

} // verus!
