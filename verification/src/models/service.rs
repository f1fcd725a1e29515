use vstd::prelude::*;

use crate::codec::{push_words, read_word, Record};
use crate::models::date::Date;
use crate::models::idx::ServiceIdx;
use crate::models::slice::{ServiceBinarySlice, ServiceIdSlice};
use crate::models::weekday::Weekday;

verus! {

/// A service: the days on which trips run.
#[derive(Debug, Clone, Copy)]
pub struct Service {
    /// The identifier in the service ids section.
    pub id: ServiceIdSlice,
    /// The bits of the active-day mask, one per day from `start_date` on.
    pub active_mask: ServiceBinarySlice,
    /// The position of this service in the services table.
    pub idx: ServiceIdx,
    /// First day of the service interval.
    pub start_date: Date,
    /// Last day of the service interval.
    pub end_date: Date,
    /// Days of the week on which the service runs.
    pub weekdays: Weekday,
}

impl Record for Service {
    open spec fn spec_word_count() -> nat {
        8
    }

    open spec fn spec_words(&self) -> Seq<u32> {
        seq![
            self.id.start,
            self.id.count,
            self.active_mask.start,
            self.active_mask.count,
            self.idx.0,
            self.start_date.0,
            self.end_date.0,
            self.weekdays.0 as u32,
        ]
    }

    open spec fn spec_from_words(ws: Seq<u32>) -> Self {
        Service {
            id: ServiceIdSlice { start: ws[0], count: ws[1] },
            active_mask: ServiceBinarySlice { start: ws[2], count: ws[3] },
            idx: ServiceIdx(ws[4]),
            start_date: Date(ws[5]),
            end_date: Date(ws[6]),
            weekdays: Weekday(ws[7] as u8),
        }
    }

    proof fn lemma_words_roundtrip(&self) {
        
    }

    fn byte_size() -> (r: usize) {
        32
    }

    fn write_to(&self, buf: &mut Vec<u8>) {
        let ws: [u32; 8] = [
            self.id.start,
            self.id.count,
            self.active_mask.start,
            self.active_mask.count,
            self.idx.0,
            self.start_date.0,
            self.end_date.0,
            self.weekdays.0 as u32,
        ];
        assert(ws@ =~= self.spec_words());
        push_words(buf, &ws);
    }

    fn read_from(b: &[u8], pos: usize) -> (r: Self) {
        let _n = b.len();
        Service {
            id: ServiceIdSlice { start: read_word(b, pos + 0), count: read_word(b, pos + 4) },
            active_mask: ServiceBinarySlice { start: read_word(b, pos + 8), count: read_word(b, pos + 12) },
            idx: ServiceIdx(read_word(b, pos + 16)),
            start_date: Date(read_word(b, pos + 20)),
            end_date: Date(read_word(b, pos + 24)),
            weekdays: Weekday(read_word(b, pos + 28) as u8),
        }
    }
}

} // verus!
