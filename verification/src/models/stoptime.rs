use vstd::prelude::*;

use crate::codec::{push_words, read_word, Record};
use crate::models::coordinate::Distance;
use crate::models::idx::{StopIdx, StopTimeIdx, TripIdx};
use crate::models::opt::Opt;
use crate::models::slice::StringSlice;
use crate::models::time::Time;

verus! {

/// A stop time: one call of a trip at a stop.
#[derive(Debug, Clone, Copy)]
pub struct StopTime {
    /// Text on signage at this stop.
    pub headsign: Opt<StringSlice>,
    /// The position of this stop time in the stop times table.
    pub idx: StopTimeIdx,
    /// The position of the stop.
    pub stop_idx: StopIdx,
    /// The position of the trip.
    pub trip_idx: TripIdx,
    /// Order of the call within its trip.
    pub sequence: u32,
    /// Arrival time at the stop.
    pub arrival_time: Opt<Time>,
    /// Departure time from the stop.
    pub departure_time: Opt<Time>,
    /// Distance traveled along the shape.
    pub distance_traveled: Opt<Distance>,
}

impl Record for StopTime {
    open spec fn spec_word_count() -> nat {
        9
    }

    open spec fn spec_words(&self) -> Seq<u32> {
        seq![
            self.headsign.0.start,
            self.headsign.0.count,
            self.idx.0,
            self.stop_idx.0,
            self.trip_idx.0,
            self.sequence,
            self.arrival_time.0.0,
            self.departure_time.0.0,
            self.distance_traveled.0.0,
        ]
    }

    open spec fn spec_from_words(ws: Seq<u32>) -> Self {
        StopTime {
            headsign: Opt(StringSlice { start: ws[0], count: ws[1] }),
            idx: StopTimeIdx(ws[2]),
            stop_idx: StopIdx(ws[3]),
            trip_idx: TripIdx(ws[4]),
            sequence: ws[5],
            arrival_time: Opt(Time(ws[6])),
            departure_time: Opt(Time(ws[7])),
            distance_traveled: Opt(Distance(ws[8])),
        }
    }

    proof fn lemma_words_roundtrip(&self) {
        
    }

    fn byte_size() -> (r: usize) {
        36
    }

    fn write_to(&self, buf: &mut Vec<u8>) {
        let ws: [u32; 9] = [
            self.headsign.0.start,
            self.headsign.0.count,
            self.idx.0,
            self.stop_idx.0,
            self.trip_idx.0,
            self.sequence,
            self.arrival_time.0.0,
            self.departure_time.0.0,
            self.distance_traveled.0.0,
        ];
        assert(ws@ =~= self.spec_words());
        push_words(buf, &ws);
    }

    fn read_from(b: &[u8], pos: usize) -> (r: Self) {
        let _n = b.len();
        StopTime {
            headsign: Opt(StringSlice { start: read_word(b, pos + 0), count: read_word(b, pos + 4) }),
            idx: StopTimeIdx(read_word(b, pos + 8)),
            stop_idx: StopIdx(read_word(b, pos + 12)),
            trip_idx: TripIdx(read_word(b, pos + 16)),
            sequence: read_word(b, pos + 20),
            arrival_time: Opt(Time(read_word(b, pos + 24))),
            departure_time: Opt(Time(read_word(b, pos + 28))),
            distance_traveled: Opt(Distance(read_word(b, pos + 32))),
        }
    }
}

} // verus!
