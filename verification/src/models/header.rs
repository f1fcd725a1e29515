use vstd::prelude::*;

use crate::codec::{push_words, read_word, read_words, Record};


verus! {

/// Where a table lies in the file: its byte offset and number of entries.
#[derive(Debug, Clone, Copy)]
pub struct Section {
    /// Byte offset of the first entry.
    pub offset: u64,
    /// Number of entries.
    pub count: u64,
}

impl Record for Section {
    open spec fn spec_word_count() -> nat {
        4
    }

    open spec fn spec_words(&self) -> Seq<u32> {
        seq![
            (self.offset % 0x1_0000_0000) as u32,
            (self.offset / 0x1_0000_0000) as u32,
            (self.count % 0x1_0000_0000) as u32,
            (self.count / 0x1_0000_0000) as u32,
        ]
    }

    open spec fn spec_from_words(ws: Seq<u32>) -> Self {
        Section {
            offset: (ws[0] + ws[1] * 0x1_0000_0000) as u64,
            count: (ws[2] + ws[3] * 0x1_0000_0000) as u64,
        }
    }

    proof fn lemma_words_roundtrip(&self) {
        
    }

    fn byte_size() -> (r: usize) {
        16
    }

    fn write_to(&self, buf: &mut Vec<u8>) {
        let ws: [u32; 4] = [
            (self.offset % 0x1_0000_0000) as u32,
            (self.offset / 0x1_0000_0000) as u32,
            (self.count % 0x1_0000_0000) as u32,
            (self.count / 0x1_0000_0000) as u32,
        ];
        assert(ws@ =~= self.spec_words());
        push_words(buf, &ws);
    }

    fn read_from(b: &[u8], pos: usize) -> (r: Self) {
        let _n = b.len();
        Section {
            offset: (read_word(b, pos + 0) as u64 + (read_word(b, pos + 4) as u64) * 0x1_0000_0000),
            count: (read_word(b, pos + 8) as u64 + (read_word(b, pos + 12) as u64) * 0x1_0000_0000),
        }
    }
}

/// The first bytes of a compiled file: magic, version and the place of every table.
#[derive(Debug, Clone, Copy)]
pub struct Header {
    /// The bytes `GTFS`, read as a little-endian word.
    pub magic: u32,
    /// The format version.
    pub version: u32,
    /// The `stops` table.
    pub stops: Section,
    /// The `stop_ids` table.
    pub stop_ids: Section,
    /// The `stops_id_lookup` table.
    pub stops_id_lookup: Section,
    /// The `routes` table.
    pub routes: Section,
    /// The `route_ids` table.
    pub route_ids: Section,
    /// The `route_id_lookup` table.
    pub route_id_lookup: Section,
    /// The `trips` table.
    pub trips: Section,
    /// The `trip_ids` table.
    pub trip_ids: Section,
    /// The `trip_id_lookup` table.
    pub trip_id_lookup: Section,
    /// The `services` table.
    pub services: Section,
    /// The `service_ids` table.
    pub service_ids: Section,
    /// The `service_id_lookup` table.
    pub service_id_lookup: Section,
    /// The `active_mask` table.
    pub active_mask: Section,
    /// The `stop_times` table.
    pub stop_times: Section,
    /// The `shapes` table.
    pub shapes: Section,
    /// The `trip_patterns` table.
    pub trip_patterns: Section,
    /// The `trip_patterns_stop_seq` table.
    pub trip_patterns_stop_seq: Section,
    /// The `trip_patterns_trip_seq` table.
    pub trip_patterns_trip_seq: Section,
    /// The `trip_to_trip_pattern` table.
    pub trip_to_trip_pattern: Section,
    /// The `stop_to_trip_pattern` table.
    pub stop_to_trip_pattern: Section,
    /// The `stop_to_trip_pattern_lookup` table.
    pub stop_to_trip_pattern_lookup: Section,
    /// The `route_to_trips` table.
    pub route_to_trips: Section,
    /// The `route_to_trips_lookup` table.
    pub route_to_trips_lookup: Section,
    /// The `stop_to_trips` table.
    pub stop_to_trips: Section,
    /// The `stop_to_trips_lookup` table.
    pub stop_to_trips_lookup: Section,
    /// The `search_stops` table.
    pub search_stops: Section,
    /// The `search_to_stops` table.
    pub search_to_stops: Section,
    /// The `transfers` table.
    pub transfers: Section,
    /// The `stop_to_transfers_out` table.
    pub stop_to_transfers_out: Section,
    /// The `transfers_in_indencies` table.
    pub transfers_in_indencies: Section,
    /// The `stop_to_transfers_in` table.
    pub stop_to_transfers_in: Section,
    /// The `strings` table.
    pub strings: Section,
}

impl Record for Header {
    open spec fn spec_word_count() -> nat {
        130
    }

    open spec fn spec_words(&self) -> Seq<u32> {
        seq![
            self.magic,
            self.version,
            (self.stops.offset % 0x1_0000_0000) as u32,
            (self.stops.offset / 0x1_0000_0000) as u32,
            (self.stops.count % 0x1_0000_0000) as u32,
            (self.stops.count / 0x1_0000_0000) as u32,
            (self.stop_ids.offset % 0x1_0000_0000) as u32,
            (self.stop_ids.offset / 0x1_0000_0000) as u32,
            (self.stop_ids.count % 0x1_0000_0000) as u32,
            (self.stop_ids.count / 0x1_0000_0000) as u32,
            (self.stops_id_lookup.offset % 0x1_0000_0000) as u32,
            (self.stops_id_lookup.offset / 0x1_0000_0000) as u32,
            (self.stops_id_lookup.count % 0x1_0000_0000) as u32,
            (self.stops_id_lookup.count / 0x1_0000_0000) as u32,
            (self.routes.offset % 0x1_0000_0000) as u32,
            (self.routes.offset / 0x1_0000_0000) as u32,
            (self.routes.count % 0x1_0000_0000) as u32,
            (self.routes.count / 0x1_0000_0000) as u32,
            (self.route_ids.offset % 0x1_0000_0000) as u32,
            (self.route_ids.offset / 0x1_0000_0000) as u32,
            (self.route_ids.count % 0x1_0000_0000) as u32,
            (self.route_ids.count / 0x1_0000_0000) as u32,
            (self.route_id_lookup.offset % 0x1_0000_0000) as u32,
            (self.route_id_lookup.offset / 0x1_0000_0000) as u32,
            (self.route_id_lookup.count % 0x1_0000_0000) as u32,
            (self.route_id_lookup.count / 0x1_0000_0000) as u32,
            (self.trips.offset % 0x1_0000_0000) as u32,
            (self.trips.offset / 0x1_0000_0000) as u32,
            (self.trips.count % 0x1_0000_0000) as u32,
            (self.trips.count / 0x1_0000_0000) as u32,
            (self.trip_ids.offset % 0x1_0000_0000) as u32,
            (self.trip_ids.offset / 0x1_0000_0000) as u32,
            (self.trip_ids.count % 0x1_0000_0000) as u32,
            (self.trip_ids.count / 0x1_0000_0000) as u32,
            (self.trip_id_lookup.offset % 0x1_0000_0000) as u32,
            (self.trip_id_lookup.offset / 0x1_0000_0000) as u32,
            (self.trip_id_lookup.count % 0x1_0000_0000) as u32,
            (self.trip_id_lookup.count / 0x1_0000_0000) as u32,
            (self.services.offset % 0x1_0000_0000) as u32,
            (self.services.offset / 0x1_0000_0000) as u32,
            (self.services.count % 0x1_0000_0000) as u32,
            (self.services.count / 0x1_0000_0000) as u32,
            (self.service_ids.offset % 0x1_0000_0000) as u32,
            (self.service_ids.offset / 0x1_0000_0000) as u32,
            (self.service_ids.count % 0x1_0000_0000) as u32,
            (self.service_ids.count / 0x1_0000_0000) as u32,
            (self.service_id_lookup.offset % 0x1_0000_0000) as u32,
            (self.service_id_lookup.offset / 0x1_0000_0000) as u32,
            (self.service_id_lookup.count % 0x1_0000_0000) as u32,
            (self.service_id_lookup.count / 0x1_0000_0000) as u32,
            (self.active_mask.offset % 0x1_0000_0000) as u32,
            (self.active_mask.offset / 0x1_0000_0000) as u32,
            (self.active_mask.count % 0x1_0000_0000) as u32,
            (self.active_mask.count / 0x1_0000_0000) as u32,
            (self.stop_times.offset % 0x1_0000_0000) as u32,
            (self.stop_times.offset / 0x1_0000_0000) as u32,
            (self.stop_times.count % 0x1_0000_0000) as u32,
            (self.stop_times.count / 0x1_0000_0000) as u32,
            (self.shapes.offset % 0x1_0000_0000) as u32,
            (self.shapes.offset / 0x1_0000_0000) as u32,
            (self.shapes.count % 0x1_0000_0000) as u32,
            (self.shapes.count / 0x1_0000_0000) as u32,
            (self.trip_patterns.offset % 0x1_0000_0000) as u32,
            (self.trip_patterns.offset / 0x1_0000_0000) as u32,
            (self.trip_patterns.count % 0x1_0000_0000) as u32,
            (self.trip_patterns.count / 0x1_0000_0000) as u32,
            (self.trip_patterns_stop_seq.offset % 0x1_0000_0000) as u32,
            (self.trip_patterns_stop_seq.offset / 0x1_0000_0000) as u32,
            (self.trip_patterns_stop_seq.count % 0x1_0000_0000) as u32,
            (self.trip_patterns_stop_seq.count / 0x1_0000_0000) as u32,
            (self.trip_patterns_trip_seq.offset % 0x1_0000_0000) as u32,
            (self.trip_patterns_trip_seq.offset / 0x1_0000_0000) as u32,
            (self.trip_patterns_trip_seq.count % 0x1_0000_0000) as u32,
            (self.trip_patterns_trip_seq.count / 0x1_0000_0000) as u32,
            (self.trip_to_trip_pattern.offset % 0x1_0000_0000) as u32,
            (self.trip_to_trip_pattern.offset / 0x1_0000_0000) as u32,
            (self.trip_to_trip_pattern.count % 0x1_0000_0000) as u32,
            (self.trip_to_trip_pattern.count / 0x1_0000_0000) as u32,
            (self.stop_to_trip_pattern.offset % 0x1_0000_0000) as u32,
            (self.stop_to_trip_pattern.offset / 0x1_0000_0000) as u32,
            (self.stop_to_trip_pattern.count % 0x1_0000_0000) as u32,
            (self.stop_to_trip_pattern.count / 0x1_0000_0000) as u32,
            (self.stop_to_trip_pattern_lookup.offset % 0x1_0000_0000) as u32,
            (self.stop_to_trip_pattern_lookup.offset / 0x1_0000_0000) as u32,
            (self.stop_to_trip_pattern_lookup.count % 0x1_0000_0000) as u32,
            (self.stop_to_trip_pattern_lookup.count / 0x1_0000_0000) as u32,
            (self.route_to_trips.offset % 0x1_0000_0000) as u32,
            (self.route_to_trips.offset / 0x1_0000_0000) as u32,
            (self.route_to_trips.count % 0x1_0000_0000) as u32,
            (self.route_to_trips.count / 0x1_0000_0000) as u32,
            (self.route_to_trips_lookup.offset % 0x1_0000_0000) as u32,
            (self.route_to_trips_lookup.offset / 0x1_0000_0000) as u32,
            (self.route_to_trips_lookup.count % 0x1_0000_0000) as u32,
            (self.route_to_trips_lookup.count / 0x1_0000_0000) as u32,
            (self.stop_to_trips.offset % 0x1_0000_0000) as u32,
            (self.stop_to_trips.offset / 0x1_0000_0000) as u32,
            (self.stop_to_trips.count % 0x1_0000_0000) as u32,
            (self.stop_to_trips.count / 0x1_0000_0000) as u32,
            (self.stop_to_trips_lookup.offset % 0x1_0000_0000) as u32,
            (self.stop_to_trips_lookup.offset / 0x1_0000_0000) as u32,
            (self.stop_to_trips_lookup.count % 0x1_0000_0000) as u32,
            (self.stop_to_trips_lookup.count / 0x1_0000_0000) as u32,
            (self.search_stops.offset % 0x1_0000_0000) as u32,
            (self.search_stops.offset / 0x1_0000_0000) as u32,
            (self.search_stops.count % 0x1_0000_0000) as u32,
            (self.search_stops.count / 0x1_0000_0000) as u32,
            (self.search_to_stops.offset % 0x1_0000_0000) as u32,
            (self.search_to_stops.offset / 0x1_0000_0000) as u32,
            (self.search_to_stops.count % 0x1_0000_0000) as u32,
            (self.search_to_stops.count / 0x1_0000_0000) as u32,
            (self.transfers.offset % 0x1_0000_0000) as u32,
            (self.transfers.offset / 0x1_0000_0000) as u32,
            (self.transfers.count % 0x1_0000_0000) as u32,
            (self.transfers.count / 0x1_0000_0000) as u32,
            (self.stop_to_transfers_out.offset % 0x1_0000_0000) as u32,
            (self.stop_to_transfers_out.offset / 0x1_0000_0000) as u32,
            (self.stop_to_transfers_out.count % 0x1_0000_0000) as u32,
            (self.stop_to_transfers_out.count / 0x1_0000_0000) as u32,
            (self.transfers_in_indencies.offset % 0x1_0000_0000) as u32,
            (self.transfers_in_indencies.offset / 0x1_0000_0000) as u32,
            (self.transfers_in_indencies.count % 0x1_0000_0000) as u32,
            (self.transfers_in_indencies.count / 0x1_0000_0000) as u32,
            (self.stop_to_transfers_in.offset % 0x1_0000_0000) as u32,
            (self.stop_to_transfers_in.offset / 0x1_0000_0000) as u32,
            (self.stop_to_transfers_in.count % 0x1_0000_0000) as u32,
            (self.stop_to_transfers_in.count / 0x1_0000_0000) as u32,
            (self.strings.offset % 0x1_0000_0000) as u32,
            (self.strings.offset / 0x1_0000_0000) as u32,
            (self.strings.count % 0x1_0000_0000) as u32,
            (self.strings.count / 0x1_0000_0000) as u32,
        ]
    }

    open spec fn spec_from_words(ws: Seq<u32>) -> Self {
        Header {
            magic: ws[0],
            version: ws[1],
            stops: Section { offset: (ws[2] + ws[3] * 0x1_0000_0000) as u64, count: (ws[4] + ws[5] * 0x1_0000_0000) as u64 },
            stop_ids: Section { offset: (ws[6] + ws[7] * 0x1_0000_0000) as u64, count: (ws[8] + ws[9] * 0x1_0000_0000) as u64 },
            stops_id_lookup: Section { offset: (ws[10] + ws[11] * 0x1_0000_0000) as u64, count: (ws[12] + ws[13] * 0x1_0000_0000) as u64 },
            routes: Section { offset: (ws[14] + ws[15] * 0x1_0000_0000) as u64, count: (ws[16] + ws[17] * 0x1_0000_0000) as u64 },
            route_ids: Section { offset: (ws[18] + ws[19] * 0x1_0000_0000) as u64, count: (ws[20] + ws[21] * 0x1_0000_0000) as u64 },
            route_id_lookup: Section { offset: (ws[22] + ws[23] * 0x1_0000_0000) as u64, count: (ws[24] + ws[25] * 0x1_0000_0000) as u64 },
            trips: Section { offset: (ws[26] + ws[27] * 0x1_0000_0000) as u64, count: (ws[28] + ws[29] * 0x1_0000_0000) as u64 },
            trip_ids: Section { offset: (ws[30] + ws[31] * 0x1_0000_0000) as u64, count: (ws[32] + ws[33] * 0x1_0000_0000) as u64 },
            trip_id_lookup: Section { offset: (ws[34] + ws[35] * 0x1_0000_0000) as u64, count: (ws[36] + ws[37] * 0x1_0000_0000) as u64 },
            services: Section { offset: (ws[38] + ws[39] * 0x1_0000_0000) as u64, count: (ws[40] + ws[41] * 0x1_0000_0000) as u64 },
            service_ids: Section { offset: (ws[42] + ws[43] * 0x1_0000_0000) as u64, count: (ws[44] + ws[45] * 0x1_0000_0000) as u64 },
            service_id_lookup: Section { offset: (ws[46] + ws[47] * 0x1_0000_0000) as u64, count: (ws[48] + ws[49] * 0x1_0000_0000) as u64 },
            active_mask: Section { offset: (ws[50] + ws[51] * 0x1_0000_0000) as u64, count: (ws[52] + ws[53] * 0x1_0000_0000) as u64 },
            stop_times: Section { offset: (ws[54] + ws[55] * 0x1_0000_0000) as u64, count: (ws[56] + ws[57] * 0x1_0000_0000) as u64 },
            shapes: Section { offset: (ws[58] + ws[59] * 0x1_0000_0000) as u64, count: (ws[60] + ws[61] * 0x1_0000_0000) as u64 },
            trip_patterns: Section { offset: (ws[62] + ws[63] * 0x1_0000_0000) as u64, count: (ws[64] + ws[65] * 0x1_0000_0000) as u64 },
            trip_patterns_stop_seq: Section { offset: (ws[66] + ws[67] * 0x1_0000_0000) as u64, count: (ws[68] + ws[69] * 0x1_0000_0000) as u64 },
            trip_patterns_trip_seq: Section { offset: (ws[70] + ws[71] * 0x1_0000_0000) as u64, count: (ws[72] + ws[73] * 0x1_0000_0000) as u64 },
            trip_to_trip_pattern: Section { offset: (ws[74] + ws[75] * 0x1_0000_0000) as u64, count: (ws[76] + ws[77] * 0x1_0000_0000) as u64 },
            stop_to_trip_pattern: Section { offset: (ws[78] + ws[79] * 0x1_0000_0000) as u64, count: (ws[80] + ws[81] * 0x1_0000_0000) as u64 },
            stop_to_trip_pattern_lookup: Section { offset: (ws[82] + ws[83] * 0x1_0000_0000) as u64, count: (ws[84] + ws[85] * 0x1_0000_0000) as u64 },
            route_to_trips: Section { offset: (ws[86] + ws[87] * 0x1_0000_0000) as u64, count: (ws[88] + ws[89] * 0x1_0000_0000) as u64 },
            route_to_trips_lookup: Section { offset: (ws[90] + ws[91] * 0x1_0000_0000) as u64, count: (ws[92] + ws[93] * 0x1_0000_0000) as u64 },
            stop_to_trips: Section { offset: (ws[94] + ws[95] * 0x1_0000_0000) as u64, count: (ws[96] + ws[97] * 0x1_0000_0000) as u64 },
            stop_to_trips_lookup: Section { offset: (ws[98] + ws[99] * 0x1_0000_0000) as u64, count: (ws[100] + ws[101] * 0x1_0000_0000) as u64 },
            search_stops: Section { offset: (ws[102] + ws[103] * 0x1_0000_0000) as u64, count: (ws[104] + ws[105] * 0x1_0000_0000) as u64 },
            search_to_stops: Section { offset: (ws[106] + ws[107] * 0x1_0000_0000) as u64, count: (ws[108] + ws[109] * 0x1_0000_0000) as u64 },
            transfers: Section { offset: (ws[110] + ws[111] * 0x1_0000_0000) as u64, count: (ws[112] + ws[113] * 0x1_0000_0000) as u64 },
            stop_to_transfers_out: Section { offset: (ws[114] + ws[115] * 0x1_0000_0000) as u64, count: (ws[116] + ws[117] * 0x1_0000_0000) as u64 },
            transfers_in_indencies: Section { offset: (ws[118] + ws[119] * 0x1_0000_0000) as u64, count: (ws[120] + ws[121] * 0x1_0000_0000) as u64 },
            stop_to_transfers_in: Section { offset: (ws[122] + ws[123] * 0x1_0000_0000) as u64, count: (ws[124] + ws[125] * 0x1_0000_0000) as u64 },
            strings: Section { offset: (ws[126] + ws[127] * 0x1_0000_0000) as u64, count: (ws[128] + ws[129] * 0x1_0000_0000) as u64 },
        }
    }

    proof fn lemma_words_roundtrip(&self) {
        
    }

    fn byte_size() -> (r: usize) {
        520
    }

    fn write_to(&self, buf: &mut Vec<u8>) {
        let ws: [u32; 130] = [
            self.magic,
            self.version,
            (self.stops.offset % 0x1_0000_0000) as u32,
            (self.stops.offset / 0x1_0000_0000) as u32,
            (self.stops.count % 0x1_0000_0000) as u32,
            (self.stops.count / 0x1_0000_0000) as u32,
            (self.stop_ids.offset % 0x1_0000_0000) as u32,
            (self.stop_ids.offset / 0x1_0000_0000) as u32,
            (self.stop_ids.count % 0x1_0000_0000) as u32,
            (self.stop_ids.count / 0x1_0000_0000) as u32,
            (self.stops_id_lookup.offset % 0x1_0000_0000) as u32,
            (self.stops_id_lookup.offset / 0x1_0000_0000) as u32,
            (self.stops_id_lookup.count % 0x1_0000_0000) as u32,
            (self.stops_id_lookup.count / 0x1_0000_0000) as u32,
            (self.routes.offset % 0x1_0000_0000) as u32,
            (self.routes.offset / 0x1_0000_0000) as u32,
            (self.routes.count % 0x1_0000_0000) as u32,
            (self.routes.count / 0x1_0000_0000) as u32,
            (self.route_ids.offset % 0x1_0000_0000) as u32,
            (self.route_ids.offset / 0x1_0000_0000) as u32,
            (self.route_ids.count % 0x1_0000_0000) as u32,
            (self.route_ids.count / 0x1_0000_0000) as u32,
            (self.route_id_lookup.offset % 0x1_0000_0000) as u32,
            (self.route_id_lookup.offset / 0x1_0000_0000) as u32,
            (self.route_id_lookup.count % 0x1_0000_0000) as u32,
            (self.route_id_lookup.count / 0x1_0000_0000) as u32,
            (self.trips.offset % 0x1_0000_0000) as u32,
            (self.trips.offset / 0x1_0000_0000) as u32,
            (self.trips.count % 0x1_0000_0000) as u32,
            (self.trips.count / 0x1_0000_0000) as u32,
            (self.trip_ids.offset % 0x1_0000_0000) as u32,
            (self.trip_ids.offset / 0x1_0000_0000) as u32,
            (self.trip_ids.count % 0x1_0000_0000) as u32,
            (self.trip_ids.count / 0x1_0000_0000) as u32,
            (self.trip_id_lookup.offset % 0x1_0000_0000) as u32,
            (self.trip_id_lookup.offset / 0x1_0000_0000) as u32,
            (self.trip_id_lookup.count % 0x1_0000_0000) as u32,
            (self.trip_id_lookup.count / 0x1_0000_0000) as u32,
            (self.services.offset % 0x1_0000_0000) as u32,
            (self.services.offset / 0x1_0000_0000) as u32,
            (self.services.count % 0x1_0000_0000) as u32,
            (self.services.count / 0x1_0000_0000) as u32,
            (self.service_ids.offset % 0x1_0000_0000) as u32,
            (self.service_ids.offset / 0x1_0000_0000) as u32,
            (self.service_ids.count % 0x1_0000_0000) as u32,
            (self.service_ids.count / 0x1_0000_0000) as u32,
            (self.service_id_lookup.offset % 0x1_0000_0000) as u32,
            (self.service_id_lookup.offset / 0x1_0000_0000) as u32,
            (self.service_id_lookup.count % 0x1_0000_0000) as u32,
            (self.service_id_lookup.count / 0x1_0000_0000) as u32,
            (self.active_mask.offset % 0x1_0000_0000) as u32,
            (self.active_mask.offset / 0x1_0000_0000) as u32,
            (self.active_mask.count % 0x1_0000_0000) as u32,
            (self.active_mask.count / 0x1_0000_0000) as u32,
            (self.stop_times.offset % 0x1_0000_0000) as u32,
            (self.stop_times.offset / 0x1_0000_0000) as u32,
            (self.stop_times.count % 0x1_0000_0000) as u32,
            (self.stop_times.count / 0x1_0000_0000) as u32,
            (self.shapes.offset % 0x1_0000_0000) as u32,
            (self.shapes.offset / 0x1_0000_0000) as u32,
            (self.shapes.count % 0x1_0000_0000) as u32,
            (self.shapes.count / 0x1_0000_0000) as u32,
            (self.trip_patterns.offset % 0x1_0000_0000) as u32,
            (self.trip_patterns.offset / 0x1_0000_0000) as u32,
            (self.trip_patterns.count % 0x1_0000_0000) as u32,
            (self.trip_patterns.count / 0x1_0000_0000) as u32,
            (self.trip_patterns_stop_seq.offset % 0x1_0000_0000) as u32,
            (self.trip_patterns_stop_seq.offset / 0x1_0000_0000) as u32,
            (self.trip_patterns_stop_seq.count % 0x1_0000_0000) as u32,
            (self.trip_patterns_stop_seq.count / 0x1_0000_0000) as u32,
            (self.trip_patterns_trip_seq.offset % 0x1_0000_0000) as u32,
            (self.trip_patterns_trip_seq.offset / 0x1_0000_0000) as u32,
            (self.trip_patterns_trip_seq.count % 0x1_0000_0000) as u32,
            (self.trip_patterns_trip_seq.count / 0x1_0000_0000) as u32,
            (self.trip_to_trip_pattern.offset % 0x1_0000_0000) as u32,
            (self.trip_to_trip_pattern.offset / 0x1_0000_0000) as u32,
            (self.trip_to_trip_pattern.count % 0x1_0000_0000) as u32,
            (self.trip_to_trip_pattern.count / 0x1_0000_0000) as u32,
            (self.stop_to_trip_pattern.offset % 0x1_0000_0000) as u32,
            (self.stop_to_trip_pattern.offset / 0x1_0000_0000) as u32,
            (self.stop_to_trip_pattern.count % 0x1_0000_0000) as u32,
            (self.stop_to_trip_pattern.count / 0x1_0000_0000) as u32,
            (self.stop_to_trip_pattern_lookup.offset % 0x1_0000_0000) as u32,
            (self.stop_to_trip_pattern_lookup.offset / 0x1_0000_0000) as u32,
            (self.stop_to_trip_pattern_lookup.count % 0x1_0000_0000) as u32,
            (self.stop_to_trip_pattern_lookup.count / 0x1_0000_0000) as u32,
            (self.route_to_trips.offset % 0x1_0000_0000) as u32,
            (self.route_to_trips.offset / 0x1_0000_0000) as u32,
            (self.route_to_trips.count % 0x1_0000_0000) as u32,
            (self.route_to_trips.count / 0x1_0000_0000) as u32,
            (self.route_to_trips_lookup.offset % 0x1_0000_0000) as u32,
            (self.route_to_trips_lookup.offset / 0x1_0000_0000) as u32,
            (self.route_to_trips_lookup.count % 0x1_0000_0000) as u32,
            (self.route_to_trips_lookup.count / 0x1_0000_0000) as u32,
            (self.stop_to_trips.offset % 0x1_0000_0000) as u32,
            (self.stop_to_trips.offset / 0x1_0000_0000) as u32,
            (self.stop_to_trips.count % 0x1_0000_0000) as u32,
            (self.stop_to_trips.count / 0x1_0000_0000) as u32,
            (self.stop_to_trips_lookup.offset % 0x1_0000_0000) as u32,
            (self.stop_to_trips_lookup.offset / 0x1_0000_0000) as u32,
            (self.stop_to_trips_lookup.count % 0x1_0000_0000) as u32,
            (self.stop_to_trips_lookup.count / 0x1_0000_0000) as u32,
            (self.search_stops.offset % 0x1_0000_0000) as u32,
            (self.search_stops.offset / 0x1_0000_0000) as u32,
            (self.search_stops.count % 0x1_0000_0000) as u32,
            (self.search_stops.count / 0x1_0000_0000) as u32,
            (self.search_to_stops.offset % 0x1_0000_0000) as u32,
            (self.search_to_stops.offset / 0x1_0000_0000) as u32,
            (self.search_to_stops.count % 0x1_0000_0000) as u32,
            (self.search_to_stops.count / 0x1_0000_0000) as u32,
            (self.transfers.offset % 0x1_0000_0000) as u32,
            (self.transfers.offset / 0x1_0000_0000) as u32,
            (self.transfers.count % 0x1_0000_0000) as u32,
            (self.transfers.count / 0x1_0000_0000) as u32,
            (self.stop_to_transfers_out.offset % 0x1_0000_0000) as u32,
            (self.stop_to_transfers_out.offset / 0x1_0000_0000) as u32,
            (self.stop_to_transfers_out.count % 0x1_0000_0000) as u32,
            (self.stop_to_transfers_out.count / 0x1_0000_0000) as u32,
            (self.transfers_in_indencies.offset % 0x1_0000_0000) as u32,
            (self.transfers_in_indencies.offset / 0x1_0000_0000) as u32,
            (self.transfers_in_indencies.count % 0x1_0000_0000) as u32,
            (self.transfers_in_indencies.count / 0x1_0000_0000) as u32,
            (self.stop_to_transfers_in.offset % 0x1_0000_0000) as u32,
            (self.stop_to_transfers_in.offset / 0x1_0000_0000) as u32,
            (self.stop_to_transfers_in.count % 0x1_0000_0000) as u32,
            (self.stop_to_transfers_in.count / 0x1_0000_0000) as u32,
            (self.strings.offset % 0x1_0000_0000) as u32,
            (self.strings.offset / 0x1_0000_0000) as u32,
            (self.strings.count % 0x1_0000_0000) as u32,
            (self.strings.count / 0x1_0000_0000) as u32,
        ];
        assert(ws@ =~= self.spec_words());
        push_words(buf, &ws);
    }

    fn read_from(b: &[u8], pos: usize) -> (r: Self) {
        let ws = read_words(b, pos, 130);
        Header {
            magic: ws[0],
            version: ws[1],
            stops: Section { offset: (ws[2] as u64 + (ws[3] as u64) * 0x1_0000_0000), count: (ws[4] as u64 + (ws[5] as u64) * 0x1_0000_0000) },
            stop_ids: Section { offset: (ws[6] as u64 + (ws[7] as u64) * 0x1_0000_0000), count: (ws[8] as u64 + (ws[9] as u64) * 0x1_0000_0000) },
            stops_id_lookup: Section { offset: (ws[10] as u64 + (ws[11] as u64) * 0x1_0000_0000), count: (ws[12] as u64 + (ws[13] as u64) * 0x1_0000_0000) },
            routes: Section { offset: (ws[14] as u64 + (ws[15] as u64) * 0x1_0000_0000), count: (ws[16] as u64 + (ws[17] as u64) * 0x1_0000_0000) },
            route_ids: Section { offset: (ws[18] as u64 + (ws[19] as u64) * 0x1_0000_0000), count: (ws[20] as u64 + (ws[21] as u64) * 0x1_0000_0000) },
            route_id_lookup: Section { offset: (ws[22] as u64 + (ws[23] as u64) * 0x1_0000_0000), count: (ws[24] as u64 + (ws[25] as u64) * 0x1_0000_0000) },
            trips: Section { offset: (ws[26] as u64 + (ws[27] as u64) * 0x1_0000_0000), count: (ws[28] as u64 + (ws[29] as u64) * 0x1_0000_0000) },
            trip_ids: Section { offset: (ws[30] as u64 + (ws[31] as u64) * 0x1_0000_0000), count: (ws[32] as u64 + (ws[33] as u64) * 0x1_0000_0000) },
            trip_id_lookup: Section { offset: (ws[34] as u64 + (ws[35] as u64) * 0x1_0000_0000), count: (ws[36] as u64 + (ws[37] as u64) * 0x1_0000_0000) },
            services: Section { offset: (ws[38] as u64 + (ws[39] as u64) * 0x1_0000_0000), count: (ws[40] as u64 + (ws[41] as u64) * 0x1_0000_0000) },
            service_ids: Section { offset: (ws[42] as u64 + (ws[43] as u64) * 0x1_0000_0000), count: (ws[44] as u64 + (ws[45] as u64) * 0x1_0000_0000) },
            service_id_lookup: Section { offset: (ws[46] as u64 + (ws[47] as u64) * 0x1_0000_0000), count: (ws[48] as u64 + (ws[49] as u64) * 0x1_0000_0000) },
            active_mask: Section { offset: (ws[50] as u64 + (ws[51] as u64) * 0x1_0000_0000), count: (ws[52] as u64 + (ws[53] as u64) * 0x1_0000_0000) },
            stop_times: Section { offset: (ws[54] as u64 + (ws[55] as u64) * 0x1_0000_0000), count: (ws[56] as u64 + (ws[57] as u64) * 0x1_0000_0000) },
            shapes: Section { offset: (ws[58] as u64 + (ws[59] as u64) * 0x1_0000_0000), count: (ws[60] as u64 + (ws[61] as u64) * 0x1_0000_0000) },
            trip_patterns: Section { offset: (ws[62] as u64 + (ws[63] as u64) * 0x1_0000_0000), count: (ws[64] as u64 + (ws[65] as u64) * 0x1_0000_0000) },
            trip_patterns_stop_seq: Section { offset: (ws[66] as u64 + (ws[67] as u64) * 0x1_0000_0000), count: (ws[68] as u64 + (ws[69] as u64) * 0x1_0000_0000) },
            trip_patterns_trip_seq: Section { offset: (ws[70] as u64 + (ws[71] as u64) * 0x1_0000_0000), count: (ws[72] as u64 + (ws[73] as u64) * 0x1_0000_0000) },
            trip_to_trip_pattern: Section { offset: (ws[74] as u64 + (ws[75] as u64) * 0x1_0000_0000), count: (ws[76] as u64 + (ws[77] as u64) * 0x1_0000_0000) },
            stop_to_trip_pattern: Section { offset: (ws[78] as u64 + (ws[79] as u64) * 0x1_0000_0000), count: (ws[80] as u64 + (ws[81] as u64) * 0x1_0000_0000) },
            stop_to_trip_pattern_lookup: Section { offset: (ws[82] as u64 + (ws[83] as u64) * 0x1_0000_0000), count: (ws[84] as u64 + (ws[85] as u64) * 0x1_0000_0000) },
            route_to_trips: Section { offset: (ws[86] as u64 + (ws[87] as u64) * 0x1_0000_0000), count: (ws[88] as u64 + (ws[89] as u64) * 0x1_0000_0000) },
            route_to_trips_lookup: Section { offset: (ws[90] as u64 + (ws[91] as u64) * 0x1_0000_0000), count: (ws[92] as u64 + (ws[93] as u64) * 0x1_0000_0000) },
            stop_to_trips: Section { offset: (ws[94] as u64 + (ws[95] as u64) * 0x1_0000_0000), count: (ws[96] as u64 + (ws[97] as u64) * 0x1_0000_0000) },
            stop_to_trips_lookup: Section { offset: (ws[98] as u64 + (ws[99] as u64) * 0x1_0000_0000), count: (ws[100] as u64 + (ws[101] as u64) * 0x1_0000_0000) },
            search_stops: Section { offset: (ws[102] as u64 + (ws[103] as u64) * 0x1_0000_0000), count: (ws[104] as u64 + (ws[105] as u64) * 0x1_0000_0000) },
            search_to_stops: Section { offset: (ws[106] as u64 + (ws[107] as u64) * 0x1_0000_0000), count: (ws[108] as u64 + (ws[109] as u64) * 0x1_0000_0000) },
            transfers: Section { offset: (ws[110] as u64 + (ws[111] as u64) * 0x1_0000_0000), count: (ws[112] as u64 + (ws[113] as u64) * 0x1_0000_0000) },
            stop_to_transfers_out: Section { offset: (ws[114] as u64 + (ws[115] as u64) * 0x1_0000_0000), count: (ws[116] as u64 + (ws[117] as u64) * 0x1_0000_0000) },
            transfers_in_indencies: Section { offset: (ws[118] as u64 + (ws[119] as u64) * 0x1_0000_0000), count: (ws[120] as u64 + (ws[121] as u64) * 0x1_0000_0000) },
            stop_to_transfers_in: Section { offset: (ws[122] as u64 + (ws[123] as u64) * 0x1_0000_0000), count: (ws[124] as u64 + (ws[125] as u64) * 0x1_0000_0000) },
            strings: Section { offset: (ws[126] as u64 + (ws[127] as u64) * 0x1_0000_0000), count: (ws[128] as u64 + (ws[129] as u64) * 0x1_0000_0000) },
        }
    }
}

} // verus!
