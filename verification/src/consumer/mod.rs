//! Reading a compiled network back from its bytes, and the queries over it.

use vstd::prelude::*;

use crate::codec::{record_at, records_at, Record};
use crate::compiler::writer::{is_prefix, BinaryWriter};
use crate::models::header::{Header, Section};
use crate::models::idx::{RouteIdx, ServiceIdx, StopIdx, TransferIdx, TripIdx, TripPatternIdx};
use crate::models::slice::{TransferSlice, TripPatternSlice, TripSlice};
use crate::models::{Route, SearchStop, Service, Shape, Stop, StopTime, Transfer, Trip, TripPattern};
use crate::{Error, GTFS_BIN_VERSION};

pub mod lookup;
pub mod shapes;
pub mod stop_times;
pub mod stoptimes;
pub mod transfers;
pub mod trip_patterns;
pub mod valid;
pub mod service;
pub mod routes;
pub mod trips;
pub mod stops;
pub mod strings;
pub mod reader;

use reader::{bytes_in, fits, fits_bytes, table_at, Reader};

verus! {

/// The bytes `GTFS` read as a little-endian word.
pub const MAGIC: u32 = 0x5346_5447;

/// The number of bytes of the header.
pub const HEADER_SIZE: usize = 520;

/// The tables of a compiled network, as sequences.
pub ghost struct NetworkView {
    pub stops: Seq<Stop>,
    pub stop_ids: Seq<u8>,
    pub stops_id_lookup: Seq<StopIdx>,
    pub routes: Seq<Route>,
    pub route_ids: Seq<u8>,
    pub routes_id_lookup: Seq<RouteIdx>,
    pub trips: Seq<Trip>,
    pub trip_ids: Seq<u8>,
    pub trips_id_lookup: Seq<TripIdx>,
    pub services: Seq<Service>,
    pub service_ids: Seq<u8>,
    pub services_id_lookup: Seq<ServiceIdx>,
    pub active_mask: Seq<u8>,
    pub stop_times: Seq<StopTime>,
    pub shapes: Seq<Shape>,
    pub trip_patterns: Seq<TripPattern>,
    pub trip_patterns_stop_seq: Seq<StopIdx>,
    pub trip_patterns_trips: Seq<TripIdx>,
    pub trip_to_trip_pattern: Seq<TripPatternIdx>,
    pub stop_to_trip_pattern: Seq<TripPatternIdx>,
    pub stop_to_trip_pattern_lookup: Seq<TripPatternSlice>,
    pub route_to_trips: Seq<TripIdx>,
    pub route_to_trips_lookup: Seq<TripSlice>,
    pub stop_to_trips: Seq<TripIdx>,
    pub stop_to_trips_lookup: Seq<TripSlice>,
    pub search_stops: Seq<SearchStop>,
    pub search_to_stops: Seq<StopIdx>,
    pub transfers: Seq<Transfer>,
    pub stop_to_transfer_out: Seq<TransferSlice>,
    pub transfers_in_indencies: Seq<TransferIdx>,
    pub stop_to_transfer_in: Seq<TransferSlice>,
    pub strings: Seq<u8>,
}

/// The tables of a compiled network: what the compiler builds and writes, and
/// what the consumer reads back.
#[derive(Debug)]
pub struct Consumer {
    /// Stops.
    pub stops: Vec<Stop>,
    /// Text of all stop identifiers.
    pub stop_ids: Vec<u8>,
    /// Stops sorted by identifier.
    pub stops_id_lookup: Vec<StopIdx>,
    /// Routes.
    pub routes: Vec<Route>,
    /// Text of all route identifiers.
    pub route_ids: Vec<u8>,
    /// Routes sorted by identifier.
    pub routes_id_lookup: Vec<RouteIdx>,
    /// Trips.
    pub trips: Vec<Trip>,
    /// Text of all trip identifiers.
    pub trip_ids: Vec<u8>,
    /// Trips sorted by identifier.
    pub trips_id_lookup: Vec<TripIdx>,
    /// Services.
    pub services: Vec<Service>,
    /// Text of all service identifiers.
    pub service_ids: Vec<u8>,
    /// Services sorted by identifier.
    pub services_id_lookup: Vec<ServiceIdx>,
    /// Active-day bits of all services, most significant bit first.
    pub active_mask: Vec<u8>,
    /// Stop times, grouped by trip and ordered by sequence.
    pub stop_times: Vec<StopTime>,
    /// Shape points, grouped by shape.
    pub shapes: Vec<Shape>,
    /// Trip patterns.
    pub trip_patterns: Vec<TripPattern>,
    /// Stop sequences of all trip patterns.
    pub trip_patterns_stop_seq: Vec<StopIdx>,
    /// Trips of all trip patterns.
    pub trip_patterns_trips: Vec<TripIdx>,
    /// The pattern of each trip.
    pub trip_to_trip_pattern: Vec<TripPatternIdx>,
    /// Patterns calling at each stop, grouped by stop.
    pub stop_to_trip_pattern: Vec<TripPatternIdx>,
    /// For each stop, its run of `stop_to_trip_pattern`.
    pub stop_to_trip_pattern_lookup: Vec<TripPatternSlice>,
    /// Trips grouped by route.
    pub route_to_trips: Vec<TripIdx>,
    /// For each route, its run of `route_to_trips`.
    pub route_to_trips_lookup: Vec<TripSlice>,
    /// Trips grouped by the stops they call at.
    pub stop_to_trips: Vec<TripIdx>,
    /// For each stop, its run of `stop_to_trips`.
    pub stop_to_trips_lookup: Vec<TripSlice>,
    /// Named groups of stops.
    pub search_stops: Vec<SearchStop>,
    /// Stops of all search groups.
    pub search_to_stops: Vec<StopIdx>,
    /// Transfers, grouped by the stop they leave.
    pub transfers: Vec<Transfer>,
    /// For each stop, its run of outbound transfers.
    pub stop_to_transfer_out: Vec<TransferSlice>,
    /// Transfers grouped by the stop they reach.
    pub transfers_in_indencies: Vec<TransferIdx>,
    /// For each stop, its run of `transfers_in_indencies`.
    pub stop_to_transfer_in: Vec<TransferSlice>,
    /// Text of all names, descriptions and headsigns.
    pub strings: Vec<u8>,
}

impl View for Consumer {
    type V = NetworkView;

    open spec fn view(&self) -> NetworkView {
        NetworkView {
            stops: self.stops@,
            stop_ids: self.stop_ids@,
            stops_id_lookup: self.stops_id_lookup@,
            routes: self.routes@,
            route_ids: self.route_ids@,
            routes_id_lookup: self.routes_id_lookup@,
            trips: self.trips@,
            trip_ids: self.trip_ids@,
            trips_id_lookup: self.trips_id_lookup@,
            services: self.services@,
            service_ids: self.service_ids@,
            services_id_lookup: self.services_id_lookup@,
            active_mask: self.active_mask@,
            stop_times: self.stop_times@,
            shapes: self.shapes@,
            trip_patterns: self.trip_patterns@,
            trip_patterns_stop_seq: self.trip_patterns_stop_seq@,
            trip_patterns_trips: self.trip_patterns_trips@,
            trip_to_trip_pattern: self.trip_to_trip_pattern@,
            stop_to_trip_pattern: self.stop_to_trip_pattern@,
            stop_to_trip_pattern_lookup: self.stop_to_trip_pattern_lookup@,
            route_to_trips: self.route_to_trips@,
            route_to_trips_lookup: self.route_to_trips_lookup@,
            stop_to_trips: self.stop_to_trips@,
            stop_to_trips_lookup: self.stop_to_trips_lookup@,
            search_stops: self.search_stops@,
            search_to_stops: self.search_to_stops@,
            transfers: self.transfers@,
            stop_to_transfer_out: self.stop_to_transfer_out@,
            transfers_in_indencies: self.transfers_in_indencies@,
            stop_to_transfer_in: self.stop_to_transfer_in@,
            strings: self.strings@,
        }
    }
}

/// Every table of the header lies within `len` bytes.
pub open spec fn sections_fit(h: Header, len: nat) -> bool {
    &&& fits::<Stop>(h.stops, len)
    &&& fits_bytes(h.stop_ids, len)
    &&& fits::<StopIdx>(h.stops_id_lookup, len)
    &&& fits::<Route>(h.routes, len)
    &&& fits_bytes(h.route_ids, len)
    &&& fits::<RouteIdx>(h.route_id_lookup, len)
    &&& fits::<Trip>(h.trips, len)
    &&& fits_bytes(h.trip_ids, len)
    &&& fits::<TripIdx>(h.trip_id_lookup, len)
    &&& fits::<Service>(h.services, len)
    &&& fits_bytes(h.service_ids, len)
    &&& fits::<ServiceIdx>(h.service_id_lookup, len)
    &&& fits_bytes(h.active_mask, len)
    &&& fits::<StopTime>(h.stop_times, len)
    &&& fits::<Shape>(h.shapes, len)
    &&& fits::<TripPattern>(h.trip_patterns, len)
    &&& fits::<StopIdx>(h.trip_patterns_stop_seq, len)
    &&& fits::<TripIdx>(h.trip_patterns_trip_seq, len)
    &&& fits::<TripPatternIdx>(h.trip_to_trip_pattern, len)
    &&& fits::<TripPatternIdx>(h.stop_to_trip_pattern, len)
    &&& fits::<TripPatternSlice>(h.stop_to_trip_pattern_lookup, len)
    &&& fits::<TripIdx>(h.route_to_trips, len)
    &&& fits::<TripSlice>(h.route_to_trips_lookup, len)
    &&& fits::<TripIdx>(h.stop_to_trips, len)
    &&& fits::<TripSlice>(h.stop_to_trips_lookup, len)
    &&& fits::<SearchStop>(h.search_stops, len)
    &&& fits::<StopIdx>(h.search_to_stops, len)
    &&& fits::<Transfer>(h.transfers, len)
    &&& fits::<TransferSlice>(h.stop_to_transfers_out, len)
    &&& fits::<TransferIdx>(h.transfers_in_indencies, len)
    &&& fits::<TransferSlice>(h.stop_to_transfers_in, len)
    &&& fits_bytes(h.strings, len)
}

/// What a compiled file holds: the error that reading it reports, or its tables.
pub open spec fn parse_network(b: Seq<u8>) -> Result<NetworkView, Error> {
    if b.len() < HEADER_SIZE {
        Err(Error::FileTooSmall)
    } else {
        let h = record_at::<Header>(b, 0);
        if h.magic != MAGIC {
            Err(Error::InvalidMagic)
        } else if h.version != GTFS_BIN_VERSION {
            Err(Error::UnsupportedVersion { expected: GTFS_BIN_VERSION, actual: h.version })
        } else if !sections_fit(h, b.len()) {
            Err(Error::SectionOutOfBound)
        } else {
            Ok(NetworkView {
                stops: table_at::<Stop>(b, h.stops),
                stop_ids: bytes_in(b, h.stop_ids),
                stops_id_lookup: table_at::<StopIdx>(b, h.stops_id_lookup),
                routes: table_at::<Route>(b, h.routes),
                route_ids: bytes_in(b, h.route_ids),
                routes_id_lookup: table_at::<RouteIdx>(b, h.route_id_lookup),
                trips: table_at::<Trip>(b, h.trips),
                trip_ids: bytes_in(b, h.trip_ids),
                trips_id_lookup: table_at::<TripIdx>(b, h.trip_id_lookup),
                services: table_at::<Service>(b, h.services),
                service_ids: bytes_in(b, h.service_ids),
                services_id_lookup: table_at::<ServiceIdx>(b, h.service_id_lookup),
                active_mask: bytes_in(b, h.active_mask),
                stop_times: table_at::<StopTime>(b, h.stop_times),
                shapes: table_at::<Shape>(b, h.shapes),
                trip_patterns: table_at::<TripPattern>(b, h.trip_patterns),
                trip_patterns_stop_seq: table_at::<StopIdx>(b, h.trip_patterns_stop_seq),
                trip_patterns_trips: table_at::<TripIdx>(b, h.trip_patterns_trip_seq),
                trip_to_trip_pattern: table_at::<TripPatternIdx>(b, h.trip_to_trip_pattern),
                stop_to_trip_pattern: table_at::<TripPatternIdx>(b, h.stop_to_trip_pattern),
                stop_to_trip_pattern_lookup: table_at::<TripPatternSlice>(b, h.stop_to_trip_pattern_lookup),
                route_to_trips: table_at::<TripIdx>(b, h.route_to_trips),
                route_to_trips_lookup: table_at::<TripSlice>(b, h.route_to_trips_lookup),
                stop_to_trips: table_at::<TripIdx>(b, h.stop_to_trips),
                stop_to_trips_lookup: table_at::<TripSlice>(b, h.stop_to_trips_lookup),
                search_stops: table_at::<SearchStop>(b, h.search_stops),
                search_to_stops: table_at::<StopIdx>(b, h.search_to_stops),
                transfers: table_at::<Transfer>(b, h.transfers),
                stop_to_transfer_out: table_at::<TransferSlice>(b, h.stop_to_transfers_out),
                transfers_in_indencies: table_at::<TransferIdx>(b, h.transfers_in_indencies),
                stop_to_transfer_in: table_at::<TransferSlice>(b, h.stop_to_transfers_in),
                strings: bytes_in(b, h.strings),
            })
        }
    }
}

impl Consumer {
    /// Reads the tables of a compiled file, checking its header and that every
    /// table lies within the bytes.
    pub fn new(bytes: &[u8]) -> (r: Result<Consumer, Error>)
        ensures
            match r {
                Ok(c) => parse_network(bytes@) == Ok::<NetworkView, Error>(c@),
                Err(e) => parse_network(bytes@) == Err::<NetworkView, Error>(e),
            },
    {
        if bytes.len() < HEADER_SIZE {
            return Err(Error::FileTooSmall);
        }
        let header = Header::read_from(bytes, 0);
        if header.magic != MAGIC {
            return Err(Error::InvalidMagic);
        }
        if header.version != GTFS_BIN_VERSION {
            return Err(Error::UnsupportedVersion { expected: GTFS_BIN_VERSION, actual: header.version });
        }
        let reader = Reader::new(bytes);
        let stops = reader.cast_slice::<Stop>(header.stops)?;
        let stop_ids = reader.get_bytes(header.stop_ids)?;
        let stops_id_lookup = reader.cast_slice::<StopIdx>(header.stops_id_lookup)?;
        let routes = reader.cast_slice::<Route>(header.routes)?;
        let route_ids = reader.get_bytes(header.route_ids)?;
        let routes_id_lookup = reader.cast_slice::<RouteIdx>(header.route_id_lookup)?;
        let trips = reader.cast_slice::<Trip>(header.trips)?;
        let trip_ids = reader.get_bytes(header.trip_ids)?;
        let trips_id_lookup = reader.cast_slice::<TripIdx>(header.trip_id_lookup)?;
        let services = reader.cast_slice::<Service>(header.services)?;
        let service_ids = reader.get_bytes(header.service_ids)?;
        let services_id_lookup = reader.cast_slice::<ServiceIdx>(header.service_id_lookup)?;
        let active_mask = reader.get_bytes(header.active_mask)?;
        let stop_times = reader.cast_slice::<StopTime>(header.stop_times)?;
        let shapes = reader.cast_slice::<Shape>(header.shapes)?;
        let trip_patterns = reader.cast_slice::<TripPattern>(header.trip_patterns)?;
        let trip_patterns_stop_seq = reader.cast_slice::<StopIdx>(header.trip_patterns_stop_seq)?;
        let trip_patterns_trips = reader.cast_slice::<TripIdx>(header.trip_patterns_trip_seq)?;
        let trip_to_trip_pattern = reader.cast_slice::<TripPatternIdx>(header.trip_to_trip_pattern)?;
        let stop_to_trip_pattern = reader.cast_slice::<TripPatternIdx>(header.stop_to_trip_pattern)?;
        let stop_to_trip_pattern_lookup = reader.cast_slice::<TripPatternSlice>(header.stop_to_trip_pattern_lookup)?;
        let route_to_trips = reader.cast_slice::<TripIdx>(header.route_to_trips)?;
        let route_to_trips_lookup = reader.cast_slice::<TripSlice>(header.route_to_trips_lookup)?;
        let stop_to_trips = reader.cast_slice::<TripIdx>(header.stop_to_trips)?;
        let stop_to_trips_lookup = reader.cast_slice::<TripSlice>(header.stop_to_trips_lookup)?;
        let search_stops = reader.cast_slice::<SearchStop>(header.search_stops)?;
        let search_to_stops = reader.cast_slice::<StopIdx>(header.search_to_stops)?;
        let transfers = reader.cast_slice::<Transfer>(header.transfers)?;
        let stop_to_transfer_out = reader.cast_slice::<TransferSlice>(header.stop_to_transfers_out)?;
        let transfers_in_indencies = reader.cast_slice::<TransferIdx>(header.transfers_in_indencies)?;
        let stop_to_transfer_in = reader.cast_slice::<TransferSlice>(header.stop_to_transfers_in)?;
        let strings = reader.get_bytes(header.strings)?;
        Ok(Consumer {
            stops,
            stop_ids,
            stops_id_lookup,
            routes,
            route_ids,
            routes_id_lookup,
            trips,
            trip_ids,
            trips_id_lookup,
            services,
            service_ids,
            services_id_lookup,
            active_mask,
            stop_times,
            shapes,
            trip_patterns,
            trip_patterns_stop_seq,
            trip_patterns_trips,
            trip_to_trip_pattern,
            stop_to_trip_pattern,
            stop_to_trip_pattern_lookup,
            route_to_trips,
            route_to_trips_lookup,
            stop_to_trips,
            stop_to_trips_lookup,
            search_stops,
            search_to_stops,
            transfers,
            stop_to_transfer_out,
            transfers_in_indencies,
            stop_to_transfer_in,
            strings,
        })
    }

    /// Writes the tables as a compiled file: a header, then every table in
    /// turn, each starting at a multiple of 8 bytes. Reading the file back gives
    /// these tables.
    #[verifier::rlimit(100)]
    pub fn to_bytes(&self) -> (r: Vec<u8>)
        ensures
            parse_network(r@) == Ok::<NetworkView, Error>(self@),
            r@.len() % 8 == 0,
    {
        let mut writer = BinaryWriter::new().resize(HEADER_SIZE);
        let ghost g0 = writer@;
        let (s_stops, s_stop_ids, s_stops_id_lookup, s_routes, s_route_ids, s_route_id_lookup, s_trips, s_trip_ids) = self.write_group_0(&mut writer);
        let ghost g1 = writer@;
        let (s_trip_id_lookup, s_services, s_service_ids, s_service_id_lookup, s_active_mask, s_stop_times, s_shapes, s_trip_patterns) = self.write_group_1(&mut writer);
        let ghost g2 = writer@;
        let (s_trip_patterns_stop_seq, s_trip_patterns_trip_seq, s_trip_to_trip_pattern, s_stop_to_trip_pattern, s_stop_to_trip_pattern_lookup, s_route_to_trips, s_route_to_trips_lookup, s_stop_to_trips) = self.write_group_2(&mut writer);
        let ghost g3 = writer@;
        let (s_stop_to_trips_lookup, s_search_stops, s_search_to_stops, s_transfers, s_stop_to_transfers_out, s_transfers_in_indencies, s_stop_to_transfers_in, s_strings) = self.write_group_3(&mut writer);
        let ghost g4 = writer@;
        let header = Header {
            magic: MAGIC,
            version: GTFS_BIN_VERSION,
            stops: s_stops,
            stop_ids: s_stop_ids,
            stops_id_lookup: s_stops_id_lookup,
            routes: s_routes,
            route_ids: s_route_ids,
            route_id_lookup: s_route_id_lookup,
            trips: s_trips,
            trip_ids: s_trip_ids,
            trip_id_lookup: s_trip_id_lookup,
            services: s_services,
            service_ids: s_service_ids,
            service_id_lookup: s_service_id_lookup,
            active_mask: s_active_mask,
            stop_times: s_stop_times,
            shapes: s_shapes,
            trip_patterns: s_trip_patterns,
            trip_patterns_stop_seq: s_trip_patterns_stop_seq,
            trip_patterns_trip_seq: s_trip_patterns_trip_seq,
            trip_to_trip_pattern: s_trip_to_trip_pattern,
            stop_to_trip_pattern: s_stop_to_trip_pattern,
            stop_to_trip_pattern_lookup: s_stop_to_trip_pattern_lookup,
            route_to_trips: s_route_to_trips,
            route_to_trips_lookup: s_route_to_trips_lookup,
            stop_to_trips: s_stop_to_trips,
            stop_to_trips_lookup: s_stop_to_trips_lookup,
            search_stops: s_search_stops,
            search_to_stops: s_search_to_stops,
            transfers: s_transfers,
            stop_to_transfers_out: s_stop_to_transfers_out,
            transfers_in_indencies: s_transfers_in_indencies,
            stop_to_transfers_in: s_stop_to_transfers_in,
            strings: s_strings,
        };
        let mut header_bytes: Vec<u8> = Vec::new();
        header.write_to(&mut header_bytes);
        let ghost unpatched = writer@;
        proof {
            crate::codec::lemma_words_to_bytes_len(header.spec_words());
            header.lemma_words_roundtrip();
        }
        writer.overwrite(0, header_bytes.as_slice());
        let r = writer.take();
        proof {
            assert(g4.subrange(0, g4.len() as int) =~= g4);
            lemma_prefix_trans(g3, g4, g4);
            lemma_prefix_trans(g2, g3, g4);
            lemma_prefix_trans(g1, g2, g4);
            lemma_header_written(header_bytes@, unpatched, r@, header);
            assert(tables_0_written(self@, g1, header));
            assert(tables_1_written(self@, g2, header));
            assert(tables_2_written(self@, g3, header));
            assert(tables_3_written(self@, g4, header));
            lemma_tables_0_kept(self@, g1, unpatched, r@, header);
            lemma_tables_1_kept(self@, g2, unpatched, r@, header);
            lemma_tables_2_kept(self@, g3, unpatched, r@, header);
            lemma_tables_3_kept(self@, g4, unpatched, r@, header);
            lemma_read_back(r@, header, self@);
        }
        r
    }

    /// Writes tables 1 to 8 of the file.
    fn write_group_0(&self, writer: &mut BinaryWriter) -> (r: (Section, Section, Section, Section, Section, Section, Section, Section))
        ensures
            is_prefix(old(writer)@, final(writer)@),
            old(writer)@.len() <= r.0.offset,
            fits::<Stop>(r.0, final(writer)@.len()),
            table_at::<Stop>(final(writer)@, r.0) == self.stops@,
            old(writer)@.len() <= r.1.offset,
            fits_bytes(r.1, final(writer)@.len()),
            bytes_in(final(writer)@, r.1) == self.stop_ids@,
            old(writer)@.len() <= r.2.offset,
            fits::<StopIdx>(r.2, final(writer)@.len()),
            table_at::<StopIdx>(final(writer)@, r.2) == self.stops_id_lookup@,
            old(writer)@.len() <= r.3.offset,
            fits::<Route>(r.3, final(writer)@.len()),
            table_at::<Route>(final(writer)@, r.3) == self.routes@,
            old(writer)@.len() <= r.4.offset,
            fits_bytes(r.4, final(writer)@.len()),
            bytes_in(final(writer)@, r.4) == self.route_ids@,
            old(writer)@.len() <= r.5.offset,
            fits::<RouteIdx>(r.5, final(writer)@.len()),
            table_at::<RouteIdx>(final(writer)@, r.5) == self.routes_id_lookup@,
            old(writer)@.len() <= r.6.offset,
            fits::<Trip>(r.6, final(writer)@.len()),
            table_at::<Trip>(final(writer)@, r.6) == self.trips@,
            old(writer)@.len() <= r.7.offset,
            fits_bytes(r.7, final(writer)@.len()),
            bytes_in(final(writer)@, r.7) == self.trip_ids@,
    {
        let ghost b0 = writer@;
        let s_stops = writer.write_section(self.stops.as_slice());
        let ghost b1 = writer@;
        let s_stop_ids = writer.write_bytes(self.stop_ids.as_slice());
        let ghost b2 = writer@;
        let s_stops_id_lookup = writer.write_section(self.stops_id_lookup.as_slice());
        let ghost b3 = writer@;
        let s_routes = writer.write_section(self.routes.as_slice());
        let ghost b4 = writer@;
        let s_route_ids = writer.write_bytes(self.route_ids.as_slice());
        let ghost b5 = writer@;
        let s_route_id_lookup = writer.write_section(self.routes_id_lookup.as_slice());
        let ghost b6 = writer@;
        let s_trips = writer.write_section(self.trips.as_slice());
        let ghost b7 = writer@;
        let s_trip_ids = writer.write_bytes(self.trip_ids.as_slice());
        let ghost b8 = writer@;
        proof {
            assert(b8.subrange(0, b8.len() as int) =~= b8);
            lemma_prefix_trans(b7, b8, b8);
            lemma_prefix_trans(b6, b7, b8);
            lemma_prefix_trans(b5, b6, b8);
            lemma_prefix_trans(b4, b5, b8);
            lemma_prefix_trans(b3, b4, b8);
            lemma_prefix_trans(b2, b3, b8);
            lemma_prefix_trans(b1, b2, b8);
            lemma_prefix_trans(b0, b1, b8);
            lemma_table_extended::<Stop>(b1, b8, s_stops, self.stops@);
            lemma_bytes_extended(b2, b8, s_stop_ids, self.stop_ids@);
            lemma_table_extended::<StopIdx>(b3, b8, s_stops_id_lookup, self.stops_id_lookup@);
            lemma_table_extended::<Route>(b4, b8, s_routes, self.routes@);
            lemma_bytes_extended(b5, b8, s_route_ids, self.route_ids@);
            lemma_table_extended::<RouteIdx>(b6, b8, s_route_id_lookup, self.routes_id_lookup@);
            lemma_table_extended::<Trip>(b7, b8, s_trips, self.trips@);
            lemma_bytes_extended(b8, b8, s_trip_ids, self.trip_ids@);
        }
        (s_stops, s_stop_ids, s_stops_id_lookup, s_routes, s_route_ids, s_route_id_lookup, s_trips, s_trip_ids)
    }

    /// Writes tables 9 to 16 of the file.
    fn write_group_1(&self, writer: &mut BinaryWriter) -> (r: (Section, Section, Section, Section, Section, Section, Section, Section))
        ensures
            is_prefix(old(writer)@, final(writer)@),
            old(writer)@.len() <= r.0.offset,
            fits::<TripIdx>(r.0, final(writer)@.len()),
            table_at::<TripIdx>(final(writer)@, r.0) == self.trips_id_lookup@,
            old(writer)@.len() <= r.1.offset,
            fits::<Service>(r.1, final(writer)@.len()),
            table_at::<Service>(final(writer)@, r.1) == self.services@,
            old(writer)@.len() <= r.2.offset,
            fits_bytes(r.2, final(writer)@.len()),
            bytes_in(final(writer)@, r.2) == self.service_ids@,
            old(writer)@.len() <= r.3.offset,
            fits::<ServiceIdx>(r.3, final(writer)@.len()),
            table_at::<ServiceIdx>(final(writer)@, r.3) == self.services_id_lookup@,
            old(writer)@.len() <= r.4.offset,
            fits_bytes(r.4, final(writer)@.len()),
            bytes_in(final(writer)@, r.4) == self.active_mask@,
            old(writer)@.len() <= r.5.offset,
            fits::<StopTime>(r.5, final(writer)@.len()),
            table_at::<StopTime>(final(writer)@, r.5) == self.stop_times@,
            old(writer)@.len() <= r.6.offset,
            fits::<Shape>(r.6, final(writer)@.len()),
            table_at::<Shape>(final(writer)@, r.6) == self.shapes@,
            old(writer)@.len() <= r.7.offset,
            fits::<TripPattern>(r.7, final(writer)@.len()),
            table_at::<TripPattern>(final(writer)@, r.7) == self.trip_patterns@,
    {
        let ghost b0 = writer@;
        let s_trip_id_lookup = writer.write_section(self.trips_id_lookup.as_slice());
        let ghost b1 = writer@;
        let s_services = writer.write_section(self.services.as_slice());
        let ghost b2 = writer@;
        let s_service_ids = writer.write_bytes(self.service_ids.as_slice());
        let ghost b3 = writer@;
        let s_service_id_lookup = writer.write_section(self.services_id_lookup.as_slice());
        let ghost b4 = writer@;
        let s_active_mask = writer.write_bytes(self.active_mask.as_slice());
        let ghost b5 = writer@;
        let s_stop_times = writer.write_section(self.stop_times.as_slice());
        let ghost b6 = writer@;
        let s_shapes = writer.write_section(self.shapes.as_slice());
        let ghost b7 = writer@;
        let s_trip_patterns = writer.write_section(self.trip_patterns.as_slice());
        let ghost b8 = writer@;
        proof {
            assert(b8.subrange(0, b8.len() as int) =~= b8);
            lemma_prefix_trans(b7, b8, b8);
            lemma_prefix_trans(b6, b7, b8);
            lemma_prefix_trans(b5, b6, b8);
            lemma_prefix_trans(b4, b5, b8);
            lemma_prefix_trans(b3, b4, b8);
            lemma_prefix_trans(b2, b3, b8);
            lemma_prefix_trans(b1, b2, b8);
            lemma_prefix_trans(b0, b1, b8);
            lemma_table_extended::<TripIdx>(b1, b8, s_trip_id_lookup, self.trips_id_lookup@);
            lemma_table_extended::<Service>(b2, b8, s_services, self.services@);
            lemma_bytes_extended(b3, b8, s_service_ids, self.service_ids@);
            lemma_table_extended::<ServiceIdx>(b4, b8, s_service_id_lookup, self.services_id_lookup@);
            lemma_bytes_extended(b5, b8, s_active_mask, self.active_mask@);
            lemma_table_extended::<StopTime>(b6, b8, s_stop_times, self.stop_times@);
            lemma_table_extended::<Shape>(b7, b8, s_shapes, self.shapes@);
            lemma_table_extended::<TripPattern>(b8, b8, s_trip_patterns, self.trip_patterns@);
        }
        (s_trip_id_lookup, s_services, s_service_ids, s_service_id_lookup, s_active_mask, s_stop_times, s_shapes, s_trip_patterns)
    }

    /// Writes tables 17 to 24 of the file.
    fn write_group_2(&self, writer: &mut BinaryWriter) -> (r: (Section, Section, Section, Section, Section, Section, Section, Section))
        ensures
            is_prefix(old(writer)@, final(writer)@),
            old(writer)@.len() <= r.0.offset,
            fits::<StopIdx>(r.0, final(writer)@.len()),
            table_at::<StopIdx>(final(writer)@, r.0) == self.trip_patterns_stop_seq@,
            old(writer)@.len() <= r.1.offset,
            fits::<TripIdx>(r.1, final(writer)@.len()),
            table_at::<TripIdx>(final(writer)@, r.1) == self.trip_patterns_trips@,
            old(writer)@.len() <= r.2.offset,
            fits::<TripPatternIdx>(r.2, final(writer)@.len()),
            table_at::<TripPatternIdx>(final(writer)@, r.2) == self.trip_to_trip_pattern@,
            old(writer)@.len() <= r.3.offset,
            fits::<TripPatternIdx>(r.3, final(writer)@.len()),
            table_at::<TripPatternIdx>(final(writer)@, r.3) == self.stop_to_trip_pattern@,
            old(writer)@.len() <= r.4.offset,
            fits::<TripPatternSlice>(r.4, final(writer)@.len()),
            table_at::<TripPatternSlice>(final(writer)@, r.4) == self.stop_to_trip_pattern_lookup@,
            old(writer)@.len() <= r.5.offset,
            fits::<TripIdx>(r.5, final(writer)@.len()),
            table_at::<TripIdx>(final(writer)@, r.5) == self.route_to_trips@,
            old(writer)@.len() <= r.6.offset,
            fits::<TripSlice>(r.6, final(writer)@.len()),
            table_at::<TripSlice>(final(writer)@, r.6) == self.route_to_trips_lookup@,
            old(writer)@.len() <= r.7.offset,
            fits::<TripIdx>(r.7, final(writer)@.len()),
            table_at::<TripIdx>(final(writer)@, r.7) == self.stop_to_trips@,
    {
        let ghost b0 = writer@;
        let s_trip_patterns_stop_seq = writer.write_section(self.trip_patterns_stop_seq.as_slice());
        let ghost b1 = writer@;
        let s_trip_patterns_trip_seq = writer.write_section(self.trip_patterns_trips.as_slice());
        let ghost b2 = writer@;
        let s_trip_to_trip_pattern = writer.write_section(self.trip_to_trip_pattern.as_slice());
        let ghost b3 = writer@;
        let s_stop_to_trip_pattern = writer.write_section(self.stop_to_trip_pattern.as_slice());
        let ghost b4 = writer@;
        let s_stop_to_trip_pattern_lookup = writer.write_section(self.stop_to_trip_pattern_lookup.as_slice());
        let ghost b5 = writer@;
        let s_route_to_trips = writer.write_section(self.route_to_trips.as_slice());
        let ghost b6 = writer@;
        let s_route_to_trips_lookup = writer.write_section(self.route_to_trips_lookup.as_slice());
        let ghost b7 = writer@;
        let s_stop_to_trips = writer.write_section(self.stop_to_trips.as_slice());
        let ghost b8 = writer@;
        proof {
            assert(b8.subrange(0, b8.len() as int) =~= b8);
            lemma_prefix_trans(b7, b8, b8);
            lemma_prefix_trans(b6, b7, b8);
            lemma_prefix_trans(b5, b6, b8);
            lemma_prefix_trans(b4, b5, b8);
            lemma_prefix_trans(b3, b4, b8);
            lemma_prefix_trans(b2, b3, b8);
            lemma_prefix_trans(b1, b2, b8);
            lemma_prefix_trans(b0, b1, b8);
            lemma_table_extended::<StopIdx>(b1, b8, s_trip_patterns_stop_seq, self.trip_patterns_stop_seq@);
            lemma_table_extended::<TripIdx>(b2, b8, s_trip_patterns_trip_seq, self.trip_patterns_trips@);
            lemma_table_extended::<TripPatternIdx>(b3, b8, s_trip_to_trip_pattern, self.trip_to_trip_pattern@);
            lemma_table_extended::<TripPatternIdx>(b4, b8, s_stop_to_trip_pattern, self.stop_to_trip_pattern@);
            lemma_table_extended::<TripPatternSlice>(b5, b8, s_stop_to_trip_pattern_lookup, self.stop_to_trip_pattern_lookup@);
            lemma_table_extended::<TripIdx>(b6, b8, s_route_to_trips, self.route_to_trips@);
            lemma_table_extended::<TripSlice>(b7, b8, s_route_to_trips_lookup, self.route_to_trips_lookup@);
            lemma_table_extended::<TripIdx>(b8, b8, s_stop_to_trips, self.stop_to_trips@);
        }
        (s_trip_patterns_stop_seq, s_trip_patterns_trip_seq, s_trip_to_trip_pattern, s_stop_to_trip_pattern, s_stop_to_trip_pattern_lookup, s_route_to_trips, s_route_to_trips_lookup, s_stop_to_trips)
    }

    /// Writes tables 25 to 32 of the file.
    fn write_group_3(&self, writer: &mut BinaryWriter) -> (r: (Section, Section, Section, Section, Section, Section, Section, Section))
        ensures
            is_prefix(old(writer)@, final(writer)@),
            final(writer)@.len() % 8 == 0,
            old(writer)@.len() <= r.0.offset,
            fits::<TripSlice>(r.0, final(writer)@.len()),
            table_at::<TripSlice>(final(writer)@, r.0) == self.stop_to_trips_lookup@,
            old(writer)@.len() <= r.1.offset,
            fits::<SearchStop>(r.1, final(writer)@.len()),
            table_at::<SearchStop>(final(writer)@, r.1) == self.search_stops@,
            old(writer)@.len() <= r.2.offset,
            fits::<StopIdx>(r.2, final(writer)@.len()),
            table_at::<StopIdx>(final(writer)@, r.2) == self.search_to_stops@,
            old(writer)@.len() <= r.3.offset,
            fits::<Transfer>(r.3, final(writer)@.len()),
            table_at::<Transfer>(final(writer)@, r.3) == self.transfers@,
            old(writer)@.len() <= r.4.offset,
            fits::<TransferSlice>(r.4, final(writer)@.len()),
            table_at::<TransferSlice>(final(writer)@, r.4) == self.stop_to_transfer_out@,
            old(writer)@.len() <= r.5.offset,
            fits::<TransferIdx>(r.5, final(writer)@.len()),
            table_at::<TransferIdx>(final(writer)@, r.5) == self.transfers_in_indencies@,
            old(writer)@.len() <= r.6.offset,
            fits::<TransferSlice>(r.6, final(writer)@.len()),
            table_at::<TransferSlice>(final(writer)@, r.6) == self.stop_to_transfer_in@,
            old(writer)@.len() <= r.7.offset,
            fits_bytes(r.7, final(writer)@.len()),
            bytes_in(final(writer)@, r.7) == self.strings@,
    {
        let ghost b0 = writer@;
        let s_stop_to_trips_lookup = writer.write_section(self.stop_to_trips_lookup.as_slice());
        let ghost b1 = writer@;
        let s_search_stops = writer.write_section(self.search_stops.as_slice());
        let ghost b2 = writer@;
        let s_search_to_stops = writer.write_section(self.search_to_stops.as_slice());
        let ghost b3 = writer@;
        let s_transfers = writer.write_section(self.transfers.as_slice());
        let ghost b4 = writer@;
        let s_stop_to_transfers_out = writer.write_section(self.stop_to_transfer_out.as_slice());
        let ghost b5 = writer@;
        let s_transfers_in_indencies = writer.write_section(self.transfers_in_indencies.as_slice());
        let ghost b6 = writer@;
        let s_stop_to_transfers_in = writer.write_section(self.stop_to_transfer_in.as_slice());
        let ghost b7 = writer@;
        let s_strings = writer.write_bytes(self.strings.as_slice());
        let ghost b8 = writer@;
        proof {
            assert(b8.subrange(0, b8.len() as int) =~= b8);
            lemma_prefix_trans(b7, b8, b8);
            lemma_prefix_trans(b6, b7, b8);
            lemma_prefix_trans(b5, b6, b8);
            lemma_prefix_trans(b4, b5, b8);
            lemma_prefix_trans(b3, b4, b8);
            lemma_prefix_trans(b2, b3, b8);
            lemma_prefix_trans(b1, b2, b8);
            lemma_prefix_trans(b0, b1, b8);
            lemma_table_extended::<TripSlice>(b1, b8, s_stop_to_trips_lookup, self.stop_to_trips_lookup@);
            lemma_table_extended::<SearchStop>(b2, b8, s_search_stops, self.search_stops@);
            lemma_table_extended::<StopIdx>(b3, b8, s_search_to_stops, self.search_to_stops@);
            lemma_table_extended::<Transfer>(b4, b8, s_transfers, self.transfers@);
            lemma_table_extended::<TransferSlice>(b5, b8, s_stop_to_transfers_out, self.stop_to_transfer_out@);
            lemma_table_extended::<TransferIdx>(b6, b8, s_transfers_in_indencies, self.transfers_in_indencies@);
            lemma_table_extended::<TransferSlice>(b7, b8, s_stop_to_transfers_in, self.stop_to_transfer_in@);
            lemma_bytes_extended(b8, b8, s_strings, self.strings@);
        }
        (s_stop_to_trips_lookup, s_search_stops, s_search_to_stops, s_transfers, s_stop_to_transfers_out, s_transfers_in_indencies, s_stop_to_transfers_in, s_strings)
    }

}

/// Tables 1 to 8 of `v` lie in `b` where the header `h` says.
pub open spec fn tables_0_written(v: NetworkView, b: Seq<u8>, h: Header) -> bool {
    &&& HEADER_SIZE <= h.stops.offset
    &&& fits::<Stop>(h.stops, b.len())
    &&& table_at::<Stop>(b, h.stops) == v.stops
    &&& HEADER_SIZE <= h.stop_ids.offset
    &&& fits_bytes(h.stop_ids, b.len())
    &&& bytes_in(b, h.stop_ids) == v.stop_ids
    &&& HEADER_SIZE <= h.stops_id_lookup.offset
    &&& fits::<StopIdx>(h.stops_id_lookup, b.len())
    &&& table_at::<StopIdx>(b, h.stops_id_lookup) == v.stops_id_lookup
    &&& HEADER_SIZE <= h.routes.offset
    &&& fits::<Route>(h.routes, b.len())
    &&& table_at::<Route>(b, h.routes) == v.routes
    &&& HEADER_SIZE <= h.route_ids.offset
    &&& fits_bytes(h.route_ids, b.len())
    &&& bytes_in(b, h.route_ids) == v.route_ids
    &&& HEADER_SIZE <= h.route_id_lookup.offset
    &&& fits::<RouteIdx>(h.route_id_lookup, b.len())
    &&& table_at::<RouteIdx>(b, h.route_id_lookup) == v.routes_id_lookup
    &&& HEADER_SIZE <= h.trips.offset
    &&& fits::<Trip>(h.trips, b.len())
    &&& table_at::<Trip>(b, h.trips) == v.trips
    &&& HEADER_SIZE <= h.trip_ids.offset
    &&& fits_bytes(h.trip_ids, b.len())
    &&& bytes_in(b, h.trip_ids) == v.trip_ids
}

/// Tables 9 to 16 of `v` lie in `b` where the header `h` says.
pub open spec fn tables_1_written(v: NetworkView, b: Seq<u8>, h: Header) -> bool {
    &&& HEADER_SIZE <= h.trip_id_lookup.offset
    &&& fits::<TripIdx>(h.trip_id_lookup, b.len())
    &&& table_at::<TripIdx>(b, h.trip_id_lookup) == v.trips_id_lookup
    &&& HEADER_SIZE <= h.services.offset
    &&& fits::<Service>(h.services, b.len())
    &&& table_at::<Service>(b, h.services) == v.services
    &&& HEADER_SIZE <= h.service_ids.offset
    &&& fits_bytes(h.service_ids, b.len())
    &&& bytes_in(b, h.service_ids) == v.service_ids
    &&& HEADER_SIZE <= h.service_id_lookup.offset
    &&& fits::<ServiceIdx>(h.service_id_lookup, b.len())
    &&& table_at::<ServiceIdx>(b, h.service_id_lookup) == v.services_id_lookup
    &&& HEADER_SIZE <= h.active_mask.offset
    &&& fits_bytes(h.active_mask, b.len())
    &&& bytes_in(b, h.active_mask) == v.active_mask
    &&& HEADER_SIZE <= h.stop_times.offset
    &&& fits::<StopTime>(h.stop_times, b.len())
    &&& table_at::<StopTime>(b, h.stop_times) == v.stop_times
    &&& HEADER_SIZE <= h.shapes.offset
    &&& fits::<Shape>(h.shapes, b.len())
    &&& table_at::<Shape>(b, h.shapes) == v.shapes
    &&& HEADER_SIZE <= h.trip_patterns.offset
    &&& fits::<TripPattern>(h.trip_patterns, b.len())
    &&& table_at::<TripPattern>(b, h.trip_patterns) == v.trip_patterns
}

/// Tables 17 to 24 of `v` lie in `b` where the header `h` says.
pub open spec fn tables_2_written(v: NetworkView, b: Seq<u8>, h: Header) -> bool {
    &&& HEADER_SIZE <= h.trip_patterns_stop_seq.offset
    &&& fits::<StopIdx>(h.trip_patterns_stop_seq, b.len())
    &&& table_at::<StopIdx>(b, h.trip_patterns_stop_seq) == v.trip_patterns_stop_seq
    &&& HEADER_SIZE <= h.trip_patterns_trip_seq.offset
    &&& fits::<TripIdx>(h.trip_patterns_trip_seq, b.len())
    &&& table_at::<TripIdx>(b, h.trip_patterns_trip_seq) == v.trip_patterns_trips
    &&& HEADER_SIZE <= h.trip_to_trip_pattern.offset
    &&& fits::<TripPatternIdx>(h.trip_to_trip_pattern, b.len())
    &&& table_at::<TripPatternIdx>(b, h.trip_to_trip_pattern) == v.trip_to_trip_pattern
    &&& HEADER_SIZE <= h.stop_to_trip_pattern.offset
    &&& fits::<TripPatternIdx>(h.stop_to_trip_pattern, b.len())
    &&& table_at::<TripPatternIdx>(b, h.stop_to_trip_pattern) == v.stop_to_trip_pattern
    &&& HEADER_SIZE <= h.stop_to_trip_pattern_lookup.offset
    &&& fits::<TripPatternSlice>(h.stop_to_trip_pattern_lookup, b.len())
    &&& table_at::<TripPatternSlice>(b, h.stop_to_trip_pattern_lookup) == v.stop_to_trip_pattern_lookup
    &&& HEADER_SIZE <= h.route_to_trips.offset
    &&& fits::<TripIdx>(h.route_to_trips, b.len())
    &&& table_at::<TripIdx>(b, h.route_to_trips) == v.route_to_trips
    &&& HEADER_SIZE <= h.route_to_trips_lookup.offset
    &&& fits::<TripSlice>(h.route_to_trips_lookup, b.len())
    &&& table_at::<TripSlice>(b, h.route_to_trips_lookup) == v.route_to_trips_lookup
    &&& HEADER_SIZE <= h.stop_to_trips.offset
    &&& fits::<TripIdx>(h.stop_to_trips, b.len())
    &&& table_at::<TripIdx>(b, h.stop_to_trips) == v.stop_to_trips
}

/// Tables 25 to 32 of `v` lie in `b` where the header `h` says.
pub open spec fn tables_3_written(v: NetworkView, b: Seq<u8>, h: Header) -> bool {
    &&& HEADER_SIZE <= h.stop_to_trips_lookup.offset
    &&& fits::<TripSlice>(h.stop_to_trips_lookup, b.len())
    &&& table_at::<TripSlice>(b, h.stop_to_trips_lookup) == v.stop_to_trips_lookup
    &&& HEADER_SIZE <= h.search_stops.offset
    &&& fits::<SearchStop>(h.search_stops, b.len())
    &&& table_at::<SearchStop>(b, h.search_stops) == v.search_stops
    &&& HEADER_SIZE <= h.search_to_stops.offset
    &&& fits::<StopIdx>(h.search_to_stops, b.len())
    &&& table_at::<StopIdx>(b, h.search_to_stops) == v.search_to_stops
    &&& HEADER_SIZE <= h.transfers.offset
    &&& fits::<Transfer>(h.transfers, b.len())
    &&& table_at::<Transfer>(b, h.transfers) == v.transfers
    &&& HEADER_SIZE <= h.stop_to_transfers_out.offset
    &&& fits::<TransferSlice>(h.stop_to_transfers_out, b.len())
    &&& table_at::<TransferSlice>(b, h.stop_to_transfers_out) == v.stop_to_transfer_out
    &&& HEADER_SIZE <= h.transfers_in_indencies.offset
    &&& fits::<TransferIdx>(h.transfers_in_indencies, b.len())
    &&& table_at::<TransferIdx>(b, h.transfers_in_indencies) == v.transfers_in_indencies
    &&& HEADER_SIZE <= h.stop_to_transfers_in.offset
    &&& fits::<TransferSlice>(h.stop_to_transfers_in, b.len())
    &&& table_at::<TransferSlice>(b, h.stop_to_transfers_in) == v.stop_to_transfer_in
    &&& HEADER_SIZE <= h.strings.offset
    &&& fits_bytes(h.strings, b.len())
    &&& bytes_in(b, h.strings) == v.strings
}

/// Tables 1 to 8, written into `bk`, are still there once more is
/// appended and the header bytes are replaced.
proof fn lemma_tables_0_kept(v: NetworkView, bk: Seq<u8>, unpatched: Seq<u8>, fin: Seq<u8>, h: Header)
    requires
        is_prefix(bk, unpatched),
        tables_0_written(v, bk, h),
        fin.len() == unpatched.len(),
        fin.skip(HEADER_SIZE as int) == unpatched.skip(HEADER_SIZE as int),
    ensures
        tables_0_written(v, fin, h),
{
    lemma_table_kept::<Stop>(bk, unpatched, fin, h.stops, v.stops);
    lemma_bytes_kept(bk, unpatched, fin, h.stop_ids, v.stop_ids);
    lemma_table_kept::<StopIdx>(bk, unpatched, fin, h.stops_id_lookup, v.stops_id_lookup);
    lemma_table_kept::<Route>(bk, unpatched, fin, h.routes, v.routes);
    lemma_bytes_kept(bk, unpatched, fin, h.route_ids, v.route_ids);
    lemma_table_kept::<RouteIdx>(bk, unpatched, fin, h.route_id_lookup, v.routes_id_lookup);
    lemma_table_kept::<Trip>(bk, unpatched, fin, h.trips, v.trips);
    lemma_bytes_kept(bk, unpatched, fin, h.trip_ids, v.trip_ids);
}

/// Tables 9 to 16, written into `bk`, are still there once more is
/// appended and the header bytes are replaced.
proof fn lemma_tables_1_kept(v: NetworkView, bk: Seq<u8>, unpatched: Seq<u8>, fin: Seq<u8>, h: Header)
    requires
        is_prefix(bk, unpatched),
        tables_1_written(v, bk, h),
        fin.len() == unpatched.len(),
        fin.skip(HEADER_SIZE as int) == unpatched.skip(HEADER_SIZE as int),
    ensures
        tables_1_written(v, fin, h),
{
    lemma_table_kept::<TripIdx>(bk, unpatched, fin, h.trip_id_lookup, v.trips_id_lookup);
    lemma_table_kept::<Service>(bk, unpatched, fin, h.services, v.services);
    lemma_bytes_kept(bk, unpatched, fin, h.service_ids, v.service_ids);
    lemma_table_kept::<ServiceIdx>(bk, unpatched, fin, h.service_id_lookup, v.services_id_lookup);
    lemma_bytes_kept(bk, unpatched, fin, h.active_mask, v.active_mask);
    lemma_table_kept::<StopTime>(bk, unpatched, fin, h.stop_times, v.stop_times);
    lemma_table_kept::<Shape>(bk, unpatched, fin, h.shapes, v.shapes);
    lemma_table_kept::<TripPattern>(bk, unpatched, fin, h.trip_patterns, v.trip_patterns);
}

/// Tables 17 to 24, written into `bk`, are still there once more is
/// appended and the header bytes are replaced.
proof fn lemma_tables_2_kept(v: NetworkView, bk: Seq<u8>, unpatched: Seq<u8>, fin: Seq<u8>, h: Header)
    requires
        is_prefix(bk, unpatched),
        tables_2_written(v, bk, h),
        fin.len() == unpatched.len(),
        fin.skip(HEADER_SIZE as int) == unpatched.skip(HEADER_SIZE as int),
    ensures
        tables_2_written(v, fin, h),
{
    lemma_table_kept::<StopIdx>(bk, unpatched, fin, h.trip_patterns_stop_seq, v.trip_patterns_stop_seq);
    lemma_table_kept::<TripIdx>(bk, unpatched, fin, h.trip_patterns_trip_seq, v.trip_patterns_trips);
    lemma_table_kept::<TripPatternIdx>(bk, unpatched, fin, h.trip_to_trip_pattern, v.trip_to_trip_pattern);
    lemma_table_kept::<TripPatternIdx>(bk, unpatched, fin, h.stop_to_trip_pattern, v.stop_to_trip_pattern);
    lemma_table_kept::<TripPatternSlice>(bk, unpatched, fin, h.stop_to_trip_pattern_lookup, v.stop_to_trip_pattern_lookup);
    lemma_table_kept::<TripIdx>(bk, unpatched, fin, h.route_to_trips, v.route_to_trips);
    lemma_table_kept::<TripSlice>(bk, unpatched, fin, h.route_to_trips_lookup, v.route_to_trips_lookup);
    lemma_table_kept::<TripIdx>(bk, unpatched, fin, h.stop_to_trips, v.stop_to_trips);
}

/// Tables 25 to 32, written into `bk`, are still there once more is
/// appended and the header bytes are replaced.
proof fn lemma_tables_3_kept(v: NetworkView, bk: Seq<u8>, unpatched: Seq<u8>, fin: Seq<u8>, h: Header)
    requires
        is_prefix(bk, unpatched),
        tables_3_written(v, bk, h),
        fin.len() == unpatched.len(),
        fin.skip(HEADER_SIZE as int) == unpatched.skip(HEADER_SIZE as int),
    ensures
        tables_3_written(v, fin, h),
{
    lemma_table_kept::<TripSlice>(bk, unpatched, fin, h.stop_to_trips_lookup, v.stop_to_trips_lookup);
    lemma_table_kept::<SearchStop>(bk, unpatched, fin, h.search_stops, v.search_stops);
    lemma_table_kept::<StopIdx>(bk, unpatched, fin, h.search_to_stops, v.search_to_stops);
    lemma_table_kept::<Transfer>(bk, unpatched, fin, h.transfers, v.transfers);
    lemma_table_kept::<TransferSlice>(bk, unpatched, fin, h.stop_to_transfers_out, v.stop_to_transfer_out);
    lemma_table_kept::<TransferIdx>(bk, unpatched, fin, h.transfers_in_indencies, v.transfers_in_indencies);
    lemma_table_kept::<TransferSlice>(bk, unpatched, fin, h.stop_to_transfers_in, v.stop_to_transfer_in);
    lemma_bytes_kept(bk, unpatched, fin, h.strings, v.strings);
}

/// A file whose header is `h` and whose tables lie where `h` says reads back
/// as those tables.
proof fn lemma_read_back(b: Seq<u8>, h: Header, v: NetworkView)
    requires
        HEADER_SIZE <= b.len(),
        record_at::<Header>(b, 0) == h,
        h.magic == MAGIC,
        h.version == GTFS_BIN_VERSION,
        tables_0_written(v, b, h),
        tables_1_written(v, b, h),
        tables_2_written(v, b, h),
        tables_3_written(v, b, h),
    ensures
        parse_network(b) == Ok::<NetworkView, Error>(v),
{
}

/// A table written into `bk` is still there once more is appended.
proof fn lemma_table_extended<T: Record>(bk: Seq<u8>, b: Seq<u8>, s: Section, items: Seq<T>)
    requires
        is_prefix(bk, b),
        s.offset + s.count * (4 * T::spec_word_count()) <= bk.len(),
        records_at::<T>(bk, s.offset as int, s.count as nat) == items,
    ensures
        fits::<T>(s, b.len()),
        table_at::<T>(b, s) == items,
{
    crate::codec::lemma_records_prefix::<T>(bk, b, s.offset as int, s.count as nat);
}

/// Raw bytes written into `bk` are still there once more is appended.
proof fn lemma_bytes_extended(bk: Seq<u8>, b: Seq<u8>, s: Section, items: Seq<u8>)
    requires
        is_prefix(bk, b),
        s.offset + s.count <= bk.len(),
        bk.subrange(s.offset as int, s.offset + s.count) == items,
    ensures
        fits_bytes(s, b.len()),
        bytes_in(b, s) == items,
{
    assert(bytes_in(b, s) =~= items) by {
        assert forall|j: int| 0 <= j < s.count implies #[trigger] bytes_in(b, s)[j] == items[j] by {
            assert(b.subrange(0, bk.len() as int)[s.offset + j] == bk[s.offset + j]);
            assert(bk.subrange(s.offset as int, s.offset + s.count)[j] == bk[s.offset + j]);
        }
    }
}

proof fn lemma_prefix_trans(a: Seq<u8>, b: Seq<u8>, c: Seq<u8>)
    requires
        is_prefix(a, b),
        is_prefix(b, c),
    ensures
        is_prefix(a, c),
{
    assert(c.subrange(0, a.len() as int) =~= c.subrange(0, b.len() as int).subrange(0, a.len() as int));
}

/// A table written into `bk` is still there once more is appended and the
/// header bytes are replaced.
proof fn lemma_table_kept<T: Record>(bk: Seq<u8>, unpatched: Seq<u8>, fin: Seq<u8>, s: Section, items: Seq<T>)
    requires
        is_prefix(bk, unpatched),
        HEADER_SIZE <= s.offset,
        fits::<T>(s, bk.len()),
        table_at::<T>(bk, s) == items,
        fin.len() == unpatched.len(),
        fin.skip(HEADER_SIZE as int) == unpatched.skip(HEADER_SIZE as int),
    ensures
        fits::<T>(s, fin.len()),
        table_at::<T>(fin, s) == items,
{
    crate::codec::lemma_records_prefix::<T>(bk, unpatched, s.offset as int, s.count as nat);
    assert(fin.skip(s.offset as int) =~= unpatched.skip(s.offset as int)) by {
        assert forall|j: int| 0 <= j < fin.len() - s.offset implies fin.skip(s.offset as int)[j] == unpatched.skip(s.offset as int)[j] by {
            assert(fin.skip(HEADER_SIZE as int)[j + s.offset - HEADER_SIZE] == unpatched.skip(HEADER_SIZE as int)[j + s.offset - HEADER_SIZE]);
        }
    }
    crate::codec::lemma_records_suffix::<T>(unpatched, fin, s.offset as int, s.count as nat);
}

/// Raw bytes written into `bk` are still there once more is appended and the
/// header bytes are replaced.
proof fn lemma_bytes_kept(bk: Seq<u8>, unpatched: Seq<u8>, fin: Seq<u8>, s: Section, items: Seq<u8>)
    requires
        is_prefix(bk, unpatched),
        HEADER_SIZE <= s.offset,
        fits_bytes(s, bk.len()),
        bytes_in(bk, s) == items,
        fin.len() == unpatched.len(),
        fin.skip(HEADER_SIZE as int) == unpatched.skip(HEADER_SIZE as int),
    ensures
        fits_bytes(s, fin.len()),
        bytes_in(fin, s) == items,
{
    assert forall|j: int| 0 <= j < s.count implies #[trigger] bytes_in(fin, s)[j] == items[j] by {
        assert(fin.skip(HEADER_SIZE as int)[s.offset + j - HEADER_SIZE] == unpatched.skip(HEADER_SIZE as int)[s.offset + j - HEADER_SIZE]);
        assert(unpatched.subrange(0, bk.len() as int)[s.offset + j] == bk[s.offset + j]);
        assert(bk.subrange(s.offset as int, s.offset + s.count)[j] == bk[s.offset + j]);
    }
    assert(bytes_in(fin, s) =~= items);
}

/// The header written over the first bytes is read back.
proof fn lemma_header_written(hb: Seq<u8>, unpatched: Seq<u8>, fin: Seq<u8>, header: Header)
    requires
        hb == crate::codec::words_to_bytes(header.spec_words()),
        hb.len() == HEADER_SIZE,
        header.spec_words().len() == Header::spec_word_count(),
        Header::spec_from_words(header.spec_words()) == header,
        HEADER_SIZE <= unpatched.len(),
        fin == Seq::<u8>::empty() + hb + unpatched.subrange(HEADER_SIZE as int, unpatched.len() as int),
    ensures
        record_at::<Header>(fin, 0) == header,
        fin.len() == unpatched.len(),
        fin.skip(HEADER_SIZE as int) == unpatched.skip(HEADER_SIZE as int),
{
    crate::codec::lemma_words_at_appended(Seq::<u8>::empty(), header.spec_words());
    assert(Seq::<u8>::empty() + hb =~= hb);
    assert(fin.subrange(0, hb.len() as int) =~= hb);
    crate::codec::lemma_words_at_prefix(hb, fin, 0, Header::spec_word_count());
    assert(fin.skip(HEADER_SIZE as int) =~= unpatched.skip(HEADER_SIZE as int));
}

} // verus!
