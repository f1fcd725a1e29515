use gtfs_bin::compiler::services::calendar_fits;
use gtfs_bin::compiler::feed::{
    Feed, RawCalendar, RawCalendarDate, RawRoute, RawShape, RawStop, RawStopTime, RawTransfer, RawTrip,
};
use gtfs_bin::compiler::network::{compile_feed, transfer_stops_fit, CompileError};
use gtfs_bin::consumer::Consumer;
use gtfs_bin::models::{
    BitMask, Coordinate, Date, Distance, GtfsLocationType, GtfsRouteType, StopIdx, TripPatternIdx, Weekday,
};

fn stop(id: &str, parent: Option<&str>) -> RawStop {
    RawStop {
        id: id.to_string(),
        code: None,
        name: Some(format!("Stop {}", id)),
        description: None,
        coordinate: Some(Coordinate { packed_latitude: 487_960_580, packed_longitude: 24_493_860 }),
        location_type: if parent.is_some() { GtfsLocationType::StopPoint } else { GtfsLocationType::StopArea },
        parent_station: parent.map(|p| p.to_string()),
    }
}

fn route(id: &str, short_name: &str) -> RawRoute {
    RawRoute {
        id: id.to_string(),
        short_name: Some(short_name.to_string()),
        long_name: None,
        desc: None,
        route_type: GtfsRouteType::Bus,
    }
}

fn trip(id: &str, route: &str, service: &str, headsign: &str, shape: Option<&str>) -> RawTrip {
    RawTrip {
        id: id.to_string(),
        service_id: service.to_string(),
        route_id: route.to_string(),
        shape_id: shape.map(|s| s.to_string()),
        trip_headsign: Some(headsign.to_string()),
        trip_short_name: None,
    }
}

fn stop_time(trip: &str, stop: &str, sequence: u32) -> RawStopTime {
    RawStopTime { trip_id: trip.to_string(), stop_id: stop.to_string(), stop_sequence: sequence, stop_headsign: None, arrival_time: None, departure_time: None, shape_dist_traveled: None }
}

fn transfer(from: &str, to: &str, kind: u8) -> RawTransfer {
    RawTransfer { from_stop_id: from.to_string(), to_stop_id: to.to_string(), transfer_type: kind, min_transfer_time: None }
}

fn shape_point(id: &str, sequence: usize, dist: f32) -> RawShape {
    RawShape {
        id: id.to_string(),
        coordinate: Coordinate { packed_latitude: 487_960_580 + sequence as i32, packed_longitude: 24_493_860 },
        sequence,
        dist_traveled: Some(Distance(dist.to_bits())),
    }
}

/// A small network: 15 stops, 4 routes, 7 trips, 2 services, 6 transfers.
fn fixture() -> Feed {
    let mut stops = Vec::new();
    for i in 1..=15 {
        let id = format!("stop{}", i);
        let parent = if i == 3 || i == 5 { Some("stop1") } else { None };
        stops.push(stop(&id, parent));
    }
    let routes = vec![route("route1", "R1"), route("route2", "R2"), route("route3", "R3"), route("route4", "F1")];
    let trips = vec![
        trip("trip1", "route1", "service1", "85088452", None),
        trip("trip2", "route1", "service1", "85088453", None),
        trip("trip3", "route2", "service1", "85088454", None),
        trip("trip4", "route2", "service2", "85088455", None),
        trip("trip5", "route2", "service2", "85088456", Some("shape1")),
        trip("trip6", "route3", "service1", "85088457", None),
        trip("trip7", "route4", "service2", "85088458", None),
    ];
    let stop_times = vec![
        stop_time("trip1", "stop3", 2),
        stop_time("trip1", "stop2", 1),
        stop_time("trip2", "stop2", 1),
        stop_time("trip2", "stop4", 2),
        stop_time("trip3", "stop6", 1),
        stop_time("trip3", "stop7", 2),
        stop_time("trip3", "stop8", 3),
        stop_time("trip4", "stop6", 1),
        stop_time("trip4", "stop8", 2),
        stop_time("trip5", "stop9", 1),
        stop_time("trip5", "stop10", 2),
        stop_time("trip6", "stop11", 1),
        stop_time("trip6", "stop12", 2),
        stop_time("trip7", "stop6", 1),
        stop_time("trip7", "stop7", 2),
        stop_time("trip7", "stop8", 3),
    ];
    let calendar = vec![
        RawCalendar {
            id: "service1".to_string(),
            monday: false,
            tuesday: false,
            wednesday: false,
            thursday: false,
            friday: false,
            saturday: true,
            sunday: true,
            start_date: Date(17_167),
            end_date: Date(17_181),
        },
        RawCalendar {
            id: "service2".to_string(),
            monday: false,
            tuesday: false,
            wednesday: false,
            thursday: false,
            friday: false,
            saturday: true,
            sunday: false,
            start_date: Date(17_167),
            end_date: Date(17_173),
        },
    ];
    let calendar_dates = vec![
        RawCalendarDate { service_id: "service1".to_string(), date: Date(17_167), added: false },
        RawCalendarDate { service_id: "service2".to_string(), date: Date(17_167), added: true },
    ];
    let shapes = vec![shape_point("shape1", 2, 6.8310), shape_point("shape1", 1, 0.0), shape_point("shape1", 3, 15.8765)];
    let transfers = vec![
        transfer("stop5", "stop1", 0),
        transfer("stop10", "stop6", 1),
        transfer("stop8", "stop12", 2),
        transfer("stop2", "stop9", 0),
        transfer("stop13", "stop14", 3),
        transfer("stop14", "stop15", 0),
    ];
    Feed { stops, routes, trips, stop_times, calendar, calendar_dates, shapes, transfers }
}

fn load() -> Consumer {
    let bytes = compile_feed(&fixture()).expect("Failed to compile GTFS");
    Consumer::new(&bytes).expect("Failed to load graph")
}

fn text(s: Option<&str>) -> String {
    s.expect("identifier is not UTF-8").to_string()
}

#[test]
fn test_routes_lookup_and_indexing() {
    let consumer = load();

    assert_eq!(consumer.routes.len(), 4);

    let route = *consumer.route_by_id("route1").expect("Route 'route1' not found");
    assert_eq!(text(consumer.route_id(route.id)), "route1");

    let route_by_idx = *consumer.route(route.idx);
    assert_eq!(route_by_idx.idx, route.idx);
    assert_eq!(text(consumer.route_id(route_by_idx.id)), "route1");
}

#[test]
fn test_stops_lookup_and_hierarchy() {
    let consumer = load();

    assert_eq!(consumer.stops.len(), 15);

    let stop1 = *consumer.stop_by_id("stop1").expect("Stop 'stop1' not found");
    assert_eq!(text(consumer.stop_id(stop1.id)), "stop1");

    let stop3 = *consumer.stop_by_id("stop3").expect("Stop 'stop3' not found");
    assert!(stop3.parent_idx.is_some());
    assert_eq!(stop3.parent_idx.get().unwrap(), stop1.idx);

    let coord = stop1.coordinate.get().expect("Expected coordinate on stop1");
    assert_eq!(coord.packed_latitude as f64 / 10_000_000.0, 48.796058);
    assert_eq!(coord.packed_longitude as f64 / 10_000_000.0, 2.449386);
}

#[test]
fn test_trips_lookup_and_routing() {
    let consumer = load();

    assert_eq!(consumer.trips.len(), 7);

    let trip1 = *consumer.trip_by_id("trip1").expect("Trip 'trip1' not found");
    assert_eq!(text(consumer.trip_id(trip1.id)), "trip1");

    let route1 = *consumer.route_by_id("route1").unwrap();

    assert_eq!(trip1.route_idx, route1.idx);

    let trips_in_route = consumer.iter_trips_by_route(route1.idx);
    assert_eq!(trips_in_route.len(), 2);
    assert_eq!(trips_in_route[0].idx, trip1.idx);
}

#[test]
fn test_stop_times_and_trip_iterations() {
    let consumer = load();

    let trip1 = *consumer.trip_by_id("trip1").unwrap();

    let stop_times = consumer.stop_times_by_trip(trip1.idx).to_vec();
    assert_eq!(stop_times.len(), 2, "trip1 should have 2 stop times");

    let stop2 = *consumer.stop_by_id("stop2").unwrap();
    let stop3 = *consumer.stop_by_id("stop3").unwrap();

    assert_eq!(stop_times[0].stop_idx, stop2.idx);
    assert_eq!(stop_times[1].stop_idx, stop3.idx);

    let stop2_trips = consumer.iter_trips_by_stop(stop2.idx);
    assert_eq!(stop2_trips.len(), 2);
    assert_eq!(stop2_trips[0].idx, trip1.idx);

    let stop3_trips = consumer.iter_trips_by_stop(stop3.idx);
    assert_eq!(stop3_trips.len(), 1);
    assert_eq!(stop3_trips[0].idx, trip1.idx);
}

#[test]
fn test_routes_count() {
    let consumer = load();
    assert_eq!(consumer.routes.len(), 4);
}

#[test]
fn test_stops_count() {
    let consumer = load();
    assert_eq!(consumer.stops.len(), 15);
}

#[test]
fn test_trips_count() {
    let consumer = load();
    assert_eq!(consumer.trips.len(), 7);
}

#[test]
fn test_strings() {
    let consumer = load();

    let trip = *consumer.trip_by_id("trip4").expect("Failed to get trip4 by id");
    let headsign = trip.headsign.get().expect("Failed to get trip4 headsign slice");
    assert_eq!("85088455", text(consumer.string(headsign)));

    let trip = *consumer.trip_by_id("trip1").expect("Failed to get trip1 by id");
    let headsign = trip.headsign.get().expect("Failed to get trip1 headsign slice");
    assert_eq!("85088452", text(consumer.string(headsign)));

    let trip = *consumer.trip_by_id("trip3").expect("Failed to get trip3 by id");
    let headsign = trip.headsign.get().expect("Failed to get trip3 headsign slice");
    assert_eq!("85088454", text(consumer.string(headsign)));

    let route = *consumer.route_by_id("route4").expect("Failed to get route4 by id");
    let short_name = route.short_name.get().expect("Failed to get route4 short name slice");
    assert_eq!("F1", text(consumer.string(short_name)));
}

#[test]
fn test_shapes() {
    let consumer = load();

    let trip = *consumer.trip_by_id("trip5").expect("Failed to get trip5 by id");
    let shape = trip.shape.get().expect("Failed to get trip5 shape slice");

    let shapes = consumer.shapes(shape).to_vec();
    assert_eq!(shapes.len(), 3);

    let dist = shapes[0].distance_traveled.get().expect("Failed to get dist traveled");
    assert_eq!(f32::from_bits(dist.0), 0.0);

    let dist = shapes[1].distance_traveled.get().expect("Failed to get dist traveled");
    assert_eq!(f32::from_bits(dist.0), 6.8310);

    let dist = shapes[2].distance_traveled.get().expect("Failed to get dist traveled");
    assert_eq!(f32::from_bits(dist.0), 15.8765);
}

#[test]
fn test_all_routes_iteration() {
    let consumer = load();

    let route_ids: Vec<String> = consumer.routes.iter().map(|r| text(consumer.route_id(r.id))).collect();

    assert_eq!(route_ids.len(), 4);
    assert!(route_ids.contains(&"route1".to_string()));
    assert!(route_ids.contains(&"route2".to_string()));
    assert!(route_ids.contains(&"route3".to_string()));
    assert!(route_ids.contains(&"route4".to_string()));
}

#[test]
fn test_all_trips_iteration() {
    let consumer = load();

    let trip_ids: Vec<String> = consumer.trips.iter().map(|t| text(consumer.trip_id(t.id))).collect();

    assert_eq!(trip_ids.len(), 7);
    for i in 1..=7 {
        assert!(trip_ids.contains(&format!("trip{}", i)));
    }
}

#[test]
fn test_route_to_trips_mapping() {
    let consumer = load();

    let route1 = *consumer.route_by_id("route1").unwrap();
    let route2 = *consumer.route_by_id("route2").unwrap();
    let route3 = *consumer.route_by_id("route3").unwrap();
    let route4 = *consumer.route_by_id("route4").unwrap();

    assert_eq!(consumer.iter_trips_by_route(route1.idx).len(), 2);
    assert_eq!(consumer.iter_trips_by_route(route2.idx).len(), 3);
    assert_eq!(consumer.iter_trips_by_route(route3.idx).len(), 1);
    assert_eq!(consumer.iter_trips_by_route(route4.idx).len(), 1);
}

#[test]
fn test_stop_to_trips_mapping() {
    let consumer = load();

    let stop2 = *consumer.stop_by_id("stop2").unwrap();
    let stop6 = *consumer.stop_by_id("stop6").unwrap();
    let stop8 = *consumer.stop_by_id("stop8").unwrap();

    assert_eq!(consumer.iter_trips_by_stop(stop2.idx).len(), 2);
    assert_eq!(consumer.iter_trips_by_stop(stop6.idx).len(), 3);
    assert_eq!(consumer.iter_trips_by_stop(stop8.idx).len(), 3);
}

#[test]
fn test_transfers_count() {
    let consumer = load();
    assert_eq!(consumer.transfers.len(), 6);
}

fn stop_name_of(consumer: &Consumer, idx: StopIdx) -> String {
    text(consumer.stop_id(consumer.stop(idx).id))
}

#[test]
fn test_outbound_transfers() {
    let consumer = load();

    let stop5 = *consumer.stop_by_id("stop5").unwrap();
    let stop10 = *consumer.stop_by_id("stop10").unwrap();
    let stop8 = *consumer.stop_by_id("stop8").unwrap();
    let stop2 = *consumer.stop_by_id("stop2").unwrap();

    let outbound_from_stop5 = consumer.outbound_transfers_by_stop(stop5.idx).to_vec();
    assert_eq!(outbound_from_stop5.len(), 1);
    assert_eq!(stop_name_of(&consumer, outbound_from_stop5[0].to_stop_idx), "stop1");
    assert_eq!(outbound_from_stop5[0].transfer_type, 0);

    let outbound_from_stop10 = consumer.outbound_transfers_by_stop(stop10.idx).to_vec();
    assert_eq!(outbound_from_stop10.len(), 1);
    assert_eq!(stop_name_of(&consumer, outbound_from_stop10[0].to_stop_idx), "stop6");
    assert_eq!(outbound_from_stop10[0].transfer_type, 1);

    let outbound_from_stop8 = consumer.outbound_transfers_by_stop(stop8.idx).to_vec();
    assert_eq!(outbound_from_stop8.len(), 1);
    assert_eq!(stop_name_of(&consumer, outbound_from_stop8[0].to_stop_idx), "stop12");
    assert_eq!(outbound_from_stop8[0].transfer_type, 2);

    let outbound_from_stop2 = consumer.outbound_transfers_by_stop(stop2.idx).to_vec();
    assert_eq!(outbound_from_stop2.len(), 1);
    assert_eq!(stop_name_of(&consumer, outbound_from_stop2[0].to_stop_idx), "stop9");
    assert_eq!(outbound_from_stop2[0].transfer_type, 0);
}

#[test]
fn test_inbound_transfers() {
    let consumer = load();

    let stop1 = *consumer.stop_by_id("stop1").unwrap();
    let stop6 = *consumer.stop_by_id("stop6").unwrap();
    let stop12 = *consumer.stop_by_id("stop12").unwrap();

    let inbound_to_stop1 = consumer.iter_inbound_transfers_by_stop(stop1.idx);
    assert_eq!(inbound_to_stop1.len(), 1);
    assert_eq!(stop_name_of(&consumer, inbound_to_stop1[0].from_stop_idx), "stop5");

    let inbound_to_stop6 = consumer.iter_inbound_transfers_by_stop(stop6.idx);
    assert_eq!(inbound_to_stop6.len(), 1);
    assert_eq!(stop_name_of(&consumer, inbound_to_stop6[0].from_stop_idx), "stop10");

    let inbound_to_stop12 = consumer.iter_inbound_transfers_by_stop(stop12.idx);
    assert_eq!(inbound_to_stop12.len(), 1);
    assert_eq!(stop_name_of(&consumer, inbound_to_stop12[0].from_stop_idx), "stop8");
}

#[test]
fn test_services_and_calendar() {
    let consumer = load();

    assert_eq!(consumer.services.len(), 2, "Expected exactly 2 services");

    let service1 = *consumer.service_by_id("service1").expect("service1 not found");
    let service2 = *consumer.service_by_id("service2").expect("service2 not found");

    assert_eq!(service1.start_date.to_string(), "2017-01-01");
    assert_eq!(service1.end_date.to_string(), "2017-01-15");

    assert!(service1.weekdays.contains(Weekday::saturday()));
    assert!(service1.weekdays.contains(Weekday::sunday()));
    assert!(!service1.weekdays.contains(Weekday::monday()));

    assert_eq!(service2.start_date.to_string(), "2017-01-01");
    assert_eq!(service2.end_date.to_string(), "2017-01-07");
    assert!(!service2.weekdays.contains(Weekday::sunday()));

    assert!(
        !consumer.is_service_active(service1.idx, Date(service1.start_date.0)),
        "service1 should be removed on 2017-01-01"
    );
    assert!(
        !consumer.is_service_active(service1.idx, Date(service1.start_date.0 + 1)),
        "service1 should be inactive on 2017-01-02"
    );
    assert!(
        consumer.is_service_active(service1.idx, Date(service1.start_date.0 + 6)),
        "service1 should be active on 2017-01-07 (Sat)"
    );
    assert!(
        consumer.is_service_active(service2.idx, Date(service2.start_date.0)),
        "service2 should be added on 2017-01-01"
    );
    assert!(
        !consumer.is_service_active(service2.idx, Date(service2.start_date.0 + 1)),
        "service2 should be inactive on 2017-01-02"
    );
    assert!(
        consumer.is_service_active(service2.idx, Date(service2.start_date.0 + 6)),
        "service2 should be inactive on 2017-01-07"
    );
}

#[test]
fn test_trip_patterns() {
    let consumer = load();

    assert_eq!(consumer.trip_patterns.len(), 6);

    let trip3 = *consumer.trip_by_id("trip3").expect("trip3 not found");
    let trip7 = *consumer.trip_by_id("trip7").expect("trip7 not found");

    let pattern_idx_3: TripPatternIdx = consumer.trip_to_trip_pattern[trip3.idx.0 as usize];
    let pattern_idx_7: TripPatternIdx = consumer.trip_to_trip_pattern[trip7.idx.0 as usize];

    assert_eq!(pattern_idx_3, pattern_idx_7, "trip3 and trip7 should share a pattern");

    let trips_in_pattern: Vec<String> =
        consumer.iter_trips_in_trip_pattern(pattern_idx_3).iter().map(|t| text(consumer.trip_id(t.id))).collect();

    assert_eq!(trips_in_pattern.len(), 2);
    assert!(trips_in_pattern.contains(&"trip3".to_string()));
    assert!(trips_in_pattern.contains(&"trip7".to_string()));

    let stops_in_pattern: Vec<String> = consumer
        .iter_stop_sequence_by_trip_pattern(pattern_idx_3)
        .iter()
        .map(|s| text(consumer.stop_id(s.id)))
        .collect();

    assert_eq!(stops_in_pattern.len(), 3);
    assert!(stops_in_pattern.contains(&"stop6".to_string()));
    assert!(stops_in_pattern.contains(&"stop7".to_string()));
    assert!(stops_in_pattern.contains(&"stop8".to_string()));

    let trip1 = *consumer.trip_by_id("trip1").expect("trip1 not found");
    let pattern_idx_1 = consumer.trip_to_trip_pattern[trip1.idx.0 as usize];

    let trips_in_pattern_1: Vec<String> =
        consumer.iter_trips_in_trip_pattern(pattern_idx_1).iter().map(|t| text(consumer.trip_id(t.id))).collect();

    assert_eq!(trips_in_pattern_1.len(), 1);
    assert_eq!(trips_in_pattern_1[0], "trip1");

    let stop6 = *consumer.stop_by_id("stop6").expect("stop6 not found");
    let patterns = consumer.iter_trip_patterns_by_stop(stop6.idx);
    assert_eq!(2, patterns.len())
}

#[test]
fn test_round_trip_of_bytes() {
    let consumer = load();
    let again = Consumer::new(&consumer.to_bytes()).expect("re-read");
    assert_eq!(again.to_bytes(), consumer.to_bytes());
    assert_eq!(again.stops.len(), 15);
    assert_eq!(again.active_mask, consumer.active_mask);
}

#[test]
fn test_unknown_ids_are_not_found() {
    let consumer = load();
    assert!(consumer.stop_by_id("stop99").is_none());
    assert!(consumer.route_by_id("").is_none());
    assert!(consumer.trip_by_id("trip8").is_none());
    assert!(consumer.service_by_id("service3").is_none());
}

#[test]
fn test_trips_of_unknown_routes_are_dropped() {
    let mut feed = fixture();
    feed.trips.push(trip("trip8", "route9", "service1", "x", None));
    feed.stop_times.push(stop_time("trip8", "stop1", 1));
    let bytes = compile_feed(&feed).expect("Failed to compile GTFS");
    let consumer = Consumer::new(&bytes).expect("Failed to load graph");
    assert_eq!(consumer.trips.len(), 7);
    assert!(consumer.trip_by_id("trip8").is_none());
    assert_eq!(consumer.stop_times.len(), 16);
}

#[test]
fn test_texts_are_stored_once() {
    let consumer = load();
    let stop1 = *consumer.stop_by_id("stop1").unwrap();
    let name = stop1.name.get().unwrap();
    assert_eq!(text(consumer.string(name)), "Stop stop1");
    let mut feed = fixture();
    for s in feed.stops.iter_mut() {
        s.name = Some("Same".to_string());
    }
    let consumer = Consumer::new(&compile_feed(&feed).unwrap()).unwrap();
    let first = consumer.stops[0].name.get().unwrap();
    for s in consumer.stops.iter() {
        assert_eq!(s.name.get().unwrap(), first);
    }
}

#[test]
fn test_mask_too_large_is_refused() {
    let mut feed = fixture();
    feed.calendar[0].end_date = Date(u32::MAX - 1);
    assert_eq!(compile_feed(&feed).err(), Some(CompileError::TooLarge));
}

#[test]
fn test_corrupt_header_is_refused() {
    let consumer = load();
    let mut bytes = consumer.to_bytes();
    bytes[0] = b'X';
    assert!(Consumer::new(&bytes).is_err());
    assert!(Consumer::new(&bytes[..10]).is_err());
}

#[test]
fn test_rows_naming_unknown_stops_are_dropped() {
    let mut feed = fixture();
    feed.stop_times.push(stop_time("trip1", "stop99", 3));
    feed.transfers.push(transfer("stop1", "stop99", 0));
    feed.transfers.push(transfer("stop99", "stop1", 0));
    let consumer = Consumer::new(&compile_feed(&feed).unwrap()).unwrap();
    assert_eq!(consumer.stop_times.len(), 16);
    assert_eq!(consumer.transfers.len(), 6);
    let trip1 = *consumer.trip_by_id("trip1").unwrap();
    assert_eq!(consumer.stop_times_by_trip(trip1.idx).len(), 2);
}

#[test]
fn test_transfers_are_ordered_by_the_stop_they_leave() {
    let consumer = load();
    for pair in consumer.transfers.windows(2) {
        assert!(pair[0].from_stop_idx.0 <= pair[1].from_stop_idx.0);
    }
    let stop2 = *consumer.stop_by_id("stop2").unwrap();
    let stop9 = *consumer.stop_by_id("stop9").unwrap();
    assert_eq!(consumer.transfers[0].from_stop_idx, stop2.idx);
    assert_eq!(consumer.transfers[0].to_stop_idx, stop9.idx);
}

#[test]
fn test_stop_times_are_ordered_by_trip_and_sequence() {
    let consumer = load();
    for pair in consumer.stop_times.windows(2) {
        let (a, b) = (pair[0], pair[1]);
        assert!(a.trip_idx.0 < b.trip_idx.0 || (a.trip_idx.0 == b.trip_idx.0 && a.sequence <= b.sequence));
    }
    for (k, st) in consumer.stop_times.iter().enumerate() {
        assert_eq!(st.idx.0 as usize, k);
    }
}

#[test]
fn test_each_trip_calls_at_its_pattern_stops() {
    let consumer = load();
    for trip in consumer.trips.iter() {
        let pattern = *consumer.trip_pattern_by_trip(trip.idx);
        let trip_stops: Vec<StopIdx> = consumer.stop_times_by_trip(trip.idx).iter().map(|st| st.stop_idx).collect();
        assert_eq!(consumer.stop_sequence_by_trip_pattern(pattern.idx).to_vec(), trip_stops);
        assert!(consumer.trips_in_trip_pattern(pattern.idx).contains(&trip.idx));
    }
}

#[test]
fn test_compiled_bytes_are_whole_words() {
    let bytes = compile_feed(&fixture()).unwrap();
    assert_eq!(bytes.len() % 8, 0);
    assert_eq!(&bytes[0..4], b"GTFS");
    assert_eq!(load().to_bytes().len() % 8, 0);
}

#[test]
fn test_stop_times_keep_their_times_and_distance() {
    let mut feed = fixture();
    for st in feed.stop_times.iter_mut() {
        if st.trip_id == "trip1" && st.stop_id == "stop2" {
            st.arrival_time = Some(3600);
            st.departure_time = Some(3660);
            st.shape_dist_traveled = Some(Distance(1.5f32.to_bits()));
        }
    }
    let consumer = Consumer::new(&compile_feed(&feed).unwrap()).unwrap();
    let trip1 = *consumer.trip_by_id("trip1").unwrap();
    let sts = consumer.stop_times_by_trip(trip1.idx).to_vec();
    assert_eq!(sts[0].arrival_time.get(), Some(gtfs_bin::models::Time(3600)));
    assert_eq!(sts[0].departure_time.get(), Some(gtfs_bin::models::Time(3660)));
    assert_eq!(sts[0].distance_traveled.get(), Some(Distance(1.5f32.to_bits())));
    assert_eq!(sts[1].arrival_time.get(), None);
}

#[test]
fn test_calendar_dates_can_put_a_reversed_range_in_order() {
    let mut feed = fixture();
    feed.calendar[1].start_date = Date(17_173);
    feed.calendar[1].end_date = Date(17_170);
    // service2 has a calendar date on 17_167, which widens its range to 17_167..=17_170.
    assert!(calendar_fits(&feed.calendar, &feed.calendar_dates));
    let consumer = Consumer::new(&compile_feed(&feed).unwrap()).unwrap();
    let service2 = *consumer.service_by_id("service2").unwrap();
    assert_eq!(service2.start_date, Date(17_167));
    assert_eq!(service2.end_date, Date(17_170));

    let mut bad = fixture();
    bad.calendar[0].start_date = Date(17_181);
    bad.calendar[0].end_date = Date(17_170);
    // A date on 17_175 first moves the start to 17_175, the date on 17_167 then moves it to
    // 17_167: the range 17_167..=17_170 runs forward but leaves 17_175 outside.
    bad.calendar_dates.insert(0, RawCalendarDate { service_id: "service1".to_string(), date: Date(17_175), added: true });
    assert!(!calendar_fits(&bad.calendar, &bad.calendar_dates));
}

#[test]
fn test_every_route_and_search_group_is_found() {
    let consumer = load();
    for r in consumer.routes.iter() {
        let id = text(consumer.route_id(r.id));
        assert_eq!(consumer.route_by_id(&id).unwrap().idx, r.idx);
    }
    for g in consumer.search_stops.iter() {
        assert!(g.stops.count > 0);
    }
    for pair in consumer.search_stops.windows(2) {
        assert!((pair[0].name.start, pair[0].name.count) < (pair[1].name.start, pair[1].name.count));
    }
}

#[test]
fn test_transfer_lookups_have_one_entry_per_distinct_stop_id() {
    let mut feed = fixture();
    feed.stops.push(stop("stop4", None));
    assert!(transfer_stops_fit(&feed));
    let consumer = Consumer::new(&compile_feed(&feed).unwrap()).unwrap();
    assert_eq!(consumer.stops.len(), 16);
    assert_eq!(consumer.stop_to_transfer_out.len(), 15);
    assert_eq!(consumer.stop_to_transfer_in.len(), 15);

    let mut unfit = fixture();
    unfit.stops.push(stop("stop2", None));
    assert!(!transfer_stops_fit(&unfit));
}

#[test]
fn test_is_queryable() {
    let mut consumer = load();
    assert!(consumer.is_queryable());
    consumer.stop_times[0].stop_idx = StopIdx(999);
    assert!(!consumer.is_queryable());
    let mut unsorted = load();
    unsorted.routes_id_lookup.swap(0, 1);
    assert!(!unsorted.is_queryable());
}

#[test]
fn test_patterns_by_stop_call_at_the_stop() {
    let consumer = load();
    let mut next_start = 0;
    for pattern in consumer.trip_patterns.iter() {
        assert_eq!(pattern.stops.start, next_start);
        next_start += pattern.stops.count;
    }
    assert_eq!(next_start as usize, consumer.trip_patterns_stop_seq.len());
    for stop in consumer.stops.iter() {
        let listed = consumer.trip_patterns_by_stop(stop.idx);
        for pattern in consumer.trip_patterns.iter() {
            let calls = consumer.stop_sequence_by_trip_pattern(pattern.idx).iter().filter(|s| **s == stop.idx).count();
            let times = listed.iter().filter(|p| **p == pattern.idx).count();
            assert_eq!(calls, times);
        }
    }
}

#[test]
fn test_compiled_bytes_read_back_with_every_stop_and_route() {
    let feed = fixture();
    let bytes = compile_feed(&feed).unwrap();
    assert_eq!(&bytes[0..4], b"GTFS");
    assert_eq!(u32::from_le_bytes([bytes[4], bytes[5], bytes[6], bytes[7]]), gtfs_bin::GTFS_BIN_VERSION);
    assert_eq!(gtfs_bin::GTFS_BIN_VERSION, 3);
    let consumer = Consumer::new(&bytes).expect("compiled bytes read back");
    assert_eq!(consumer.stops.len(), feed.stops.len());
    assert_eq!(consumer.routes.len(), feed.routes.len());
}
