use gtfs_bin::compiler::feed::{
    Feed, RawCalendar, RawCalendarDate, RawRoute, RawShape, RawStop, RawStopTime, RawTransfer, RawTrip,
};
use gtfs_bin::compiler::network::compile_feed;
use gtfs_bin::consumer::Consumer;
use gtfs_bin::models::{Coordinate, Date, Delay, Distance, GtfsLocationType, GtfsRouteType};
use gtfs_bin::rt::feed::{
    FeedEntity, FeedMessage, OccupancyStatus, StopTimeEvent, StopTimeScheduleRelationship, StopTimeUpdate,
    TripDescriptor, TripScheduleRelationship, TripUpdate, VehiclePosition, VehicleStopStatus,
};
use gtfs_bin::rt::{Realtime, RealtimeBuilder, StopTimeStatus, TripStatus};

fn stop(id: &str, parent: Option<&str>) -> RawStop {
    RawStop {
        id: id.to_string(),
        code: None,
        name: Some(format!("Stop {}", id)),
        description: None,
        coordinate: Some(Coordinate { packed_latitude: 487_960_580, packed_longitude: 24_493_860 }),
        location_type: if parent.is_some() { GtfsLocationType::StopPoint } else { GtfsLocationType::StopArea },
        parent_station: parent.map(|p| p.to_string()),
    }
}

fn route(id: &str, short_name: &str) -> RawRoute {
    RawRoute {
        id: id.to_string(),
        short_name: Some(short_name.to_string()),
        long_name: None,
        desc: None,
        route_type: GtfsRouteType::Bus,
    }
}

fn trip(id: &str, route: &str, service: &str, headsign: &str, shape: Option<&str>) -> RawTrip {
    RawTrip {
        id: id.to_string(),
        service_id: service.to_string(),
        route_id: route.to_string(),
        shape_id: shape.map(|s| s.to_string()),
        trip_headsign: Some(headsign.to_string()),
        trip_short_name: None,
    }
}

fn stop_time(trip: &str, stop: &str, sequence: u32) -> RawStopTime {
    RawStopTime { trip_id: trip.to_string(), stop_id: stop.to_string(), stop_sequence: sequence, stop_headsign: None, arrival_time: None, departure_time: None, shape_dist_traveled: None }
}

fn transfer(from: &str, to: &str, kind: u8) -> RawTransfer {
    RawTransfer { from_stop_id: from.to_string(), to_stop_id: to.to_string(), transfer_type: kind, min_transfer_time: None }
}

fn shape_point(id: &str, sequence: usize, dist: f32) -> RawShape {
    RawShape {
        id: id.to_string(),
        coordinate: Coordinate { packed_latitude: 487_960_580 + sequence as i32, packed_longitude: 24_493_860 },
        sequence,
        dist_traveled: Some(Distance(dist.to_bits())),
    }
}

/// A small network: 15 stops, 4 routes, 7 trips, 2 services, 6 transfers.
fn fixture() -> Feed {
    let mut stops = Vec::new();
    for i in 1..=15 {
        let id = format!("stop{}", i);
        let parent = if i == 3 || i == 5 { Some("stop1") } else { None };
        stops.push(stop(&id, parent));
    }
    let routes = vec![route("route1", "R1"), route("route2", "R2"), route("route3", "R3"), route("route4", "F1")];
    let trips = vec![
        trip("trip1", "route1", "service1", "85088452", None),
        trip("trip2", "route1", "service1", "85088453", None),
        trip("trip3", "route2", "service1", "85088454", None),
        trip("trip4", "route2", "service2", "85088455", None),
        trip("trip5", "route2", "service2", "85088456", Some("shape1")),
        trip("trip6", "route3", "service1", "85088457", None),
        trip("trip7", "route4", "service2", "85088458", None),
    ];
    let stop_times = vec![
        stop_time("trip1", "stop3", 2),
        stop_time("trip1", "stop2", 1),
        stop_time("trip2", "stop2", 1),
        stop_time("trip2", "stop4", 2),
        stop_time("trip3", "stop6", 1),
        stop_time("trip3", "stop7", 2),
        stop_time("trip3", "stop8", 3),
        stop_time("trip4", "stop6", 1),
        stop_time("trip4", "stop8", 2),
        stop_time("trip5", "stop9", 1),
        stop_time("trip5", "stop10", 2),
        stop_time("trip6", "stop11", 1),
        stop_time("trip6", "stop12", 2),
        stop_time("trip7", "stop6", 1),
        stop_time("trip7", "stop7", 2),
        stop_time("trip7", "stop8", 3),
    ];
    let calendar = vec![
        RawCalendar {
            id: "service1".to_string(),
            monday: false,
            tuesday: false,
            wednesday: false,
            thursday: false,
            friday: false,
            saturday: true,
            sunday: true,
            start_date: Date(17_167),
            end_date: Date(17_181),
        },
        RawCalendar {
            id: "service2".to_string(),
            monday: false,
            tuesday: false,
            wednesday: false,
            thursday: false,
            friday: false,
            saturday: true,
            sunday: false,
            start_date: Date(17_167),
            end_date: Date(17_173),
        },
    ];
    let calendar_dates = vec![
        RawCalendarDate { service_id: "service1".to_string(), date: Date(17_167), added: false },
        RawCalendarDate { service_id: "service2".to_string(), date: Date(17_167), added: true },
    ];
    let shapes = vec![shape_point("shape1", 2, 6.8310), shape_point("shape1", 1, 0.0), shape_point("shape1", 3, 15.8765)];
    let transfers = vec![
        transfer("stop5", "stop1", 0),
        transfer("stop10", "stop6", 1),
        transfer("stop8", "stop12", 2),
        transfer("stop2", "stop9", 0),
        transfer("stop13", "stop14", 3),
        transfer("stop14", "stop15", 0),
    ];
    Feed { stops, routes, trips, stop_times, calendar, calendar_dates, shapes, transfers }
}

fn load() -> Consumer {
    let bytes = compile_feed(&fixture()).expect("Failed to compile GTFS");
    Consumer::new(&bytes).expect("Failed to load graph")
}



fn descriptor(id: &str, rel: TripScheduleRelationship) -> TripDescriptor {
    TripDescriptor { trip_id: Some(id.to_string()), schedule_relationship: Some(rel) }
}

/// A feed message that cancels trip4 and delays the stop time of trip1 with
/// sequence number `trip1_target_seq` by two minutes.
fn create_fake_feed_message(trip1_target_seq: u32) -> FeedMessage {
    FeedMessage {
        entity: vec![
            FeedEntity {
                trip_update: Some(TripUpdate {
                    trip: descriptor("trip4", TripScheduleRelationship::Canceled),
                    delay: None,
                    stop_time_update: vec![],
                }),
                vehicle: None,
            },
            FeedEntity {
                trip_update: Some(TripUpdate {
                    trip: descriptor("trip1", TripScheduleRelationship::Scheduled),
                    delay: None,
                    stop_time_update: vec![StopTimeUpdate {
                        stop_sequence: Some(trip1_target_seq),
                        arrival: Some(StopTimeEvent { delay: Some(120), time: None }),
                        departure: Some(StopTimeEvent { delay: Some(120), time: None }),
                        schedule_relationship: None,
                    }],
                }),
                vehicle: None,
            },
        ],
    }
}

#[test]
fn test_realtime_builder_ingestion() {
    let consumer = load();

    let trip1 = *consumer.trip_by_id("trip1").expect("Trip 'trip1' not found");
    let stop_times = consumer.stop_times_by_trip(trip1.idx).to_vec();

    let target_seq = stop_times[0].sequence;

    let feed_message = create_fake_feed_message(target_seq);
    let realtime = RealtimeBuilder::new(&consumer).with_cascading_delays(true).build(&[feed_message]);

    let trip4 = *consumer.trip_by_id("trip4").expect("Trip 'trip4' not found");
    assert_eq!(
        realtime.trip_status[trip4.idx.0 as usize],
        TripStatus::Cancled,
        "Trip 4 should be marked as canceled"
    );

    let seq_idx = stop_times
        .binary_search_by_key(&target_seq, |st| st.sequence)
        .expect("Sequence not found in binary search");

    let global_idx = trip1.stop_times.start as usize + seq_idx;

    let arrival_delay = realtime.stop_time_arrival_delays[global_idx];
    assert!(arrival_delay.is_some(), "Expected an arrival delay");
    assert_eq!(arrival_delay.get().unwrap(), Delay(120));

    let departure_delay = realtime.stop_time_departure_delays[global_idx];
    assert!(departure_delay.is_some(), "Expected a departure delay");
    assert_eq!(departure_delay.get().unwrap(), Delay(120));

    let trip3 = *consumer.trip_by_id("trip3").expect("Trip 'trip3' not found");
    assert_eq!(
        realtime.trip_status[trip3.idx.0 as usize],
        TripStatus::Unchanged,
        "Trip 3 was not in the feed and should be unchanged"
    );
}

#[test]
fn test_realtime_starts_unchanged() {
    let consumer = load();
    let realtime = Realtime::new(&consumer);
    assert_eq!(realtime.trip_status.len(), 7);
    assert_eq!(realtime.stop_time_status.len(), 16);
    assert!(realtime.trip_status.iter().all(|s| *s == TripStatus::Unchanged));
    assert!(realtime.stop_time_arrival_delays.iter().all(|d| d.is_none()));
    assert!(realtime.trip_vehicles.iter().all(|v| v.is_none()));
}

#[test]
fn test_status_conversions() {
    assert_eq!(TripStatus::from(TripScheduleRelationship::Added), TripStatus::Added);
    assert_eq!(TripStatus::from(TripScheduleRelationship::Canceled), TripStatus::Cancled);
    assert_eq!(TripStatus::from(TripScheduleRelationship::Deleted), TripStatus::Deleted);
    assert_eq!(TripStatus::from(TripScheduleRelationship::Unscheduled), TripStatus::Unscheduled);
    assert_eq!(TripStatus::from(TripScheduleRelationship::Duplicated), TripStatus::Unchanged);
    assert_eq!(StopTimeStatus::from(StopTimeScheduleRelationship::Skipped), StopTimeStatus::Skipped);
    assert_eq!(StopTimeStatus::from(StopTimeScheduleRelationship::NoData), StopTimeStatus::NoData);
}

#[test]
fn test_trip_delay_vehicle_and_unknown_trip() {
    let consumer = load();
    let message = FeedMessage {
        entity: vec![
            FeedEntity {
                trip_update: Some(TripUpdate {
                    trip: descriptor("trip2", TripScheduleRelationship::Added),
                    delay: Some(-45),
                    stop_time_update: vec![StopTimeUpdate {
                        stop_sequence: Some(99),
                        arrival: Some(StopTimeEvent { delay: Some(10), time: None }),
                        departure: None,
                        schedule_relationship: Some(StopTimeScheduleRelationship::Skipped),
                    }],
                }),
                vehicle: Some(VehiclePosition {
                    trip: Some(descriptor("trip2", TripScheduleRelationship::Scheduled)),
                    position: Some(Coordinate { packed_latitude: 1, packed_longitude: 2 }),
                    current_stop_sequence: Some(1),
                    current_status: None,
                    occupancy_status: Some(OccupancyStatus::Full),
                    occupancy_percentage: Some(97),
                }),
            },
            FeedEntity {
                trip_update: Some(TripUpdate {
                    trip: descriptor("no-such-trip", TripScheduleRelationship::Canceled),
                    delay: None,
                    stop_time_update: vec![],
                }),
                vehicle: None,
            },
        ],
    };
    let realtime = RealtimeBuilder::new(&consumer).build(&[message]);
    let trip2 = *consumer.trip_by_id("trip2").unwrap();
    let t = trip2.idx.0 as usize;
    assert_eq!(realtime.trip_status[t], TripStatus::Added);
    assert_eq!(realtime.trip_delay[t].get(), Some(Delay(-45)));
    let vehicle = realtime.trip_vehicles[t].expect("vehicle of trip2");
    assert_eq!(vehicle.position.packed_longitude, 2);
    assert_eq!(vehicle.current_status, VehicleStopStatus::InTransitTo);
    assert_eq!(vehicle.occupancy_status, OccupancyStatus::Full);
    assert_eq!(vehicle.occupancy_percentage, Some(97));
    // The stop time update names no stop time of trip2: nothing else changes.
    assert!(realtime.stop_time_status.iter().all(|s| *s == StopTimeStatus::Unchanged));
    assert_eq!(realtime.trip_status.iter().filter(|s| **s != TripStatus::Unchanged).count(), 1);
}

#[test]
fn test_delay_from_predicted_time() {
    let mut feed = fixture();
    for st in feed.stop_times.iter_mut() {
        st.stop_headsign = None;
    }
    let bytes = compile_feed(&feed).unwrap();
    let consumer = Consumer::new(&bytes).unwrap();
    let trip1 = *consumer.trip_by_id("trip1").unwrap();
    let first = consumer.stop_times_by_trip(trip1.idx)[0];
    // Scheduled times are not carried by the compiled stop times, so a
    // predicted time alone gives no delay.
    assert!(first.departure_time.get().is_none());
    let message = FeedMessage {
        entity: vec![FeedEntity {
            trip_update: Some(TripUpdate {
                trip: descriptor("trip1", TripScheduleRelationship::Scheduled),
                delay: None,
                stop_time_update: vec![StopTimeUpdate {
                    stop_sequence: Some(first.sequence),
                    arrival: None,
                    departure: Some(StopTimeEvent { delay: None, time: Some(1_700_000_000) }),
                    schedule_relationship: Some(StopTimeScheduleRelationship::NoData),
                }],
            }),
            vehicle: None,
        }],
    };
    let realtime = RealtimeBuilder::new(&consumer).build(&[message]);
    let i = trip1.stop_times.start as usize;
    assert_eq!(realtime.stop_time_status[i], StopTimeStatus::NoData);
    assert!(realtime.stop_time_departure_delays[i].is_none());
}

#[test]
fn test_delays_cascade_to_later_stop_times() {
    let consumer = load();
    let trip1 = *consumer.trip_by_id("trip1").expect("Trip 'trip1' not found");
    let first = trip1.stop_times.start as usize;
    let target_seq = consumer.stop_times_by_trip(trip1.idx)[0].sequence;

    let on = RealtimeBuilder::new(&consumer).with_cascading_delays(true).build(&[create_fake_feed_message(target_seq)]);
    assert_eq!(on.stop_time_arrival_delays[first + 1].get(), Some(Delay(120)));
    assert_eq!(on.stop_time_departure_delays[first + 1].get(), Some(Delay(120)));

    let off = RealtimeBuilder::new(&consumer).with_cascading_delays(false).build(&[create_fake_feed_message(target_seq)]);
    assert_eq!(off.stop_time_departure_delays[first].get(), Some(Delay(120)));
    assert_eq!(off.stop_time_arrival_delays[first + 1].get(), None);
    assert_eq!(off.stop_time_departure_delays[first + 1].get(), None);
}
