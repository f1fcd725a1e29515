use gtfs_bin::models::Date;
use gtfs_bin::codec::Record;
use gtfs_bin::models::{SearchIdx, SearchSlice, SearchStop};
use gtfs_bin::compiler::writer::BinaryWriter;
use gtfs_bin::consumer::Consumer;
use gtfs_bin::models::{
    Coordinate, Delay, Duration, GtfsLocationType, GtfsRouteType, LocationType, Opt, RouteType, Sentinel,
    SliceBuilder, StringSlice, StopIdx, Time,
};
use gtfs_bin::Error;

#[test]
fn test_time_text() {
    assert_eq!(Time::from_hms("08:30:15"), Some(Time(30_615)));
    assert_eq!(Time::from_hms("25:00:00"), Some(Time(90_000)));
    assert_eq!(Time::from_hms("08:30"), None);
    assert_eq!(Time(30_615).to_string(), "08:30:15");
    assert_eq!(Time(90_000).to_string(), "25:00:00");
}

#[test]
fn test_time_arithmetic_saturates() {
    let mut t = Time(10);
    t.add_assign(Duration(5));
    assert_eq!(t, Time(15));
    t.sub_assign(Duration(100));
    assert_eq!(t, Time(0));
    assert_eq!(Time(u32::MAX - 1).add_duration(Duration(10)), Time(u32::MAX));
    assert_eq!(Time(100).add_delay(Delay(-30)), Time(70));
    assert_eq!(Time(100).sub_delay(Delay(-30)), Time(130));
    assert_eq!(Time(100).sub_time(Time(160)), Duration(0));
    let mut d = Delay(30_000);
    d.add_assign(Delay(10_000));
    assert_eq!(d, Delay(i16::MAX));
}

#[test]
fn test_delay_conversion() {
    assert_eq!(Delay::from_i32(120), Delay(120));
    assert_eq!(Delay::from_i32(-40_000), Delay(i16::MAX));
    assert_eq!(Delay::from_i64(40_000), Delay(i16::MAX));
}

#[test]
fn test_opt_and_sentinels() {
    let none: Opt<StopIdx> = Opt::new(StopIdx::none());
    assert!(none.is_none());
    assert_eq!(none.get(), None);
    let some = Opt::new(StopIdx(4));
    assert!(some.is_some());
    assert_eq!(some.as_option(), Some(StopIdx(4)));
}

#[test]
fn test_location_and_route_types() {
    assert_eq!(LocationType::from_gtfs(GtfsLocationType::StopArea), LocationType::stop_area());
    assert_eq!(LocationType::from_gtfs(GtfsLocationType::Unknown(9)).0, u8::MAX);
    assert_eq!(RouteType::from_gtfs(GtfsRouteType::Bus), RouteType::bus());
    assert!(RouteType::from_gtfs(GtfsRouteType::Other(109)).contains(RouteType::rail()));
    assert!(RouteType::from_gtfs(GtfsRouteType::Other(700)).contains(RouteType::bus()));
}

#[test]
fn test_slice_builder_stores_each_text_once() {
    let mut b: SliceBuilder<StringSlice> = SliceBuilder::new();
    let a = b.add("alpha");
    let c = b.add("beta");
    let a2 = b.add("alpha");
    assert_eq!(a, a2);
    assert_eq!(a, StringSlice { start: 0, count: 5 });
    assert_eq!(c, StringSlice { start: 5, count: 4 });
    assert_eq!(b.take(), "alphabeta");
}

#[test]
fn test_binary_writer_aligns_sections() {
    let mut w = BinaryWriter::new().resize(3);
    let s = w.write_bytes(&[1, 2, 3]);
    assert_eq!(s.offset % 8, 0);
    w.overwrite(0, &[9]);
    let bytes = w.take();
    assert_eq!(bytes[0], 9);
    assert_eq!(&bytes[s.offset as usize..s.offset as usize + 3], &[1, 2, 3]);
}

#[test]
fn test_header_errors() {
    assert_eq!(Consumer::new(&[0u8; 8]).err(), Some(Error::FileTooSmall));
    let mut bytes = vec![0u8; 520];
    assert_eq!(Consumer::new(&bytes).err(), Some(Error::InvalidMagic));
    bytes[..4].copy_from_slice(b"GTFS");
    bytes[4] = 99;
    assert_eq!(Consumer::new(&bytes).err(), Some(Error::UnsupportedVersion { expected: 3, actual: 99 }));
    bytes[4] = 3;
    // The stops section claims bytes beyond the buffer.
    bytes[8] = 0xff;
    bytes[12] = 0x10;
    assert_eq!(Consumer::new(&bytes).err(), Some(Error::SectionOutOfBound));
}

#[test]
fn test_coordinate_packing_is_kept() {
    let c = Coordinate::from_packed(487_960_580, 24_493_860);
    assert_eq!(c.packed_latitude, 487_960_580);
    assert_eq!(c.packed_longitude, 24_493_860);
}

#[test]
fn test_search_stop_encoding_pads_with_zeros() {
    let s = SearchStop::new(
        SearchIdx(1),
        StringSlice { start: 2, count: 3 },
        SearchSlice { start: 4, count: 5 },
        RouteType::bus(),
    );
    let mut buf: Vec<u8> = Vec::new();
    s.write_to(&mut buf);
    assert_eq!(buf.len(), 24);
    assert_eq!(&buf[20..24], &[8, 0, 0, 0]);
    let back = SearchStop::read_from(&buf, 0);
    assert_eq!(back.route_type, RouteType::bus());
}

#[test]
fn test_slice_builder_runs_survive_later_texts() {
    let mut b: SliceBuilder<StringSlice> = SliceBuilder::with_capacity(16);
    let x = b.add("x");
    b.add("yy");
    b.add("x");
    b.add("zzz");
    let text = b.take();
    assert_eq!(text, "xyyzzz");
    assert_eq!(&text[x.start as usize..(x.start + x.count) as usize], "x");
}

#[test]
fn test_time_text_reads_back() {
    for t in [0u32, 59, 3_600, 30_615, 90_000, 359_999, 360_000, u32::MAX] {
        assert_eq!(Time::from_hms(&Time(t).to_string()), Some(Time(t)));
    }
}

#[test]
fn test_hms_fits_tells_where_reading_overflows() {
    assert!(Time::hms_fits("08:30:15"));
    assert!(Time::hms_fits("1193046:28:15"));
    assert!(!Time::hms_fits("1193047:00:00"));
    assert!(!Time::hms_fits("1193046:28:16"));
}

#[test]
fn test_date_from_civil() {
    assert_eq!(Date::from_civil(1970, 1, 1), Date(0));
    assert_eq!(Date::from_civil(2017, 1, 1), Date(17_167));
    assert_eq!(Date::from_civil(2000, 3, 1), Date(11_017));
    assert_eq!(Date::from_civil(1969, 12, 31), Date(u32::MAX));
}

#[test]
fn test_slice_builder_gives_earlier_runs_again() {
    let mut b: SliceBuilder<StringSlice> = SliceBuilder::new();
    let first = b.add("ab");
    let second = b.add("cde");
    assert_eq!(b.add("ab"), first);
    assert_eq!(second, StringSlice { start: 2, count: 3 });
    assert_eq!(b.add("f"), StringSlice { start: 5, count: 1 });
    assert_eq!(b.take(), "abcdef");
}
