use gtfs_bin::models::RouteType;

#[test]
fn test_route_types() {
    let route_type = RouteType::tram().join(RouteType::bus()).join(RouteType::subway());
    assert!(route_type.contains(RouteType::tram()));
    assert!(route_type.contains(RouteType::bus()));
    assert!(route_type.contains(RouteType::subway()));
    assert!(!route_type.contains(RouteType::rail()));
    assert!(!route_type.contains(RouteType::taxi()));
}
