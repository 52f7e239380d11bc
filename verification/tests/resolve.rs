use suumo_traveltime::cache::{CoordinateCache, DurationCache};
use suumo_traveltime::resolve::{scan, Action, Resolution};
use suumo_traveltime::rows::RouteTime;
use suumo_traveltime::{
    Building, Coordinates, Criterion, Error, GeocodeError, RoutingError, TransportationMode,
};

fn at(lng: f64, lat: f64) -> Coordinates {
    Coordinates { longitude_bits: lng.to_bits(), latitude_bits: lat.to_bits() }
}

fn criterion(mode: TransportationMode, address: &str, minutes: usize) -> Criterion {
    Criterion {
        mode,
        address: address.to_string(),
        time: minutes,
        color: "#c92a2a".to_string(),
        location: at(0.0, 0.0),
    }
}

fn building(k: usize) -> Building {
    Building::new(format!("Building {k}"), format!("Address {k}"), at(k as f64, -(k as f64)), Vec::new())
}

fn buildings(count: usize) -> Vec<Building> {
    (0..count).map(building).collect()
}

fn machine(criteria: Vec<Criterion>, count: usize) -> Resolution {
    Resolution::new(
        criteria,
        buildings(count),
        CoordinateCache::new(),
        DurationCache::new(),
        "2025-01-20T08:00:00+09:00".to_string(),
    )
}

const X_ANSWER: &str = r#"{"results": [{"location": {"latitude": 35.5, "longitude": 139.5}}]}"#;

fn exists_row(index: usize, seconds: usize) -> String {
    format!(r#"{{"originIndex": 0, "destinationIndex": {index}, "duration": "{seconds}s", "condition": "ROUTE_EXISTS"}}"#)
}

fn body(rows: &[String]) -> String {
    format!("[{}]", rows.join(","))
}

#[test]
fn one_criterion_two_buildings() {
    let mut m = machine(vec![criterion(TransportationMode::Cycling, "X", 20)], 2);
    assert_eq!(m.next_action(), Action::Geocode { address: "X".to_string() });
    assert!(m.awaits_location());
    assert_eq!(m.on_geocode(X_ANSWER), Ok(()));
    let action = m.next_action();
    match &action {
        Action::Route(request) => {
            assert_eq!(request.origin, at(139.5, 35.5));
            assert_eq!(request.destinations, vec![at(0.0, -0.0), at(1.0, -1.0)]);
            assert_eq!(request.travel_mode, "BICYCLE");
            assert_eq!(request.departure_time, "2025-01-20T08:00:00+09:00");
        }
        other => panic!("expected a routing request, got {other:?}"),
    }
    assert!(m.awaits_route());
    assert_eq!(m.on_route(200, &body(&[exists_row(0, 1000), exists_row(1, 1500)])), Ok(()));
    assert_eq!(m.next_action(), Action::Finished);
    assert_eq!(m.next_action(), Action::Finished);

    let (criteria, buildings, coordinates, durations) = m.finish();
    assert_eq!(criteria[0].location, at(139.5, 35.5));
    assert_eq!(buildings[0].time_under(0), Some(1000));
    assert_eq!(buildings[0].times.get(&0).unwrap().0, criteria[0]);
    assert_eq!(buildings[1].time_under(0), None);
    assert!(buildings[1].times.is_empty());
    assert!(buildings[0].is_reachable_under_all(1));
    assert!(!buildings[1].is_reachable_under_all(1));
    assert_eq!(coordinates.get("X"), Some(at(139.5, 35.5)));
    assert_eq!(durations.get("X", "Address 0", TransportationMode::Cycling), Some(1000));
    assert_eq!(durations.get("X", "Address 1", TransportationMode::Cycling), Some(1500));
}

fn answer_all(request_len: usize, seconds: usize) -> String {
    let rows: Vec<String> = (0..request_len).map(|j| exists_row(j, seconds)).collect();
    body(&rows)
}

fn drive(m: &mut Resolution, seconds: usize) -> (usize, Vec<usize>) {
    let mut lookups = 0;
    let mut requests = Vec::new();
    loop {
        match m.next_action() {
            Action::Geocode { .. } => {
                lookups += 1;
                m.on_geocode(X_ANSWER).unwrap();
            }
            Action::Route(request) => {
                requests.push(request.destinations.len());
                m.on_route(200, &answer_all(request.destinations.len(), seconds)).unwrap();
            }
            Action::Finished => return (lookups, requests),
        }
    }
}

#[test]
fn seven_hundred_buildings_driving() {
    let mut m = machine(vec![criterion(TransportationMode::Driving, "X", 20)], 700);
    let (lookups, requests) = drive(&mut m, 600);
    assert_eq!(lookups, 1);
    assert_eq!(requests, vec![625, 75]);
    assert!(m.buildings().iter().all(|b| b.time_under(0) == Some(600)));
}

#[test]
fn hundred_fifty_buildings_by_transit() {
    let mut m = machine(vec![criterion(TransportationMode::Public, "X", 20)], 150);
    let (_, requests) = drive(&mut m, 600);
    assert_eq!(requests, vec![100, 50]);
}

#[test]
fn second_chunk_maps_rows_to_its_own_buildings() {
    let mut m = machine(vec![criterion(TransportationMode::Public, "X", 20)], 101);
    assert_eq!(m.next_action(), Action::Geocode { address: "X".to_string() });
    m.on_geocode(X_ANSWER).unwrap();
    match m.next_action() {
        Action::Route(r) => assert_eq!(r.destinations.len(), 100),
        other => panic!("unexpected {other:?}"),
    }
    m.on_route(200, "[]").unwrap();
    match m.next_action() {
        Action::Route(r) => assert_eq!(r.destinations, vec![at(100.0, -100.0)]),
        other => panic!("unexpected {other:?}"),
    }
    m.on_route(200, &body(&[exists_row(0, 30)])).unwrap();
    assert_eq!(m.next_action(), Action::Finished);
    assert_eq!(m.buildings()[100].time_under(0), Some(30));
    assert_eq!(m.buildings()[0].time_under(0), None);
    assert_eq!(m.durations().get("X", "Address 100", TransportationMode::Public), Some(30));
    assert_eq!(m.durations().len(), 1);
}

#[test]
fn second_run_is_served_by_the_caches() {
    let criteria = || {
        vec![
            criterion(TransportationMode::Cycling, "X", 20),
            criterion(TransportationMode::Walking, "X", 10),
        ]
    };
    let mut first = machine(criteria(), 3);
    let mut calls = 0;
    loop {
        match first.next_action() {
            Action::Geocode { .. } => {
                calls += 1;
                first.on_geocode(X_ANSWER).unwrap();
            }
            Action::Route(request) => {
                calls += 1;
                let rows: Vec<String> = (0..request.destinations.len())
                    .map(|j| exists_row(j, 500 * (j + 1)))
                    .collect();
                first.on_route(200, &body(&rows)).unwrap();
            }
            Action::Finished => break,
        }
    }
    assert_eq!(calls, 3);
    let (_, first_buildings, coordinates, durations) = first.finish();

    let mut second = Resolution::new(
        criteria(),
        buildings(3),
        coordinates,
        durations,
        "2025-01-27T08:00:00+09:00".to_string(),
    );
    assert_eq!(second.next_action(), Action::Finished);
    let second_buildings = second.buildings();
    for k in 0..3 {
        assert_eq!(first_buildings[k].times, second_buildings[k].times);
    }
    assert_eq!(second_buildings[0].time_under(0), Some(500));
    assert_eq!(second_buildings[0].time_under(1), Some(500));
    assert_eq!(second_buildings[1].time_under(0), Some(1000));
    assert_eq!(second_buildings[1].time_under(1), None);
    assert_eq!(second_buildings[2].time_under(0), None);
    assert_eq!(second.coordinates().len(), 1);
    assert_eq!(second.durations().len(), 6);
}

#[test]
fn cached_address_is_not_asked_for() {
    let mut coordinates = CoordinateCache::new();
    coordinates.set_if_absent("X", at(1.0, 2.0));
    let mut m = Resolution::new(
        vec![criterion(TransportationMode::Cycling, "X", 20)],
        buildings(1),
        coordinates,
        DurationCache::new(),
        "t".to_string(),
    );
    match m.next_action() {
        Action::Route(request) => assert_eq!(request.origin, at(1.0, 2.0)),
        other => panic!("unexpected {other:?}"),
    }
}

#[test]
fn partly_cached_buildings_are_not_routed_again() {
    let mut durations = DurationCache::new();
    durations.set_if_absent("X", "Address 1", TransportationMode::Cycling, 1200);
    let mut coordinates = CoordinateCache::new();
    coordinates.set_if_absent("X", at(1.0, 2.0));
    let mut m = Resolution::new(
        vec![criterion(TransportationMode::Cycling, "X", 20)],
        buildings(3),
        coordinates,
        durations,
        "t".to_string(),
    );
    match m.next_action() {
        Action::Route(request) => {
            assert_eq!(request.destinations, vec![at(0.0, -0.0), at(2.0, -2.0)])
        }
        other => panic!("unexpected {other:?}"),
    }
    assert_eq!(m.buildings()[1].time_under(0), Some(1200));
    m.on_route(200, &body(&[exists_row(1, 60)])).unwrap();
    assert_eq!(m.next_action(), Action::Finished);
    assert_eq!(m.buildings()[0].time_under(0), None);
    assert_eq!(m.buildings()[2].time_under(0), Some(60));
}

#[test]
fn no_criteria_finish_at_once() {
    let mut m = machine(Vec::new(), 5);
    assert!(!m.awaits_location());
    assert!(!m.awaits_route());
    assert_eq!(m.next_action(), Action::Finished);
}

#[test]
fn no_buildings_need_no_routing() {
    let mut m = machine(vec![criterion(TransportationMode::Cycling, "X", 20)], 0);
    let (lookups, requests) = drive(&mut m, 1);
    assert_eq!(lookups, 1);
    assert!(requests.is_empty());
}

#[test]
fn failed_geocoding_changes_nothing() {
    let mut m = machine(vec![criterion(TransportationMode::Cycling, "X", 20)], 1);
    m.next_action();
    assert_eq!(m.on_geocode("{}"), Err(Error::Geocode(GeocodeError::NoCandidate)));
    assert_eq!(m.on_geocode("<html>"), Err(Error::Geocode(GeocodeError::Malformed)));
    assert!(m.awaits_location());
    assert_eq!(m.coordinates().len(), 0);
    assert_eq!(m.next_action(), Action::Geocode { address: "X".to_string() });
}

#[test]
fn failed_routing_applies_no_row_of_the_chunk() {
    let mut m = machine(vec![criterion(TransportationMode::Cycling, "X", 20)], 2);
    m.next_action();
    m.on_geocode(X_ANSWER).unwrap();
    let request = m.next_action();
    assert_eq!(m.on_route(500, "[]"), Err(Error::Routing(RoutingError::Status(500))));
    let broken = body(&[exists_row(0, 1000), exists_row(5, 1000)]);
    assert_eq!(m.on_route(200, &broken), Err(Error::Routing(RoutingError::Malformed)));
    let odd = r#"[{"destinationIndex": 0, "duration": "1s", "condition": "MAYBE"}]"#;
    assert_eq!(m.on_route(200, odd), Err(Error::Routing(RoutingError::UnexpectedCondition)));
    let unreadable = r#"[{"destinationIndex": 0, "duration": "fast", "condition": "ROUTE_EXISTS"}]"#;
    assert_eq!(m.on_route(200, unreadable), Err(Error::Parse));
    assert!(m.awaits_route());
    assert_eq!(m.durations().len(), 0);
    assert!(m.buildings().iter().all(|b| b.times.is_empty()));
    assert_eq!(m.next_action(), request);
}

#[test]
fn earlier_results_survive_a_later_failure() {
    let mut m = machine(
        vec![
            criterion(TransportationMode::Cycling, "X", 20),
            criterion(TransportationMode::Driving, "X", 20),
        ],
        1,
    );
    m.next_action();
    m.on_geocode(X_ANSWER).unwrap();
    m.next_action();
    m.on_route(200, &body(&[exists_row(0, 100)])).unwrap();
    match m.next_action() {
        Action::Route(r) => assert_eq!(r.travel_mode, "DRIVE"),
        other => panic!("unexpected {other:?}"),
    }
    assert_eq!(m.on_route(429, ""), Err(Error::Routing(RoutingError::Status(429))));
    assert_eq!(m.buildings()[0].time_under(0), Some(100));
    assert_eq!(m.buildings()[0].time_under(1), None);
}

#[test]
fn cached_duration_is_never_overwritten() {
    let mut m = machine(vec![criterion(TransportationMode::Cycling, "X", 20)], 1);
    m.next_action();
    m.on_geocode(X_ANSWER).unwrap();
    m.next_action();
    m.record_times(&vec![
        RouteTime { destination: 0, seconds: 100 },
        RouteTime { destination: 0, seconds: 200 },
    ]);
    assert_eq!(m.durations().get("X", "Address 0", TransportationMode::Cycling), Some(100));
    assert_eq!(m.buildings()[0].time_under(0), Some(200));
    assert_eq!(m.next_action(), Action::Finished);
}

#[test]
fn scan_serves_cached_buildings_and_lists_the_rest() {
    let mut durations = DurationCache::new();
    durations.set_if_absent("X", "Address 0", TransportationMode::Cycling, 1201);
    durations.set_if_absent("X", "Address 2", TransportationMode::Cycling, 1200);
    durations.set_if_absent("X", "Address 3", TransportationMode::Walking, 1);
    let mut bs = buildings(4);
    let c = criterion(TransportationMode::Cycling, "X", 20);
    let pending = scan(&mut bs, 7, &c, &durations);
    assert_eq!(pending, vec![1, 3]);
    assert_eq!(bs[0].time_under(7), None);
    assert_eq!(bs[2].time_under(7), Some(1200));
    assert!(bs[1].times.is_empty() && bs[3].times.is_empty());
}

#[test]
fn shared_address_is_looked_up_once() {
    let mut m = machine(
        vec![
            criterion(TransportationMode::Cycling, "X", 20),
            criterion(TransportationMode::Walking, "X", 20),
            criterion(TransportationMode::Driving, "X", 20),
        ],
        2,
    );
    let (lookups, requests) = drive(&mut m, 60);
    assert_eq!(lookups, 1);
    assert_eq!(requests, vec![2, 2, 2]);
    assert!(m.criteria().iter().all(|c| c.location == at(139.5, 35.5)));
    assert!(m.buildings().iter().all(|b| b.is_reachable_under_all(3)));
}

#[test]
fn same_trip_under_two_budgets_is_routed_once() {
    let mut m = machine(
        vec![
            criterion(TransportationMode::Cycling, "X", 20),
            criterion(TransportationMode::Cycling, "X", 10),
        ],
        2,
    );
    let (lookups, requests) = drive(&mut m, 900);
    assert_eq!(lookups, 1);
    assert_eq!(requests, vec![2]);
    assert_eq!(m.buildings()[0].time_under(0), Some(900));
    assert_eq!(m.buildings()[0].time_under(1), None);
}
