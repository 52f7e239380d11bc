use suumo_traveltime::batch::{batch_limit, next_chunk_end, plan_chunks, provider_mode};
use suumo_traveltime::TransportationMode;

#[test]
fn limits_follow_the_mode() {
    assert_eq!(batch_limit(TransportationMode::Public), 100);
    assert_eq!(batch_limit(TransportationMode::Cycling), 625);
    assert_eq!(batch_limit(TransportationMode::Walking), 625);
    assert_eq!(batch_limit(TransportationMode::Driving), 625);
}

#[test]
fn modes_have_the_providers_words() {
    assert_eq!(provider_mode(TransportationMode::Cycling), "BICYCLE");
    assert_eq!(provider_mode(TransportationMode::Walking), "WALK");
    assert_eq!(provider_mode(TransportationMode::Driving), "DRIVE");
    assert_eq!(provider_mode(TransportationMode::Public), "TRANSIT");
}

#[test]
fn seven_hundred_driving_take_two_requests() {
    let chunks = plan_chunks(700, batch_limit(TransportationMode::Driving));
    assert_eq!(chunks, vec![(0, 625), (625, 700)]);
}

#[test]
fn hundred_fifty_transit_take_two_requests() {
    let chunks = plan_chunks(150, batch_limit(TransportationMode::Public));
    assert_eq!(chunks, vec![(0, 100), (100, 150)]);
}

#[test]
fn nothing_to_route_takes_no_request() {
    assert_eq!(plan_chunks(0, 625), Vec::<(usize, usize)>::new());
}

#[test]
fn exact_multiples_leave_no_short_chunk() {
    assert_eq!(plan_chunks(200, 100), vec![(0, 100), (100, 200)]);
    assert_eq!(plan_chunks(100, 100), vec![(0, 100)]);
    assert_eq!(plan_chunks(1, 100), vec![(0, 1)]);
    assert_eq!(plan_chunks(3, 1), vec![(0, 1), (1, 2), (2, 3)]);
}

#[test]
fn chunk_end_stops_at_the_count() {
    assert_eq!(next_chunk_end(0, 700, 625), 625);
    assert_eq!(next_chunk_end(625, 700, 625), 700);
    assert_eq!(next_chunk_end(700, 700, 625), 700);
    assert_eq!(next_chunk_end(0, usize::MAX, usize::MAX), usize::MAX);
}
