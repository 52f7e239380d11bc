use suumo_traveltime::cache::CoordinateCache;
use suumo_traveltime::geocode::{decode_geocode, location_from, resolve_answer, settle};
use suumo_traveltime::{Coordinates, Error, GeocodeError};

fn at(lng: f64, lat: f64) -> Coordinates {
    Coordinates { longitude_bits: lng.to_bits(), latitude_bits: lat.to_bits() }
}

const ANSWER: &str =
    r#"{"results": [{"location": {"latitude": 35.6595, "longitude": 139.7005}}, {"location": {"latitude": 1.0, "longitude": 2.0}}]}"#;

#[test]
fn first_candidate_is_taken() {
    assert_eq!(decode_geocode(ANSWER), Ok(at(139.7005, 35.6595)));
}

#[test]
fn whole_numbers_are_numbers_too() {
    let body = r#"{"results": [{"location": {"latitude": 35, "longitude": -139}}]}"#;
    assert_eq!(decode_geocode(body), Ok(at(-139.0, 35.0)));
}

#[test]
fn no_results_means_no_candidate() {
    assert_eq!(decode_geocode("{}"), Err(Error::Geocode(GeocodeError::NoCandidate)));
    assert_eq!(
        decode_geocode(r#"{"results": []}"#),
        Err(Error::Geocode(GeocodeError::NoCandidate))
    );
}

#[test]
fn broken_answers_are_malformed() {
    let malformed = Err(Error::Geocode(GeocodeError::Malformed));
    assert_eq!(decode_geocode("not json"), malformed);
    assert_eq!(decode_geocode(""), malformed);
    assert_eq!(decode_geocode(r#"{"results": 3}"#), malformed);
    assert_eq!(decode_geocode(r#"{"results": [{}]}"#), malformed);
    assert_eq!(decode_geocode(r#"{"results": [{"location": {"latitude": 1.0}}]}"#), malformed);
    assert_eq!(decode_geocode(r#"{"results": [{"location": {"longitude": 1.0}}]}"#), malformed);
    assert_eq!(
        decode_geocode(r#"{"results": [{"location": {"latitude": "1", "longitude": 2}}]}"#),
        malformed
    );
}

#[test]
fn location_needs_both_numbers() {
    assert_eq!(location_from(Some(1), Some(2)), Ok(Coordinates { longitude_bits: 1, latitude_bits: 2 }));
    assert_eq!(location_from(None, Some(2)), Err(Error::Geocode(GeocodeError::Malformed)));
    assert_eq!(location_from(Some(1), None), Err(Error::Geocode(GeocodeError::Malformed)));
    assert_eq!(location_from(None, None), Err(Error::Geocode(GeocodeError::Malformed)));
}

#[test]
fn resolved_address_is_a_cache_hit_afterwards() {
    let mut cache = CoordinateCache::new();
    assert_eq!(cache.get("Shibuya"), None);
    assert_eq!(resolve_answer(&mut cache, "Shibuya", ANSWER), Ok(at(139.7005, 35.6595)));
    assert_eq!(cache.get("Shibuya"), Some(at(139.7005, 35.6595)));
    assert_eq!(cache.len(), 1);
}

#[test]
fn failed_answer_leaves_the_cache_alone() {
    let mut cache = CoordinateCache::new();
    assert_eq!(
        resolve_answer(&mut cache, "Shibuya", "{}"),
        Err(Error::Geocode(GeocodeError::NoCandidate))
    );
    assert_eq!(cache.get("Shibuya"), None);
    assert_eq!(cache.len(), 0);
}

#[test]
fn settle_returns_what_was_stored_first() {
    let mut cache = CoordinateCache::new();
    assert_eq!(settle(&mut cache, "A", at(1.0, 2.0)), at(1.0, 2.0));
    assert_eq!(settle(&mut cache, "A", at(3.0, 4.0)), at(1.0, 2.0));
    assert_eq!(cache.len(), 1);
}
