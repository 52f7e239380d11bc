use suumo_traveltime::cache::{CoordinateCache, DurationCache};
use suumo_traveltime::{Coordinates, TransportationMode};

fn at(lng: f64, lat: f64) -> Coordinates {
    Coordinates { longitude_bits: lng.to_bits(), latitude_bits: lat.to_bits() }
}

#[test]
fn coordinate_miss_is_not_an_error() {
    let cache = CoordinateCache::new();
    assert_eq!(cache.get("Shibuya"), None);
    assert_eq!(cache.len(), 0);
}

#[test]
fn coordinate_first_write_wins() {
    let mut cache = CoordinateCache::new();
    cache.set_if_absent("Shibuya", at(139.70, 35.66));
    cache.set_if_absent("Shibuya", at(0.0, 0.0));
    assert_eq!(cache.get("Shibuya"), Some(at(139.70, 35.66)));
    assert_eq!(cache.len(), 1);
}

#[test]
fn coordinate_entries_keep_their_order() {
    let mut cache = CoordinateCache::new();
    cache.set_if_absent("A", at(1.0, 2.0));
    cache.set_if_absent("B", at(3.0, 4.0));
    cache.set_if_absent("A", at(5.0, 6.0));
    assert_eq!(cache.len(), 2);
    assert_eq!(cache.entry(0).address, "A");
    assert_eq!(cache.entry(0).coordinates, at(1.0, 2.0));
    assert_eq!(cache.entry(1).address, "B");
    assert_eq!(cache.get("B"), Some(at(3.0, 4.0)));
    assert_eq!(cache.get("C"), None);
}

#[test]
fn duration_miss_is_not_an_error() {
    let cache = DurationCache::new();
    assert_eq!(cache.get("X", "Y", TransportationMode::Cycling), None);
}

#[test]
fn duration_first_write_wins() {
    let mut cache = DurationCache::new();
    cache.set_if_absent("X", "Y", TransportationMode::Cycling, 1000);
    cache.set_if_absent("X", "Y", TransportationMode::Cycling, 1500);
    assert_eq!(cache.get("X", "Y", TransportationMode::Cycling), Some(1000));
    assert_eq!(cache.len(), 1);
}

#[test]
fn duration_key_has_three_parts() {
    let mut cache = DurationCache::new();
    cache.set_if_absent("X", "Y", TransportationMode::Cycling, 1000);
    assert_eq!(cache.get("Y", "X", TransportationMode::Cycling), None);
    assert_eq!(cache.get("X", "Y", TransportationMode::Walking), None);
    assert_eq!(cache.get("X", "Z", TransportationMode::Cycling), None);
    cache.set_if_absent("X", "Y", TransportationMode::Walking, 4000);
    assert_eq!(cache.get("X", "Y", TransportationMode::Walking), Some(4000));
    assert_eq!(cache.get("X", "Y", TransportationMode::Cycling), Some(1000));
    assert_eq!(cache.len(), 2);
    assert_eq!(cache.entry(1).seconds, 4000);
    assert_eq!(cache.entry(1).origin, "X");
    assert_eq!(cache.entry(1).destination, "Y");
    assert_eq!(cache.entry(1).mode, TransportationMode::Walking);
}
