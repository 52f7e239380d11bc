use suumo_traveltime::{Apartment, Building, Coordinates, Criterion, TransportationMode};

fn origin() -> Coordinates {
    Coordinates { longitude_bits: 0, latitude_bits: 0 }
}

fn criterion(minutes: usize) -> Criterion {
    Criterion {
        mode: TransportationMode::Cycling,
        address: "X".to_string(),
        time: minutes,
        color: "#c92a2a".to_string(),
        location: origin(),
    }
}

fn building() -> Building {
    Building::new("Maison".to_string(), "1-2-3".to_string(), origin(), Vec::new())
}

#[test]
fn budget_boundary_is_admitted() {
    let c = criterion(20);
    assert!(c.admits(1200));
    assert!(!c.admits(1201));
    assert!(c.admits(0));
}

#[test]
fn huge_budget_does_not_overflow() {
    let c = criterion(usize::MAX);
    assert!(c.admits(usize::MAX));
}

#[test]
fn zero_budget_admits_only_zero() {
    let c = criterion(0);
    assert!(c.admits(0));
    assert!(!c.admits(1));
}

#[test]
fn screen_records_a_fitting_trip() {
    let c = criterion(20);
    let mut b = building();
    assert!(b.screen(0, &c, 1200));
    assert_eq!(b.time_under(0), Some(1200));
    assert_eq!(b.times.get(&0), Some(&(criterion(20), 1200)));
    assert_eq!(b.times.len(), 1);
}

#[test]
fn screen_leaves_out_a_trip_over_budget() {
    let c = criterion(20);
    let mut b = building();
    assert!(!b.screen(0, &c, 1201));
    assert_eq!(b.time_under(0), None);
    assert!(b.times.is_empty());
    assert_eq!(b.name, "Maison");
    assert_eq!(b.address, "1-2-3");
}

#[test]
fn screen_keeps_criteria_apart() {
    let mut b = building();
    assert!(b.screen(0, &criterion(20), 600));
    assert!(!b.screen(1, &criterion(5), 600));
    assert!(b.screen(2, &criterion(10), 600));
    assert_eq!(b.time_under(0), Some(600));
    assert_eq!(b.time_under(1), None);
    assert_eq!(b.time_under(2), Some(600));
}

#[test]
fn fully_reachable_needs_every_criterion() {
    let mut b = building();
    assert!(!b.is_reachable_under_all(2));
    b.screen(0, &criterion(20), 600);
    assert!(!b.is_reachable_under_all(2));
    b.screen(1, &criterion(20), 700);
    assert!(b.is_reachable_under_all(2));
    assert!(!b.is_reachable_under_all(3));
}

#[test]
fn building_without_a_record_is_never_shown() {
    let mut b = building();
    assert!(!b.is_reachable_under_all(0));
    assert!(!b.is_reachable_under_all(1));
    b.screen(0, &criterion(20), 1201);
    assert!(!b.is_reachable_under_all(0));
    b.screen(3, &criterion(20), 600);
    assert!(b.is_reachable_under_all(0));
    assert!(!b.is_reachable_under_all(1));
}

#[test]
fn apartments_are_carried_through() {
    let flat = Apartment {
        rent: "8万円".to_string(),
        fees: None,
        id: 42,
        deposit: Some("1ヶ月".to_string()),
        key_money: None,
        kind: "1K".to_string(),
        area: "25m2".to_string(),
        plan: "plan.png".to_string(),
        url: "https://example.test/42".to_string(),
    };
    let mut b = Building::new("M".to_string(), "A".to_string(), origin(), vec![flat.clone()]);
    b.screen(0, &criterion(20), 100);
    assert_eq!(b.apartments, vec![flat]);
}

#[test]
fn new_criterion_needs_a_positive_budget() {
    assert!(Criterion::new(TransportationMode::Walking, "X".to_string(), 0).is_none());
    let c = Criterion::new(TransportationMode::Walking, "X".to_string(), 15).unwrap();
    assert_eq!(c.mode, TransportationMode::Walking);
    assert_eq!(c.address, "X");
    assert_eq!(c.time, 15);
    assert_eq!(c.color.len(), 7);
    assert!(c.color.starts_with('#'));
    assert_eq!(c.location, origin());
}

#[test]
fn snapshot_copies_every_field() {
    let c = criterion(20);
    assert_eq!(c.snapshot(), c);
}
