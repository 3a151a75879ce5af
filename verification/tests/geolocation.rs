use map_rs::geolocation::{GeolocationService, Location, LocationUpdate, HISTORY_CAPACITY};

fn fix(n: i64) -> Location {
    Location::observed_at(n, -n, Some(1_700_000_000))
}

#[test]
fn test_location_creation() {
    let loc = Location::new(515_050_000, -900_000);
    assert_eq!(loc.latitude, 515_050_000);
    assert_eq!(loc.longitude, -900_000);
    assert!(loc.timestamp.is_some());
}

#[test]
fn test_geolocation_service() {
    let mut service = GeolocationService::new();
    assert!(service.get_current_location().is_none());

    let location = Location::new(515_050_000, -900_000);
    service.update_location(location.clone());

    assert!(service.get_current_location().is_some());
    assert_eq!(service.get_location_history().len(), 1);
}

#[test]
fn new_location_has_no_accuracy() {
    let loc = Location::new(1, 2);
    assert_eq!(loc.accuracy, None);
}

#[test]
fn observed_at_keeps_the_timestamp() {
    let loc = Location::observed_at(488_566_000, 23_522_000, Some(42));
    assert_eq!(
        loc,
        Location {
            latitude: 488_566_000,
            longitude: 23_522_000,
            accuracy: None,
            timestamp: Some(42),
        }
    );
    let unstamped = Location::observed_at(0, 0, None);
    assert_eq!(unstamped.timestamp, None);
}

#[test]
fn with_accuracy_changes_only_the_accuracy() {
    let loc = Location::observed_at(515_074_000, -1_278_000, Some(7)).with_accuracy(10_000);
    assert_eq!(
        loc,
        Location {
            latitude: 515_074_000,
            longitude: -1_278_000,
            accuracy: Some(10_000),
            timestamp: Some(7),
        }
    );
}

#[test]
fn location_from_update_with_accuracy() {
    let loc = Location::from(LocationUpdate { lat: 10, lng: -20, accuracy: Some(5_500) });
    assert_eq!(loc.latitude, 10);
    assert_eq!(loc.longitude, -20);
    assert_eq!(loc.accuracy, Some(5_500));
    assert!(loc.timestamp.is_some());
}

#[test]
fn location_from_update_without_accuracy() {
    let loc: Location = LocationUpdate { lat: 10, lng: -20, accuracy: None }.into();
    assert_eq!(loc.latitude, 10);
    assert_eq!(loc.longitude, -20);
    assert_eq!(loc.accuracy, None);
}

#[test]
fn empty_service_has_empty_history() {
    let service = GeolocationService::new();
    assert!(service.get_location_history().is_empty());
    assert_eq!(service.get_current_location(), None);
    let by_default = GeolocationService::default();
    assert!(by_default.get_location_history().is_empty());
    assert_eq!(by_default.get_current_location(), None);
}

#[test]
fn current_location_is_the_last_update() {
    let mut service = GeolocationService::new();
    service.update_location(fix(1));
    service.update_location(fix(2));
    assert_eq!(service.get_current_location(), Some(&fix(2)));
    assert_eq!(service.get_location_history(), &[fix(1), fix(2)]);
}

#[test]
fn history_holds_one_hundred_after_one_hundred_updates() {
    let mut service = GeolocationService::new();
    for n in 1..=100 {
        service.update_location(fix(n));
    }
    let history = service.get_location_history();
    assert_eq!(history.len(), 100);
    assert_eq!(history[0], fix(1));
    assert_eq!(history[99], fix(100));
}

#[test]
fn history_after_one_hundred_and_one_updates() {
    let mut service = GeolocationService::new();
    for n in 1..=101 {
        service.update_location(fix(n));
    }
    let history = service.get_location_history();
    assert_eq!(history.len(), 100);
    assert_eq!(service.get_current_location(), Some(&fix(101)));
    assert_eq!(history[0], fix(2));
    assert_eq!(history[99], fix(101));
}

#[test]
fn each_update_over_capacity_evicts_exactly_the_oldest() {
    let mut service = GeolocationService::new();
    for n in 1..=250 {
        service.update_location(fix(n));
        let history = service.get_location_history();
        let expected_len = if n < 100 { n as usize } else { HISTORY_CAPACITY };
        assert_eq!(history.len(), expected_len);
        let oldest = if n <= 100 { 1 } else { n - 99 };
        assert_eq!(history[0], fix(oldest));
        assert_eq!(history[history.len() - 1], fix(n));
        for (k, entry) in history.iter().enumerate() {
            assert_eq!(*entry, fix(oldest + k as i64));
        }
        assert_eq!(service.get_current_location(), Some(&fix(n)));
    }
}
