use std::cell::RefCell;
use std::rc::Rc;

use release_exporter::cache::{Clock, ReleaseCache};
use release_exporter::providers::VersionInfo;

#[derive(Clone)]
struct ControlledClock {
    timestamp: Rc<RefCell<u64>>,
}

impl Clock for ControlledClock {
    fn now(&self) -> u64 {
        *self.timestamp.borrow()
    }
}

impl ControlledClock {
    fn new() -> Self {
        Self { timestamp: Rc::new(RefCell::new(0)) }
    }

    fn advance(&mut self, secs: u64) {
        *self.timestamp.borrow_mut() += secs;
    }
}

#[test]
fn test_release_cache_caching_behaviour() {
    let mut clock = ControlledClock::new();
    let mut cache = ReleaseCache::new(clock.clone());

    assert!(!cache.contains_key("key"));
    assert!(cache.get("key").is_none());

    cache.insert("key".into(), vec![], 10);
    assert!(cache.contains_key("key"));
    assert_eq!(cache.get("key"), Some(&vec![]));

    cache.expire();
    assert!(cache.contains_key("key"));
    assert_eq!(cache.get("key"), Some(&vec![]));

    clock.advance(20);
    cache.expire();
    assert!(!cache.contains_key("key"));
    assert!(cache.get("key").is_none());
}

#[test]
fn test_insert_then_get_returns_values() {
    let clock = ControlledClock::new();
    let mut cache = ReleaseCache::new(clock);
    let versions = vec![VersionInfo {
        version: Some("1.0.0".into()),
        labels: vec![("instance".into(), "p1".into())],
    }];
    cache.insert("feed".into(), versions.clone(), 30);
    assert_eq!(cache.get("feed"), Some(&versions));
}

#[test]
fn test_expire_at_exact_ttl_boundary() {
    let mut clock = ControlledClock::new();
    let mut cache = ReleaseCache::new(clock.clone());
    cache.insert("key".into(), vec![], 10);

    clock.advance(10);
    cache.expire();
    assert!(!cache.contains_key("key"));
    assert!(cache.get("key").is_none());
}

#[test]
fn test_zero_ttl_expires_on_first_sweep() {
    let clock = ControlledClock::new();
    let mut cache = ReleaseCache::new(clock);
    cache.insert("key".into(), vec![], 0);
    assert!(cache.contains_key("key"));
    cache.expire();
    assert!(!cache.contains_key("key"));
}

#[test]
fn test_insert_does_not_perturb_other_keys() {
    let mut clock = ControlledClock::new();
    let mut cache = ReleaseCache::new(clock.clone());
    let long_lived = vec![VersionInfo { version: Some("2".into()), labels: vec![] }];
    cache.insert("stable".into(), long_lived.clone(), 100);

    cache.insert("volatile".into(), vec![], 5);
    assert_eq!(cache.get("stable"), Some(&long_lived));

    clock.advance(10);
    cache.expire();
    assert!(!cache.contains_key("volatile"));
    assert_eq!(cache.get("stable"), Some(&long_lived));
}

#[test]
fn test_overwrite_replaces_value() {
    let clock = ControlledClock::new();
    let mut cache = ReleaseCache::new(clock);
    let first = vec![VersionInfo { version: Some("1".into()), labels: vec![] }];
    let second = vec![VersionInfo { version: Some("2".into()), labels: vec![] }];
    cache.insert("key".into(), first, 10);
    cache.insert("key".into(), second.clone(), 10);
    assert_eq!(cache.get("key"), Some(&second));
}

#[test]
fn test_ttl_saturates_at_top_of_clock_range() {
    let mut clock = ControlledClock::new();
    clock.advance(u64::MAX - 5);
    let mut cache = ReleaseCache::new(clock.clone());
    cache.insert("key".into(), vec![], 10);

    cache.expire();
    assert!(cache.contains_key("key"));

    clock.advance(5);
    cache.expire();
    assert!(!cache.contains_key("key"));
}

#[test]
fn test_orphaned_expiry_event_deletes_reinserted_key() {
    // The known race of the time-ordered sweep: the first insert's event
    // comes due and deletes the key, although the second insert alone would
    // still be valid.
    let mut clock = ControlledClock::new();
    let mut cache = ReleaseCache::new(clock.clone());
    cache.insert("key".into(), vec![], 10);
    let refreshed = vec![VersionInfo { version: Some("3".into()), labels: vec![] }];
    cache.insert("key".into(), refreshed, 100);

    clock.advance(20);
    cache.expire();
    assert!(!cache.contains_key("key"));
}
