use release_exporter::collector::{Collector, Feed, DEFAULT_CONCURRENCY};
use release_exporter::providers::VersionInfo;

fn feeds(names: &[(&str, u64)]) -> Vec<Feed> {
    names.iter().map(|(n, ttl)| Feed { name: n.to_string(), ttl: *ttl }).collect()
}

fn release_keys(out: &[(String, release_exporter::collector::Release)]) -> Vec<String> {
    out.iter().map(|(k, _)| k.clone()).collect()
}

fn error_keys(out: &[(String, String)]) -> Vec<String> {
    out.iter().map(|(k, _)| k.clone()).collect()
}

#[test]
fn test_all_feeds_succeed() {
    let mut c = Collector::new(feeds(&[("a", 1), ("b", 2), ("c", 3)]), DEFAULT_CONCURRENCY);
    let mut launched = Vec::new();
    while let Some(name) = c.launch() {
        launched.push(name);
    }
    assert_eq!(launched, vec!["a".to_string(), "b".to_string(), "c".to_string()]);
    for name in &launched {
        c.complete_success(name, vec![]);
    }
    assert!(c.is_done());
    let out = c.into_collection();
    assert_eq!(release_keys(&out.releases), vec!["a", "b", "c"]);
    assert!(out.errors.is_empty());
}

#[test]
fn test_failures_are_isolated() {
    let mut c = Collector::new(feeds(&[("a", 1), ("b", 2), ("c", 3)]), DEFAULT_CONCURRENCY);
    while c.launch().is_some() {}
    c.complete_success("a", vec![VersionInfo { version: Some("1".into()), labels: vec![] }]);
    c.complete_failure("b", "connection refused".into());
    c.complete_success("c", vec![]);
    assert!(c.is_done());
    let out = c.into_collection();
    assert_eq!(release_keys(&out.releases), vec!["a", "c"]);
    assert_eq!(error_keys(&out.errors), vec!["b"]);
    assert_eq!(out.errors[0].1, "connection refused");
}

#[test]
fn test_every_name_in_exactly_one_output() {
    let mut c = Collector::new(feeds(&[("a", 1), ("b", 2), ("c", 3), ("d", 4)]), 2);
    // Drive with completions out of submission order.
    let first = c.launch().unwrap();
    let second = c.launch().unwrap();
    assert!(c.launch().is_none(), "limit of 2 must hold");
    c.complete_failure(&second, "boom".into());
    let third = c.launch().unwrap();
    c.complete_success(&third, vec![]);
    c.complete_success(&first, vec![]);
    let fourth = c.launch().unwrap();
    c.complete_failure(&fourth, "boom again".into());
    assert!(c.is_done());
    let out = c.into_collection();
    let mut seen: Vec<String> = release_keys(&out.releases);
    seen.extend(error_keys(&out.errors));
    seen.sort();
    assert_eq!(seen, vec!["a", "b", "c", "d"]);
    assert_eq!(out.releases.len(), 2);
    assert_eq!(out.errors.len(), 2);
    for key in release_keys(&out.releases) {
        assert!(!error_keys(&out.errors).contains(&key));
    }
}

#[test]
fn test_launch_respects_concurrency_limit() {
    let mut c = Collector::new(feeds(&[("a", 1), ("b", 2), ("c", 3)]), 1);
    let first = c.launch().unwrap();
    assert_eq!(first, "a");
    assert!(c.launch().is_none());
    c.complete_success(&first, vec![]);
    let second = c.launch().unwrap();
    assert_eq!(second, "b");
    assert!(c.launch().is_none());
    assert!(!c.is_done());
}

#[test]
fn test_success_carries_feed_ttl() {
    let mut c = Collector::new(feeds(&[("a", 77)]), DEFAULT_CONCURRENCY);
    let name = c.launch().unwrap();
    c.complete_success(&name, vec![]);
    let out = c.into_collection();
    assert_eq!(out.releases[0].1.cache_duration, 77);
}

#[test]
fn test_empty_feed_set_is_immediately_done() {
    let c = Collector::new(vec![], DEFAULT_CONCURRENCY);
    assert!(c.is_done());
    let out = c.into_collection();
    assert!(out.releases.is_empty());
    assert!(out.errors.is_empty());
}
