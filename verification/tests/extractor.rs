use release_exporter::extractor::VersionExtractor;

#[test]
fn test_extract_version() {
    assert_eq!(
        VersionExtractor::default().extract("1.2.3").unwrap(),
        String::from("1.2.3")
    );
    assert_eq!(
        VersionExtractor::default().extract("v1.2.3").unwrap(),
        String::from("1.2.3")
    );
}

#[test]
fn test_extract_with_custom_pattern() {
    let extractor =
        VersionExtractor::new("^release-(.*)$".into(), "${1}".into()).unwrap();
    assert_eq!(extractor.extract("release-2.0").unwrap(), String::from("2.0"));
}

#[test]
fn test_extract_no_match_returns_none() {
    let extractor = VersionExtractor::new("^v([0-9]+)$".into(), "${1}".into()).unwrap();
    assert_eq!(extractor.extract("nightly"), None);
}

#[test]
fn test_invalid_pattern_is_rejected() {
    assert!(VersionExtractor::new("foo(bar".into(), "${1}".into()).is_none());
}

#[test]
fn test_default_version_fmt() {
    assert_eq!(release_exporter::extractor::default_version_fmt(), "${1}");
}
