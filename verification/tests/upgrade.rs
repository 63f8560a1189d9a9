use release_exporter::providers::VersionInfo;
use release_exporter::upgrade_pending::{CheckStatus, LabeledStatus, UpgradePendingCheck};

fn info(version: Option<&str>, labels: &[(&str, &str)]) -> VersionInfo {
    VersionInfo {
        version: version.map(String::from),
        labels: labels.iter().map(|(k, v)| (k.to_string(), v.to_string())).collect(),
    }
}

fn labels_of(labels: &[(&str, &str)]) -> Vec<(String, String)> {
    labels.iter().map(|(k, v)| (k.to_string(), v.to_string())).collect()
}

#[test]
fn test_upgrade_pending_check() {
    let check = UpgradePendingCheck {
        name: "name".into(),
        current: "current".into(),
        latest: "latest".into(),
    };
    let releases: Vec<(String, Vec<VersionInfo>)> = vec![
        (
            "current".into(),
            vec![
                info(
                    Some("v-current"),
                    &[("stream", "stable"), ("instance", "production-01")],
                ),
                info(
                    Some("v-current"),
                    &[("stream", "stable"), ("instance", "production-02")],
                ),
                info(
                    Some("v-testing-current"),
                    &[("stream", "testing"), ("instance", "staging")],
                ),
                info(Some("v-no-latest"), &[("stream", "no-latest")]),
                info(Some("v-no-match"), &[("stream", "no-match")]),
                info(None, &[("stream", "testing"), ("instance", "unreachable")]),
            ],
        ),
        (
            "latest".into(),
            vec![
                info(Some("v-latest"), &[("stream", "stable")]),
                info(Some("v-testing-current"), &[("stream", "testing")]),
                info(None, &[("stream", "no-latest")]),
                info(Some("v-ignored"), &[("stream", "ignored")]),
            ],
        ),
        (
            "ignored".into(),
            vec![info(Some("v-ignored"), &[("stream", "stable")])],
        ),
    ];

    let expected = vec![
        LabeledStatus {
            labels: labels_of(&[("stream", "stable"), ("instance", "production-01")]),
            status: CheckStatus::UpgradeAvailable,
            latest_version: Some("v-latest".into()),
        },
        LabeledStatus {
            labels: labels_of(&[("stream", "stable"), ("instance", "production-02")]),
            status: CheckStatus::UpgradeAvailable,
            latest_version: Some("v-latest".into()),
        },
        LabeledStatus {
            labels: labels_of(&[("stream", "testing"), ("instance", "staging")]),
            status: CheckStatus::UpToDate,
            latest_version: Some("v-testing-current".into()),
        },
        LabeledStatus {
            labels: labels_of(&[("stream", "no-latest")]),
            status: CheckStatus::Unknown,
            latest_version: None,
        },
        LabeledStatus {
            labels: labels_of(&[("stream", "no-match")]),
            status: CheckStatus::Unknown,
            latest_version: None,
        },
        LabeledStatus {
            labels: labels_of(&[("stream", "testing"), ("instance", "unreachable")]),
            status: CheckStatus::Unknown,
            latest_version: Some("v-testing-current".into()),
        },
    ];
    assert_eq!(check.check(&releases), expected);
}

#[test]
fn test_coarse_latest_fans_out_to_instances() {
    let check = UpgradePendingCheck {
        name: "c".into(),
        current: "current".into(),
        latest: "latest".into(),
    };
    let releases = vec![
        (
            "current".to_string(),
            vec![
                info(Some("v1"), &[("stream", "stable"), ("instance", "p1")]),
                info(Some("v1"), &[("stream", "stable"), ("instance", "p2")]),
            ],
        ),
        (
            "latest".to_string(),
            vec![info(Some("v2"), &[("stream", "stable")])],
        ),
    ];
    let results = check.check(&releases);
    assert_eq!(results.len(), 2);
    for r in &results {
        assert_eq!(r.status, CheckStatus::UpgradeAvailable);
        assert_eq!(r.latest_version.as_deref(), Some("v2"));
    }
}

#[test]
fn test_equal_versions_up_to_date() {
    let check = UpgradePendingCheck {
        name: "c".into(),
        current: "current".into(),
        latest: "latest".into(),
    };
    let releases = vec![
        ("current".to_string(), vec![info(Some("vX"), &[("stream", "testing")])]),
        ("latest".to_string(), vec![info(Some("vX"), &[("stream", "testing")])]),
    ];
    let results = check.check(&releases);
    assert_eq!(results.len(), 1);
    assert_eq!(results[0].status, CheckStatus::UpToDate);
    assert_eq!(results[0].latest_version.as_deref(), Some("vX"));
    assert_eq!(results[0].labels, labels_of(&[("stream", "testing")]));
}

#[test]
fn test_no_subset_match_yields_unknown() {
    let check = UpgradePendingCheck {
        name: "c".into(),
        current: "current".into(),
        latest: "latest".into(),
    };
    let releases = vec![
        ("current".to_string(), vec![info(Some("v1"), &[("stream", "stable")])]),
        (
            "latest".to_string(),
            vec![info(Some("v2"), &[("stream", "testing")]), info(
                Some("v3"),
                &[("stream", "stable"), ("extra", "x")],
            )],
        ),
    ];
    let results = check.check(&releases);
    assert_eq!(results.len(), 1);
    assert_eq!(results[0].status, CheckStatus::Unknown);
    assert_eq!(results[0].latest_version, None);
}

#[test]
fn test_first_matching_latest_entry_wins() {
    let check = UpgradePendingCheck {
        name: "c".into(),
        current: "current".into(),
        latest: "latest".into(),
    };
    // Both latest entries subset-match the current entry; the first one in
    // the latest feed's order must be used.
    let releases = vec![
        (
            "current".to_string(),
            vec![info(Some("v1"), &[("stream", "stable"), ("region", "eu")])],
        ),
        (
            "latest".to_string(),
            vec![
                info(Some("first"), &[("stream", "stable")]),
                info(Some("second"), &[("region", "eu")]),
            ],
        ),
    ];
    let results = check.check(&releases);
    assert_eq!(results.len(), 1);
    assert_eq!(results[0].latest_version.as_deref(), Some("first"));
    assert_eq!(results[0].status, CheckStatus::UpgradeAvailable);
}

#[test]
fn test_missing_version_is_unknown_for_any_latest() {
    let check = UpgradePendingCheck {
        name: "c".into(),
        current: "current".into(),
        latest: "latest".into(),
    };
    let releases = vec![
        ("current".to_string(), vec![info(None, &[("stream", "stable")])]),
        ("latest".to_string(), vec![info(Some("v2"), &[("stream", "stable")])]),
    ];
    let results = check.check(&releases);
    assert_eq!(results.len(), 1);
    assert_eq!(results[0].status, CheckStatus::Unknown);
}

#[test]
fn test_missing_current_feed_yields_empty_result() {
    let check = UpgradePendingCheck {
        name: "c".into(),
        current: "absent".into(),
        latest: "latest".into(),
    };
    let releases = vec![("latest".to_string(), vec![info(Some("v2"), &[("stream", "stable")])])];
    assert_eq!(check.check(&releases), vec![]);
}

#[test]
fn test_missing_latest_feed_yields_unknown_per_entry() {
    let check = UpgradePendingCheck {
        name: "c".into(),
        current: "current".into(),
        latest: "absent".into(),
    };
    let releases = vec![("current".to_string(), vec![info(Some("v1"), &[("a", "b")])])];
    let results = check.check(&releases);
    assert_eq!(results.len(), 1);
    assert_eq!(results[0].status, CheckStatus::Unknown);
    assert_eq!(results[0].latest_version, None);
}

#[test]
fn test_with_defaults_all_filled() {
    let check = UpgradePendingCheck::with_defaults(
        "name-value".into(),
        Some("current-value".into()),
        Some("latest-value".into()),
    );
    assert_eq!(
        check,
        UpgradePendingCheck {
            name: "name-value".into(),
            current: "current-value".into(),
            latest: "latest-value".into(),
        }
    );
}

#[test]
fn test_with_defaults_minimal() {
    let check = UpgradePendingCheck::with_defaults("name-value".into(), None, None);
    assert_eq!(
        check,
        UpgradePendingCheck {
            name: "name-value".into(),
            current: "current_name-value_release".into(),
            latest: "latest_name-value_release".into(),
        }
    );
}
