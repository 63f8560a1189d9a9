use release_exporter::metrics::upgrade_rows;
use release_exporter::upgrade_pending::{CheckStatus, LabeledStatus};

#[test]
fn test_status_label_values() {
    assert_eq!(CheckStatus::Unknown.label_value(), "unknown");
    assert_eq!(CheckStatus::UpToDate.label_value(), "up-to-date");
    assert_eq!(CheckStatus::UpgradeAvailable.label_value(), "upgrade-available");
}

#[test]
fn test_upgrade_rows_carry_all_fields() {
    let results = vec![(
        "check_name".to_string(),
        vec![LabeledStatus {
            labels: vec![("label".into(), "label-value".into())],
            status: CheckStatus::UpgradeAvailable,
            latest_version: Some("latest-version".into()),
        }],
    )];
    let rows = upgrade_rows(results);
    assert_eq!(rows.len(), 1);
    assert_eq!(rows[0].name, "check_name");
    assert_eq!(rows[0].status, CheckStatus::UpgradeAvailable);
    assert_eq!(rows[0].latest_version.as_deref(), Some("latest-version"));
    assert_eq!(
        rows[0].additional_labels,
        vec![("label".to_string(), "label-value".to_string())]
    );
}

#[test]
fn test_upgrade_rows_flatten_in_order() {
    let results = vec![
        (
            "first".to_string(),
            vec![
                LabeledStatus {
                    labels: vec![],
                    status: CheckStatus::UpToDate,
                    latest_version: Some("1".into()),
                },
                LabeledStatus {
                    labels: vec![],
                    status: CheckStatus::Unknown,
                    latest_version: None,
                },
            ],
        ),
        (
            "second".to_string(),
            vec![LabeledStatus {
                labels: vec![],
                status: CheckStatus::UpgradeAvailable,
                latest_version: Some("2".into()),
            }],
        ),
    ];
    let rows = upgrade_rows(results);
    assert_eq!(rows.len(), 3);
    assert_eq!(rows[0].name, "first");
    assert_eq!(rows[0].status, CheckStatus::UpToDate);
    assert_eq!(rows[1].name, "first");
    assert_eq!(rows[1].status, CheckStatus::Unknown);
    assert_eq!(rows[2].name, "second");
    assert_eq!(rows[2].status, CheckStatus::UpgradeAvailable);
}
