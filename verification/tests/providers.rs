use release_exporter::extractor::VersionExtractor;
use release_exporter::providers::{
    default_github_cache_duration, default_version_label, versions_from_query_rows,
    GithubRelease, GithubRepo, LatestReleaseResponse, VersionInfo,
};

#[test]
fn test_parse_github_repo() {
    let repo = GithubRepo::parse("user/name").unwrap();
    assert_eq!(repo, GithubRepo { user: "user".into(), name: "name".into() });
}

#[test]
fn test_parse_github_repo_multiple_slashes() {
    let repo = GithubRepo::parse("user/name/foo").unwrap();
    assert_eq!(repo, GithubRepo { user: "user".into(), name: "name/foo".into() });
}

#[test]
fn test_parse_github_repo_no_slashes() {
    assert!(GithubRepo::parse("foo").is_none());
}

#[test]
fn test_release_from_response_strips_prefix() {
    let release = GithubRelease::from_response(
        &VersionExtractor::default(),
        &LatestReleaseResponse { tag_name: "v0.8.0".into() },
    );
    assert_eq!(release, GithubRelease { version: Some("0.8.0".into()) });
}

#[test]
fn test_release_into_version_info_has_no_labels() {
    let info = GithubRelease { version: Some("0.8.0".into()) }.into_version_info();
    assert_eq!(
        info,
        VersionInfo { version: Some("0.8.0".into()), labels: vec![] }
    );
}

#[test]
fn test_versions_from_query_rows() {
    let rows = vec![
        vec![
            ("instance".to_string(), "localhost:9797".to_string()),
            ("version".to_string(), "v0.8.0".to_string()),
            ("job".to_string(), "exporter".to_string()),
        ],
        vec![("instance".to_string(), "other".to_string())],
    ];
    let infos = versions_from_query_rows("version", &VersionExtractor::default(), rows);
    assert_eq!(
        infos,
        vec![
            VersionInfo {
                version: Some("0.8.0".into()),
                labels: vec![
                    ("instance".into(), "localhost:9797".into()),
                    ("job".into(), "exporter".into()),
                ],
            },
            VersionInfo { version: None, labels: vec![("instance".into(), "other".into())] },
        ]
    );
}

#[test]
fn test_defaults() {
    assert_eq!(default_github_cache_duration(), 4 * 60 * 60);
    assert_eq!(default_version_label(), "version");
}
