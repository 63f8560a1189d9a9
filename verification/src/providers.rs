//! Version records and the per-provider shaping of fetched data.
//!
//! A [`VersionInfo`] is one observed release or build instance: an optional
//! version string plus a label set distinguishing instances. The functions
//! here turn what the remote adapters hand over — a release tag, or rows of
//! metric labels — into version records; the adapters themselves (HTTP,
//! JSON) live outside the library.

use vstd::prelude::*;

use crate::extractor::spec_extract;
use crate::extractor::VersionExtractor;
use crate::labels::find_key;
use crate::labels::label_pairs_view;
use crate::labels::label_value;
use crate::labels::lemma_label_found;
use crate::labels::lemma_label_none;
use crate::labels::remove_label;

verus! {

/// One observed release/build instance.
#[derive(Clone, Debug, PartialEq, Eq)]
pub struct VersionInfo {
    pub version: Option<String>,
    pub labels: Vec<(String, String)>,
}

/// A version record as it appears in specifications.
pub ghost struct VersionInfoView {
    pub version: Option<Seq<char>>,
    pub labels: Seq<(Seq<char>, Seq<char>)>,
}

/// The view of an optional string.
pub open spec fn opt_str_view(v: Option<String>) -> Option<Seq<char>> {
    match v {
        Some(s) => Some(s@),
        None => None,
    }
}

impl View for VersionInfo {
    type V = VersionInfoView;

    open spec fn view(&self) -> VersionInfoView {
        VersionInfoView {
            version: opt_str_view(self.version),
            labels: label_pairs_view(self.labels@),
        }
    }
}

/// The views of a batch of version records.
pub open spec fn version_infos_view(vs: Seq<VersionInfo>) -> Seq<VersionInfoView> {
    vs.map_values(|v: VersionInfo| v@)
}

/// The latest release of a repository, as the release-listing provider
/// reports it.
#[derive(Clone, Debug, PartialEq, Eq)]
pub struct GithubRelease {
    pub version: Option<String>,
}

/// The payload of a release-listing response: the tag naming the release.
#[derive(Clone, Debug, PartialEq, Eq)]
pub struct LatestReleaseResponse {
    pub tag_name: String,
}

impl GithubRelease {
    /// The release a response describes: its version is extracted from the
    /// tag name.
    pub fn from_response(extractor: &VersionExtractor, response: &LatestReleaseResponse) -> (r:
        GithubRelease)
        ensures
            opt_str_view(r.version) == spec_extract(
                extractor.pattern(),
                extractor.fmt(),
                response.tag_name@,
            ),
    {
        GithubRelease { version: extractor.extract(response.tag_name.as_str()) }
    }

    /// The same release as a version record; a release listing carries no
    /// labels.
    pub fn into_version_info(self) -> (r: VersionInfo)
        ensures
            r@.version == opt_str_view(self.version),
            r@.labels == Seq::<(Seq<char>, Seq<char>)>::empty(),
    {
        let r = VersionInfo { version: self.version, labels: Vec::new() };
        proof {
            assert(r@.labels =~= Seq::<(Seq<char>, Seq<char>)>::empty());
        }
        r
    }
}

/// A repository, named `user/name`.
#[derive(Clone, Debug, PartialEq, Eq)]
pub struct GithubRepo {
    pub user: String,
    pub name: String,
}

/// Index of the first `/` in `s`, if any.
pub open spec fn find_slash(s: Seq<char>) -> Option<int>
    decreases s.len(),
{
    if s.len() == 0 {
        None
    } else if s[0] == '/' {
        Some(0)
    } else {
        match find_slash(s.drop_first()) {
            Some(i) => Some(i + 1),
            None => None,
        }
    }
}

/// If the first `i` characters are not `/` and character `i` is, the first
/// slash is at `i`.
proof fn lemma_find_slash_at(s: Seq<char>, i: int)
    requires
        0 <= i < s.len(),
        s[i] == '/',
        forall|j: int| 0 <= j < i ==> s[j] != '/',
    ensures
        find_slash(s) == Some(i),
    decreases i,
{
    if i > 0 {
        lemma_find_slash_at(s.drop_first(), i - 1);
    }
}

/// If no character is `/`, there is no first slash.
proof fn lemma_find_slash_none(s: Seq<char>)
    requires
        forall|j: int| 0 <= j < s.len() ==> s[j] != '/',
    ensures
        find_slash(s) is None,
    decreases s.len(),
{
    if s.len() > 0 {
        lemma_find_slash_none(s.drop_first());
    }
}

impl GithubRepo {
    /// Splits `user/name` at the first slash; the name may itself hold
    /// further slashes. Nothing is returned when there is no slash at all.
    pub fn parse(s: &str) -> (r: Option<GithubRepo>)
        ensures
            match r {
                Some(repo) => {
                    &&& find_slash(s@) matches Some(i)
                    &&& repo.user@ == s@.subrange(0, find_slash(s@)->Some_0)
                    &&& repo.name@ == s@.subrange(find_slash(s@)->Some_0 + 1, s@.len() as int)
                },
                None => find_slash(s@) is None,
            },
    {
        let n = s.unicode_len();
        let mut i: usize = 0;
        while i < n
            invariant
                n == s@.len(),
                i <= n,
                forall|j: int| 0 <= j < i ==> s@[j] != '/',
            decreases n - i,
        {
            if s.get_char(i) == '/' {
                proof {
                    lemma_find_slash_at(s@, i as int);
                }
                let user = s.substring_char(0, i).to_owned();
                let name = s.substring_char(i + 1, n).to_owned();
                return Some(GithubRepo { user, name });
            }
            i += 1;
        }
        proof {
            lemma_find_slash_none(s@);
        }
        None
    }
}

/// The version record built from one row of metric labels: the configured
/// version label is taken out of the row and its value run through the
/// extractor; the remaining labels are carried verbatim.
pub open spec fn spec_row_version_info(
    label: Seq<char>,
    pattern: Seq<char>,
    fmt: Seq<char>,
    row: Seq<(Seq<char>, Seq<char>)>,
) -> VersionInfoView {
    match label_value(row, label) {
        Some(v) => VersionInfoView {
            version: spec_extract(pattern, fmt, v),
            labels: remove_label(row, label),
        },
        None => VersionInfoView { version: None, labels: row },
    }
}

/// The version records built from a whole query result, row by row.
pub open spec fn spec_rows_version_infos(
    label: Seq<char>,
    pattern: Seq<char>,
    fmt: Seq<char>,
    rows: Seq<Seq<(Seq<char>, Seq<char>)>>,
) -> Seq<VersionInfoView> {
    rows.map_values(|row| spec_row_version_info(label, pattern, fmt, row))
}

/// The views of the rows handed over by the metrics-query adapter.
pub open spec fn rows_view(rows: Seq<Vec<(String, String)>>) -> Seq<Seq<(Seq<char>, Seq<char>)>> {
    rows.map_values(|row: Vec<(String, String)>| label_pairs_view(row@))
}

/// Builds one version record out of one row of metric labels.
fn row_version_info(label: &str, extractor: &VersionExtractor, row: Vec<(String, String)>) -> (r:
    VersionInfo)
    ensures
        r@ == spec_row_version_info(
            label@,
            extractor.pattern(),
            extractor.fmt(),
            label_pairs_view(row@),
        ),
{
    let mut remaining = row;
    let ghost before = label_pairs_view(remaining@);
    match find_key(&remaining, label) {
        Some(i) => {
            proof {
                lemma_label_found(before, label@, i as int);
            }
            let pair = remaining.remove(i);
            proof {
                assert(label_pairs_view(remaining@) =~= before.subrange(0, i as int)
                    + before.subrange(i + 1, before.len() as int));
            }
            let version = extractor.extract(pair.1.as_str());
            VersionInfo { version, labels: remaining }
        },
        None => {
            proof {
                lemma_label_none(before, label@);
            }
            VersionInfo { version: None, labels: remaining }
        },
    }
}

/// Builds the version records for a metrics-query result: one per row, in row
/// order.
pub fn versions_from_query_rows(
    label: &str,
    extractor: &VersionExtractor,
    rows: Vec<Vec<(String, String)>>,
) -> (r: Vec<VersionInfo>)
    ensures
        version_infos_view(r@) =~= spec_rows_version_infos(
            label@,
            extractor.pattern(),
            extractor.fmt(),
            rows_view(rows@),
        ),
{
    let mut rows = rows;
    let mut out: Vec<VersionInfo> = Vec::new();
    let ghost all = rows@;
    let n = rows.len();
    let mut i: usize = 0;
    while i < n
        invariant
            n == all.len(),
            i <= n,
            rows@ =~= all.subrange(i as int, n as int),
            out@.len() == i,
            forall|j: int|
                0 <= j < i ==> (#[trigger] out@[j])@ == spec_row_version_info(
                    label@,
                    extractor.pattern(),
                    extractor.fmt(),
                    label_pairs_view(all[j]@),
                ),
        decreases n - i,
    {
        let row = rows.remove(0);
        out.push(row_version_info(label, extractor, row));
        i += 1;
    }
    out
}

/// How long a release-listing result stays cached when the configuration
/// names no other bound: four hours, in seconds.
pub fn default_github_cache_duration() -> (r: u64)
    ensures
        r == 14400,
{
    4 * 60 * 60
}

/// The metric label read as the version when none is configured.
pub fn default_version_label() -> (r: String)
    ensures
        r@ == "version"@,
{
    "version".to_owned()
}

} // verus!
