//! The label-join evaluator: classifying current instances against the
//! latest known releases.
//!
//! A check names two feeds in a snapshot: the *current* cohort (what runs)
//! and the *latest* cohort (what is available). Every current entry is
//! matched against the latest cohort by label subset — the first latest entry
//! all of whose labels the current entry carries with equal values wins — and
//! classified as up-to-date, upgrade-available, or unknown. The evaluator is
//! a pure function of the snapshot: label mismatches and missing versions
//! degrade to `Unknown`, never to an error.

use vstd::prelude::*;
use vstd::string::StringExecFns;

use crate::labels::assoc;
use crate::labels::find_key;
use crate::labels::has_key;
use crate::labels::label_pairs_view;
use crate::labels::label_value;
use crate::labels::lemma_assoc_has_key;
use crate::labels::str_eq;
use crate::providers::opt_str_view;
use crate::providers::version_infos_view;
use crate::providers::VersionInfo;
use crate::providers::VersionInfoView;

verus! {

/// A configured comparison: which feed holds the current cohort and which
/// the latest.
#[derive(Clone, Debug, PartialEq, Eq)]
pub struct UpgradePendingCheck {
    pub name: String,
    pub current: String,
    pub latest: String,
}

/// How one current instance stands against the latest known release.
#[derive(Copy, Clone, Debug, Hash, PartialEq, Eq)]
pub enum CheckStatus {
    UpToDate,
    UpgradeAvailable,
    Unknown,
}

/// One result per current-cohort member: its labels verbatim, its status,
/// and the resolved latest version, if any.
#[derive(Clone, Debug, PartialEq, Eq)]
pub struct LabeledStatus {
    pub labels: Vec<(String, String)>,
    pub status: CheckStatus,
    pub latest_version: Option<String>,
}

/// A labeled status as it appears in specifications.
pub ghost struct LabeledStatusView {
    pub labels: Seq<(Seq<char>, Seq<char>)>,
    pub status: CheckStatus,
    pub latest_version: Option<Seq<char>>,
}

impl View for LabeledStatus {
    type V = LabeledStatusView;

    open spec fn view(&self) -> LabeledStatusView {
        LabeledStatusView {
            labels: label_pairs_view(self.labels@),
            status: self.status,
            latest_version: opt_str_view(self.latest_version),
        }
    }
}

/// Every pair of `wanted` is present with an equal value in `have`.
pub open spec fn labels_subset(
    wanted: Seq<(Seq<char>, Seq<char>)>,
    have: Seq<(Seq<char>, Seq<char>)>,
) -> bool {
    forall|j: int|
        0 <= j < wanted.len() ==> label_value(have, (#[trigger] wanted[j]).0) == Some(wanted[j].1)
}

/// The first latest entry whose labels are a subset of `cur_labels`.
pub open spec fn first_match(
    latest: Seq<VersionInfoView>,
    cur_labels: Seq<(Seq<char>, Seq<char>)>,
) -> Option<VersionInfoView>
    decreases latest.len(),
{
    if latest.len() == 0 {
        None
    } else if labels_subset(latest[0].labels, cur_labels) {
        Some(latest[0])
    } else {
        first_match(latest.drop_first(), cur_labels)
    }
}

/// The latest version resolved for one current entry: the version of the
/// first label-matching latest entry, if there is a latest cohort, a match,
/// and the match carries a version.
pub open spec fn resolved_latest(
    cur: VersionInfoView,
    latest: Option<Seq<VersionInfoView>>,
) -> Option<Seq<char>> {
    match latest {
        None => None,
        Some(ls) => match first_match(ls, cur.labels) {
            None => None,
            Some(m) => m.version,
        },
    }
}

/// `Unknown` without both versions; otherwise exact string equality decides.
pub open spec fn status_of(
    cur_version: Option<Seq<char>>,
    latest_version: Option<Seq<char>>,
) -> CheckStatus {
    match (cur_version, latest_version) {
        (None, _) => CheckStatus::Unknown,
        (_, None) => CheckStatus::Unknown,
        (Some(c), Some(l)) => if c == l {
            CheckStatus::UpToDate
        } else {
            CheckStatus::UpgradeAvailable
        },
    }
}

/// The result for one current entry: its labels verbatim, its status, and
/// the resolved latest version.
pub open spec fn eval_entry(
    cur: VersionInfoView,
    latest: Option<Seq<VersionInfoView>>,
) -> LabeledStatusView {
    LabeledStatusView {
        labels: cur.labels,
        status: status_of(cur.version, resolved_latest(cur, latest)),
        latest_version: resolved_latest(cur, latest),
    }
}

/// The views of a list of labeled statuses.
pub open spec fn labeled_statuses_view(s: Seq<LabeledStatus>) -> Seq<LabeledStatusView> {
    s.map_values(|x: LabeledStatus| x@)
}

/// The views of an optionally present cohort.
pub open spec fn opt_versions_view(v: Option<&Vec<VersionInfo>>) -> Option<Seq<VersionInfoView>> {
    match v {
        Some(ls) => Some(version_infos_view(ls@)),
        None => None,
    }
}

/// What a check yields on a snapshot: nothing when its current feed key is
/// absent, else one result per current entry, in the cohort's order.
pub open spec fn spec_check(
    current_key: Seq<char>,
    latest_key: Seq<char>,
    releases: Seq<(String, Vec<VersionInfo>)>,
) -> Seq<LabeledStatusView> {
    match assoc(releases, current_key) {
        None => Seq::empty(),
        Some(cur) => version_infos_view(cur@).map_values(
            |c: VersionInfoView|
                eval_entry(
                    c,
                    match assoc(releases, latest_key) {
                        Some(ls) => Some(version_infos_view(ls@)),
                        None => None,
                    },
                ),
        ),
    }
}

/// If the first `i` latest entries do not label-match and entry `i` does,
/// the first match is entry `i`.
proof fn lemma_first_match_at(
    latest: Seq<VersionInfoView>,
    cur_labels: Seq<(Seq<char>, Seq<char>)>,
    i: int,
)
    requires
        0 <= i < latest.len(),
        labels_subset(latest[i].labels, cur_labels),
        forall|j: int| 0 <= j < i ==> !labels_subset((#[trigger] latest[j]).labels, cur_labels),
    ensures
        first_match(latest, cur_labels) == Some(latest[i]),
    decreases i,
{
    if i > 0 {
        lemma_first_match_at(latest.drop_first(), cur_labels, i - 1);
    }
}

/// If no latest entry label-matches, there is no first match.
proof fn lemma_first_match_none(
    latest: Seq<VersionInfoView>,
    cur_labels: Seq<(Seq<char>, Seq<char>)>,
)
    requires
        forall|j: int|
            0 <= j < latest.len() ==> !labels_subset((#[trigger] latest[j]).labels, cur_labels),
    ensures
        first_match(latest, cur_labels) is None,
    decreases latest.len(),
{
    if latest.len() > 0 {
        lemma_first_match_none(latest.drop_first(), cur_labels);
    }
}

/// Whether every label of `wanted` is present with an equal value in `have`.
fn labels_contained(wanted: &Vec<(String, String)>, have: &Vec<(String, String)>) -> (r: bool)
    ensures
        r == labels_subset(label_pairs_view(wanted@), label_pairs_view(have@)),
{
    let n = wanted.len();
    let mut j: usize = 0;
    while j < n
        invariant
            n == wanted@.len(),
            j <= n,
            forall|p: int|
                0 <= p < j ==> label_value(
                    label_pairs_view(have@),
                    (#[trigger] label_pairs_view(wanted@)[p]).0,
                ) == Some(label_pairs_view(wanted@)[p].1),
        decreases n - j,
    {
        let matched = match crate::labels::get_label(have, wanted[j].0.as_str()) {
            Some(v) => str_eq(v.as_str(), wanted[j].1.as_str()),
            None => false,
        };
        if !matched {
            proof {
                assert(label_value(label_pairs_view(have@), label_pairs_view(wanted@)[j as int].0)
                    != Some(label_pairs_view(wanted@)[j as int].1));
            }
            return false;
        }
        j += 1;
    }
    true
}

/// A copy of a label set, pair for pair.
fn clone_labels(labels: &Vec<(String, String)>) -> (r: Vec<(String, String)>)
    ensures
        r@ == labels@,
{
    let n = labels.len();
    let mut r: Vec<(String, String)> = Vec::new();
    let mut i: usize = 0;
    while i < n
        invariant
            n == labels@.len(),
            i <= n,
            r@ =~= labels@.subrange(0, i as int),
        decreases n - i,
    {
        r.push((labels[i].0.clone(), labels[i].1.clone()));
        i += 1;
    }
    proof {
        assert(r@ =~= labels@);
    }
    r
}

impl UpgradePendingCheck {
    /// A check with unnamed feed keys defaulted from the check name:
    /// `current_<name>_release` and `latest_<name>_release`.
    pub fn with_defaults(name: String, current: Option<String>, latest: Option<String>) -> (r:
        UpgradePendingCheck)
        ensures
            r.name@ == name@,
            r.current@ == (match current {
                Some(c) => c@,
                None => "current_"@ + name@ + "_release"@,
            }),
            r.latest@ == (match latest {
                Some(l) => l@,
                None => "latest_"@ + name@ + "_release"@,
            }),
    {
        let current = match current {
            Some(c) => c,
            None => {
                let mut s = "current_".to_owned();
                s.append(name.as_str());
                s.append("_release");
                s
            },
        };
        let latest = match latest {
            Some(l) => l,
            None => {
                let mut s = "latest_".to_owned();
                s.append(name.as_str());
                s.append("_release");
                s
            },
        };
        UpgradePendingCheck { name, current, latest }
    }

    /// The version of the first latest entry whose labels `current` carries,
    /// if a latest cohort is present, one matches, and it names a version.
    pub fn latest_version(current: &VersionInfo, latest: Option<&Vec<VersionInfo>>) -> (r: Option<
        String,
    >)
        ensures
            opt_str_view(r) == resolved_latest(current@, opt_versions_view(latest)),
    {
        match latest {
            None => None,
            Some(ls) => {
                let n = ls.len();
                let mut i: usize = 0;
                while i < n
                    invariant
                        n == ls@.len(),
                        i <= n,
                        opt_versions_view(latest) == Some(version_infos_view(ls@)),
                        forall|j: int|
                            0 <= j < i ==> !labels_subset(
                                (#[trigger] version_infos_view(ls@)[j]).labels,
                                current@.labels,
                            ),
                    decreases n - i,
                {
                    if labels_contained(&ls[i].labels, &current.labels) {
                        proof {
                            lemma_first_match_at(
                                version_infos_view(ls@),
                                current@.labels,
                                i as int,
                            );
                        }
                        return match &ls[i].version {
                            Some(v) => Some(v.clone()),
                            None => None,
                        };
                    }
                    i += 1;
                }
                proof {
                    lemma_first_match_none(version_infos_view(ls@), current@.labels);
                }
                None
            },
        }
    }

    /// One result per entry of the current cohort, in its order; an empty
    /// list when the snapshot misses the current feed key.
    pub fn check(&self, releases: &Vec<(String, Vec<VersionInfo>)>) -> (r: Vec<LabeledStatus>)
        ensures
            labeled_statuses_view(r@) == spec_check(self.current@, self.latest@, releases@),
    {
        let current: &Vec<VersionInfo> = match find_key(releases, self.current.as_str()) {
            Some(ci) => &releases[ci].1,
            None => {
                let r: Vec<LabeledStatus> = Vec::new();
                proof {
                    assert(labeled_statuses_view(r@) =~= spec_check(
                        self.current@,
                        self.latest@,
                        releases@,
                    ));
                }
                return r;
            },
        };
        let latest: Option<&Vec<VersionInfo>> = match find_key(releases, self.latest.as_str()) {
            Some(li) => Some(&releases[li].1),
            None => None,
        };
        let ghost latest_view = opt_versions_view(latest);
        let n = current.len();
        let mut out: Vec<LabeledStatus> = Vec::new();
        let mut k: usize = 0;
        while k < n
            invariant
                n == current@.len(),
                k <= n,
                out@.len() == k,
                latest_view == opt_versions_view(latest),
                forall|p: int|
                    0 <= p < k ==> (#[trigger] out@[p])@ == eval_entry(
                        version_infos_view(current@)[p],
                        latest_view,
                    ),
            decreases n - k,
        {
            let entry = &current[k];
            let lv = Self::latest_version(entry, latest);
            let status = match (&entry.version, &lv) {
                (Option::None, _) => CheckStatus::Unknown,
                (_, Option::None) => CheckStatus::Unknown,
                (Option::Some(c), Option::Some(l)) => {
                    if str_eq(c.as_str(), l.as_str()) {
                        CheckStatus::UpToDate
                    } else {
                        CheckStatus::UpgradeAvailable
                    }
                },
            };
            out.push(LabeledStatus { labels: clone_labels(&entry.labels), status, latest_version: lv });
            k += 1;
        }
        proof {
            assert(labeled_statuses_view(out@) =~= spec_check(
                self.current@,
                self.latest@,
                releases@,
            ));
        }
        out
    }
}

/// A current entry without a version is classified `Unknown`, irrespective
/// of the latest cohort's contents, and its labels are carried verbatim.
pub proof fn lemma_missing_version_unknown(
    cur: VersionInfoView,
    latest: Option<Seq<VersionInfoView>>,
)
    requires
        cur.version is None,
    ensures
        eval_entry(cur, latest).status == CheckStatus::Unknown,
        eval_entry(cur, latest).labels == cur.labels,
{
}

/// A current entry without a version that no latest entry label-matches
/// resolves no latest version either.
pub proof fn lemma_missing_version_unmatched(
    cur: VersionInfoView,
    latest: Option<Seq<VersionInfoView>>,
)
    requires
        cur.version is None,
        match latest {
            Some(ls) => first_match(ls, cur.labels) is None,
            None => true,
        },
    ensures
        eval_entry(cur, latest).status == CheckStatus::Unknown,
        eval_entry(cur, latest).latest_version is None,
{
}

/// A check whose current feed key is absent from the snapshot yields an
/// empty result list — not an error.
pub proof fn lemma_missing_current_feed(
    current_key: Seq<char>,
    latest_key: Seq<char>,
    releases: Seq<(String, Vec<VersionInfo>)>,
)
    requires
        !has_key(releases, current_key),
    ensures
        spec_check(current_key, latest_key, releases) == Seq::<LabeledStatusView>::empty(),
{
    lemma_assoc_has_key(releases, current_key);
}

} // verus!
