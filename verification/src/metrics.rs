//! Shaping check results into metric rows.
//!
//! Each labeled status becomes one gauge row: the check's name, the status as
//! a label value, the resolved latest version when there is one, and the
//! instance's own labels. The wire encoding of the rows is an external
//! collaborator's concern; the library fixes what the rows hold.

use vstd::prelude::*;

use crate::labels::label_pairs_view;
use crate::providers::opt_str_view;
use crate::upgrade_pending::CheckStatus;
use crate::upgrade_pending::LabeledStatus;
use crate::upgrade_pending::labeled_statuses_view;
use crate::upgrade_pending::LabeledStatusView;

verus! {

/// The metric label value each status is reported under.
pub open spec fn status_label(s: CheckStatus) -> Seq<char> {
    match s {
        CheckStatus::Unknown => "unknown"@,
        CheckStatus::UpToDate => "up-to-date"@,
        CheckStatus::UpgradeAvailable => "upgrade-available"@,
    }
}

impl CheckStatus {
    /// The label value this status is reported under.
    pub fn label_value(&self) -> (r: &'static str)
        ensures
            r@ == status_label(*self),
    {
        match self {
            CheckStatus::Unknown => "unknown",
            CheckStatus::UpToDate => "up-to-date",
            CheckStatus::UpgradeAvailable => "upgrade-available",
        }
    }
}

/// The label set of one gauge row.
pub struct UpgradeLabels {
    pub status: CheckStatus,
    pub name: String,
    pub latest_version: Option<String>,
    pub additional_labels: Vec<(String, String)>,
}

/// A gauge row as it appears in specifications.
pub ghost struct UpgradeLabelsView {
    pub status: CheckStatus,
    pub name: Seq<char>,
    pub latest_version: Option<Seq<char>>,
    pub additional_labels: Seq<(Seq<char>, Seq<char>)>,
}

impl View for UpgradeLabels {
    type V = UpgradeLabelsView;

    open spec fn view(&self) -> UpgradeLabelsView {
        UpgradeLabelsView {
            status: self.status,
            name: self.name@,
            latest_version: opt_str_view(self.latest_version),
            additional_labels: label_pairs_view(self.additional_labels@),
        }
    }
}

/// The row one labeled status yields under check `name`.
pub open spec fn spec_row(name: Seq<char>, ls: LabeledStatusView) -> UpgradeLabelsView {
    UpgradeLabelsView {
        status: ls.status,
        name,
        latest_version: ls.latest_version,
        additional_labels: ls.labels,
    }
}

/// The views of a list of rows.
pub open spec fn rows_view(s: Seq<UpgradeLabels>) -> Seq<UpgradeLabelsView> {
    s.map_values(|x: UpgradeLabels| x@)
}

/// The rows one check's results yield.
pub open spec fn spec_check_rows(name: Seq<char>, statuses: Seq<LabeledStatus>) -> Seq<
    UpgradeLabelsView,
> {
    labeled_statuses_view(statuses).map_values(|v: LabeledStatusView| spec_row(name, v))
}

/// The rows a whole update yields: each check's results in turn, in order.
pub open spec fn spec_upgrade_rows(results: Seq<(String, Vec<LabeledStatus>)>) -> Seq<
    UpgradeLabelsView,
>
    decreases results.len(),
{
    if results.len() == 0 {
        Seq::empty()
    } else {
        spec_check_rows(results[0].0@, results[0].1@) + spec_upgrade_rows(results.drop_first())
    }
}

/// One gauge row per labeled status of every check, in order: the check's
/// name, the status, the resolved latest version, and the instance's labels.
pub fn upgrade_rows(results: Vec<(String, Vec<LabeledStatus>)>) -> (r: Vec<UpgradeLabels>)
    ensures
        rows_view(r@) == spec_upgrade_rows(results@),
{
    let ghost all = results@;
    let mut results = results;
    let mut r: Vec<UpgradeLabels> = Vec::new();
    let n = results.len();
    let mut i: usize = 0;
    proof {
        assert(all.skip(0) =~= all);
        assert(rows_view(r@) + spec_upgrade_rows(all) =~= spec_upgrade_rows(all));
    }
    while i < n
        invariant
            n == all.len(),
            i <= n,
            results@ =~= all.skip(i as int),
            rows_view(r@) + spec_upgrade_rows(all.skip(i as int)) =~= spec_upgrade_rows(all),
        decreases n - i,
    {
        proof {
            assert(all.skip(i as int)[0] == all[i as int]);
            assert(all.skip(i as int).drop_first() =~= all.skip(i + 1));
        }
        let ghost base = rows_view(r@);
        let pair = results.remove(0);
        let name = pair.0;
        let mut statuses = pair.1;
        let ghost block = all[i as int].1@;
        let m = statuses.len();
        let mut j: usize = 0;
        while j < m
            invariant
                m == block.len(),
                j <= m,
                statuses@ =~= block.skip(j as int),
                name@ == all[i as int].0@,
                rows_view(r@).len() == base.len() + j,
                forall|p: int| 0 <= p < base.len() ==> rows_view(r@)[p] == base[p],
                forall|p: int|
                    0 <= p < j ==> rows_view(r@)[base.len() + p] == spec_row(
                        all[i as int].0@,
                        (#[trigger] block[p])@,
                    ),
            decreases m - j,
        {
            proof {
                assert(block.skip(j as int)[0] == block[j as int]);
                assert(block.skip(j as int).drop_first() =~= block.skip(j + 1));
            }
            let ls = statuses.remove(0);
            r.push(
                UpgradeLabels {
                    status: ls.status,
                    name: name.clone(),
                    latest_version: ls.latest_version,
                    additional_labels: ls.labels,
                },
            );
            j += 1;
        }
        proof {
            assert(rows_view(r@) =~= base + spec_check_rows(all[i as int].0@, all[i as int].1@));
            assert(rows_view(r@) + spec_upgrade_rows(all.skip(i + 1)) =~= base + (spec_check_rows(
                all[i as int].0@,
                all[i as int].1@,
            ) + spec_upgrade_rows(all.skip(i + 1))));
        }
        i += 1;
    }
    proof {
        assert(all.skip(n as int) =~= Seq::<(String, Vec<LabeledStatus>)>::empty());
        assert(rows_view(r@) =~= spec_upgrade_rows(all));
    }
    r
}

} // verus!
