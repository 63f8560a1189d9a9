//! Bounded-concurrency collection of feeds, isolating per-feed failures.
//!
//! A [`Collector`] tracks one slot per submitted feed. The owner drives it:
//! [`Collector::launch`] hands out the next feed to fetch while fewer than the
//! configured limit are in flight, and each fetch settles its slot through
//! [`Collector::complete_success`] or [`Collector::complete_failure`] — in
//! completion order, which need not be submission order. Once every slot is
//! settled, [`Collector::into_collection`] yields the success and failure
//! maps. A failing fetch settles only its own slot and never perturbs the
//! rest; no retries happen at this layer.

use vstd::prelude::*;

use crate::labels::has_key;
use crate::labels::str_eq;
use crate::providers::VersionInfo;

verus! {

/// How many fetches may be in flight at once when no other bound is
/// configured.
pub const DEFAULT_CONCURRENCY: usize = 10;

/// A feed descriptor: the process-unique feed name and the feed's
/// time-to-live in seconds (zero: do not cache).
pub struct Feed {
    pub name: String,
    pub ttl: u64,
}

/// One feed's successfully fetched batch, with the time-to-live to cache it
/// under.
pub struct Release {
    pub versions: Vec<VersionInfo>,
    pub cache_duration: u64,
}

/// The outcome of one collection pass: a success map and a failure map,
/// both keyed by feed name.
pub struct ReleaseCollection {
    pub releases: Vec<(String, Release)>,
    pub errors: Vec<(String, String)>,
}

/// Where one submitted feed stands.
pub enum SlotState {
    /// Not launched yet.
    Queued,
    /// Launched, no outcome yet.
    InFlight,
    /// Settled with a fetched batch.
    Succeeded(Release),
    /// Settled with an error.
    Failed(String),
}

/// One submitted feed and where it stands.
pub struct Slot {
    pub feed: Feed,
    pub state: SlotState,
}

/// The submitted feed names, in submission order.
pub open spec fn slot_names(slots: Seq<Slot>) -> Seq<Seq<char>> {
    slots.map_values(|s: Slot| s.feed.name@)
}

/// Names are pairwise distinct.
pub open spec fn distinct_names(names: Seq<Seq<char>>) -> bool {
    forall|i: int, j: int| 0 <= i < j < names.len() ==> names[i] != names[j]
}

/// Whether some name in `names` reads `n`.
pub open spec fn names_contain(names: Seq<Seq<char>>, n: Seq<char>) -> bool {
    exists|i: int| 0 <= i < names.len() && names[i] == n
}

/// Whether a slot is settled one way or the other.
pub open spec fn is_settled(s: SlotState) -> bool {
    s is Succeeded || s is Failed
}

/// The number of slots in flight.
pub open spec fn count_active(slots: Seq<Slot>) -> int
    decreases slots.len(),
{
    if slots.len() == 0 {
        0
    } else {
        count_active(slots.drop_first()) + if slots[0].state is InFlight {
            1int
        } else {
            0int
        }
    }
}

/// The success map a slot sequence settles into: one entry per succeeded
/// slot, in submission order.
pub open spec fn successes_of(slots: Seq<Slot>) -> Seq<(String, Release)>
    decreases slots.len(),
{
    if slots.len() == 0 {
        Seq::empty()
    } else {
        match slots[0].state {
            SlotState::Succeeded(rel) => seq![(slots[0].feed.name, rel)] + successes_of(
                slots.drop_first(),
            ),
            _ => successes_of(slots.drop_first()),
        }
    }
}

/// The failure map a slot sequence settles into: one entry per failed slot,
/// in submission order.
pub open spec fn failures_of(slots: Seq<Slot>) -> Seq<(String, String)>
    decreases slots.len(),
{
    if slots.len() == 0 {
        Seq::empty()
    } else {
        match slots[0].state {
            SlotState::Failed(err) => seq![(slots[0].feed.name, err)] + failures_of(
                slots.drop_first(),
            ),
            _ => failures_of(slots.drop_first()),
        }
    }
}

proof fn lemma_count_active_nonneg(slots: Seq<Slot>)
    ensures
        count_active(slots) >= 0,
    decreases slots.len(),
{
    if slots.len() > 0 {
        lemma_count_active_nonneg(slots.drop_first());
    }
}

proof fn lemma_count_active_at_least_one(slots: Seq<Slot>, i: int)
    requires
        0 <= i < slots.len(),
        slots[i].state is InFlight,
    ensures
        count_active(slots) >= 1,
    decreases i,
{
    lemma_count_active_nonneg(slots.drop_first());
    if i > 0 {
        lemma_count_active_at_least_one(slots.drop_first(), i - 1);
    }
}

proof fn lemma_count_active_none(slots: Seq<Slot>)
    requires
        count_active(slots) == 0,
    ensures
        forall|i: int| 0 <= i < slots.len() ==> !((#[trigger] slots[i]).state is InFlight),
    decreases slots.len(),
{
    if slots.len() > 0 {
        lemma_count_active_nonneg(slots.drop_first());
        lemma_count_active_none(slots.drop_first());
        assert forall|i: int| 0 <= i < slots.len() implies !((#[trigger] slots[i]).state
            is InFlight) by {
            if i > 0 {
                assert(slots.drop_first()[i - 1] == slots[i]);
            }
        }
    }
}

/// Replacing one slot changes the in-flight count by the difference the two
/// slots make.
proof fn lemma_count_active_update(slots: Seq<Slot>, i: int, slot: Slot)
    requires
        0 <= i < slots.len(),
    ensures
        count_active(slots.update(i, slot)) == count_active(slots) + (if slot.state is InFlight {
            1int
        } else {
            0int
        }) - (if slots[i].state is InFlight {
            1int
        } else {
            0int
        }),
    decreases i,
{
    let updated = slots.update(i, slot);
    if i == 0 {
        assert(updated.drop_first() =~= slots.drop_first());
    } else {
        lemma_count_active_update(slots.drop_first(), i - 1, slot);
        assert(updated.drop_first() =~= slots.drop_first().update(i - 1, slot));
    }
}

/// Index of the first slot for `name`, if any.
fn find_slot(slots: &Vec<Slot>, name: &str) -> (r: Option<usize>)
    ensures
        match r {
            Some(i) => {
                &&& i < slots@.len()
                &&& slots@[i as int].feed.name@ == name@
                &&& forall|j: int| 0 <= j < i ==> (#[trigger] slots@[j]).feed.name@ != name@
            },
            None => forall|j: int|
                0 <= j < slots@.len() ==> (#[trigger] slots@[j]).feed.name@ != name@,
        },
{
    let n = slots.len();
    let mut i: usize = 0;
    while i < n
        invariant
            n == slots@.len(),
            i <= n,
            forall|j: int| 0 <= j < i ==> (#[trigger] slots@[j]).feed.name@ != name@,
        decreases n - i,
    {
        if str_eq(slots[i].feed.name.as_str(), name) {
            return Some(i);
        }
        i += 1;
    }
    None
}

/// Fetches all submitted feeds with bounded parallelism, isolating each
/// feed's success or failure in its own slot.
pub struct Collector {
    slots: Vec<Slot>,
    launched: usize,
    active: usize,
    limit: usize,
}

impl Collector {
    /// One slot per submitted feed, in submission order.
    pub closed spec fn slots(&self) -> Seq<Slot> {
        self.slots@
    }

    /// How many feeds have been launched so far.
    pub closed spec fn launched(&self) -> int {
        self.launched as int
    }

    /// How many fetches are in flight.
    pub closed spec fn active(&self) -> int {
        self.active as int
    }

    /// The bound on simultaneous fetches.
    pub closed spec fn limit(&self) -> int {
        self.limit as int
    }

    /// Launches happen in submission order, at most `limit` are in flight at
    /// once, and feed names are process-unique.
    pub open spec fn wf(&self) -> bool {
        &&& distinct_names(slot_names(self.slots()))
        &&& 0 <= self.launched() <= self.slots().len()
        &&& forall|i: int| 0 <= i < self.launched() ==> !((#[trigger] self.slots()[i]).state is Queued)
        &&& forall|i: int|
            self.launched() <= i < self.slots().len() ==> (#[trigger] self.slots()[i]).state
                is Queued
        &&& self.active() == count_active(self.slots())
        &&& self.active() <= self.limit()
        &&& 1 <= self.limit()
    }

    /// Every slot has settled: nothing queued, nothing in flight.
    pub open spec fn done(&self) -> bool {
        self.launched() == self.slots().len() && self.active() == 0
    }

    /// A collector over `feeds`, none launched yet, with at most `limit`
    /// fetches in flight at once.
    pub fn new(feeds: Vec<Feed>, limit: usize) -> (r: Collector)
        requires
            distinct_names(feeds@.map_values(|f: Feed| f.name@)),
            1 <= limit,
        ensures
            r.wf(),
            r.slots().len() == feeds@.len(),
            forall|i: int|
                0 <= i < feeds@.len() ==> (#[trigger] r.slots()[i]).feed == feeds@[i]
                    && r.slots()[i].state is Queued,
            r.launched() == 0,
            r.active() == 0,
            r.limit() == limit,
    {
        let ghost all = feeds@;
        let mut feeds = feeds;
        let mut slots: Vec<Slot> = Vec::new();
        let n = feeds.len();
        let mut i: usize = 0;
        while i < n
            invariant
                n == all.len(),
                i <= n,
                feeds@ =~= all.skip(i as int),
                slots@.len() == i,
                forall|j: int|
                    0 <= j < i ==> (#[trigger] slots@[j]).feed == all[j] && slots@[j].state
                        is Queued,
            decreases n - i,
        {
            let feed = feeds.remove(0);
            slots.push(Slot { feed, state: SlotState::Queued });
            i += 1;
        }
        let r = Collector { slots, launched: 0, active: 0, limit };
        proof {
            assert(slot_names(r.slots()) =~= all.map_values(|f: Feed| f.name@));
            assert(count_active(r.slots()) == 0) by {
                lemma_count_active_all_queued(r.slots());
            }
        }
        r
    }

    /// Hands out the next feed to fetch, when one is queued and a slot is
    /// free; the returned name identifies the fetch when it settles.
    pub fn launch(&mut self) -> (r: Option<String>)
        requires
            old(self).wf(),
        ensures
            final(self).wf(),
            slot_names(final(self).slots()) == slot_names(old(self).slots()),
            r is Some <==> (old(self).launched() < old(self).slots().len() && old(self).active()
                < old(self).limit()),
            r matches Some(name) ==> {
                &&& name@ == old(self).slots()[old(self).launched()].feed.name@
                &&& final(self).slots() == old(self).slots().update(
                    old(self).launched(),
                    (Slot {
                        feed: old(self).slots()[old(self).launched()].feed,
                        state: SlotState::InFlight,
                    }),
                )
                &&& final(self).launched() == old(self).launched() + 1
                &&& final(self).active() == old(self).active() + 1
                &&& final(self).limit() == old(self).limit()
            },
            r is None ==> {
                &&& final(self).slots() == old(self).slots()
                &&& final(self).launched() == old(self).launched()
                &&& final(self).active() == old(self).active()
                &&& final(self).limit() == old(self).limit()
            },
    {
        if self.launched < self.slots.len() && self.active < self.limit {
            let i = self.launched;
            let name = self.slots[i].feed.name.clone();
            let ttl = self.slots[i].feed.ttl;
            let slot = Slot { feed: Feed { name: name.clone(), ttl }, state: SlotState::InFlight };
            proof {
                lemma_count_active_update(self.slots@, i as int, slot);
            }
            self.slots[i] = slot;
            self.launched = i + 1;
            self.active = self.active + 1;
            proof {
                assert(slot_names(self.slots@) =~= slot_names(old(self).slots@));
            }
            Some(name)
        } else {
            None
        }
    }
}

impl Collector {
    /// Settles the fetch for `name` with its fetched batch; the batch is
    /// cached under the feed's own time-to-live.
    pub fn complete_success(&mut self, name: &str, versions: Vec<VersionInfo>)
        requires
            old(self).wf(),
            exists|i: int|
                0 <= i < old(self).slots().len() && (#[trigger] old(self).slots()[i]).feed.name@
                    == name@ && old(self).slots()[i].state is InFlight,
        ensures
            final(self).wf(),
            slot_names(final(self).slots()) == slot_names(old(self).slots()),
            exists|i: int|
                {
                    &&& 0 <= i < old(self).slots().len()
                    &&& (#[trigger] old(self).slots()[i]).feed.name@ == name@
                    &&& old(self).slots()[i].state is InFlight
                    &&& final(self).slots() == old(self).slots().update(
                        i,
                        (Slot {
                            feed: old(self).slots()[i].feed,
                            state: SlotState::Succeeded(
                                Release {
                                    versions,
                                    cache_duration: old(self).slots()[i].feed.ttl,
                                },
                            ),
                        }),
                    )
                },
            final(self).launched() == old(self).launched(),
            final(self).active() == old(self).active() - 1,
            final(self).limit() == old(self).limit(),
    {
        match find_slot(&self.slots, name) {
            Some(i) => {
                proof {
                    lemma_settle_index(self.slots@, name@, i as int);
                    lemma_count_active_at_least_one(self.slots@, i as int);
                }
                let ttl = self.slots[i].feed.ttl;
                let nm = self.slots[i].feed.name.clone();
                let slot = Slot {
                    feed: Feed { name: nm, ttl },
                    state: SlotState::Succeeded(Release { versions, cache_duration: ttl }),
                };
                proof {
                    lemma_count_active_update(self.slots@, i as int, slot);
                }
                self.slots[i] = slot;
                self.active = self.active - 1;
                proof {
                    assert(slot_names(self.slots@) =~= slot_names(old(self).slots@));
                }
            },
            None => {
                proof {
                    let j = choose|j: int|
                        0 <= j < self.slots@.len() && (#[trigger] self.slots@[j]).feed.name@
                            == name@ && self.slots@[j].state is InFlight;
                    assert(false);
                }
            },
        }
    }

    /// Settles the fetch for `name` with the error it reported; no other
    /// feed is perturbed and nothing is retried.
    pub fn complete_failure(&mut self, name: &str, error: String)
        requires
            old(self).wf(),
            exists|i: int|
                0 <= i < old(self).slots().len() && (#[trigger] old(self).slots()[i]).feed.name@
                    == name@ && old(self).slots()[i].state is InFlight,
        ensures
            final(self).wf(),
            slot_names(final(self).slots()) == slot_names(old(self).slots()),
            exists|i: int|
                {
                    &&& 0 <= i < old(self).slots().len()
                    &&& (#[trigger] old(self).slots()[i]).feed.name@ == name@
                    &&& old(self).slots()[i].state is InFlight
                    &&& final(self).slots() == old(self).slots().update(
                        i,
                        (Slot {
                            feed: old(self).slots()[i].feed,
                            state: SlotState::Failed(error),
                        }),
                    )
                },
            final(self).launched() == old(self).launched(),
            final(self).active() == old(self).active() - 1,
            final(self).limit() == old(self).limit(),
    {
        match find_slot(&self.slots, name) {
            Some(i) => {
                proof {
                    lemma_settle_index(self.slots@, name@, i as int);
                    lemma_count_active_at_least_one(self.slots@, i as int);
                }
                let ttl = self.slots[i].feed.ttl;
                let nm = self.slots[i].feed.name.clone();
                let slot = Slot { feed: Feed { name: nm, ttl }, state: SlotState::Failed(error) };
                proof {
                    lemma_count_active_update(self.slots@, i as int, slot);
                }
                self.slots[i] = slot;
                self.active = self.active - 1;
                proof {
                    assert(slot_names(self.slots@) =~= slot_names(old(self).slots@));
                }
            },
            None => {
                proof {
                    let j = choose|j: int|
                        0 <= j < self.slots@.len() && (#[trigger] self.slots@[j]).feed.name@
                            == name@ && self.slots@[j].state is InFlight;
                    assert(false);
                }
            },
        }
    }

    /// Whether the fetch for `name` is in flight and may settle.
    pub fn is_in_flight(&self, name: &str) -> (r: bool)
        requires
            self.wf(),
        ensures
            r == exists|i: int|
                0 <= i < self.slots().len() && (#[trigger] self.slots()[i]).feed.name@ == name@
                    && self.slots()[i].state is InFlight,
    {
        match find_slot(&self.slots, name) {
            Some(i) => {
                let active = match &self.slots[i].state {
                    SlotState::InFlight => true,
                    _ => false,
                };
                proof {
                    if active {
                        assert(self.slots@[i as int].feed.name@ == name@ && self.slots@[i as int].state
                            is InFlight);
                    } else {
                        if exists|j: int|
                            0 <= j < self.slots@.len() && (#[trigger] self.slots@[j]).feed.name@
                                == name@ && self.slots@[j].state is InFlight {
                            lemma_settle_index(self.slots@, name@, i as int);
                        }
                    }
                }
                active
            },
            None => false,
        }
    }

    /// Whether every submitted feed has settled.
    pub fn is_done(&self) -> (r: bool)
        ensures
            r == self.done(),
    {
        self.launched == self.slots.len() && self.active == 0
    }

    /// The two output maps, once every feed has settled: per feed name either
    /// its batch or its error, never both.
    pub fn into_collection(self) -> (r: ReleaseCollection)
        requires
            self.wf(),
            self.done(),
        ensures
            r.releases@ == successes_of(self.slots()),
            r.errors@ == failures_of(self.slots()),
    {
        proof {
            lemma_count_active_none(self.slots@);
        }
        let Collector { slots, launched: _, active: _, limit: _ } = self;
        let mut slots = slots;
        let ghost all = slots@;
        let mut releases: Vec<(String, Release)> = Vec::new();
        let mut errors: Vec<(String, String)> = Vec::new();
        let n = slots.len();
        let mut i: usize = 0;
        proof {
            assert(all.skip(0) =~= all);
            assert(releases@ + successes_of(all) =~= successes_of(all));
            assert(errors@ + failures_of(all) =~= failures_of(all));
        }
        while i < n
            invariant
                n == all.len(),
                i <= n,
                slots@ =~= all.skip(i as int),
                successes_of(all) =~= releases@ + successes_of(all.skip(i as int)),
                failures_of(all) =~= errors@ + failures_of(all.skip(i as int)),
                forall|j: int| 0 <= j < all.len() ==> is_settled((#[trigger] all[j]).state),
            decreases n - i,
        {
            proof {
                assert(all.skip(i as int)[0] == all[i as int]);
                assert(all.skip(i as int).drop_first() =~= all.skip(i + 1));
            }
            let ghost releases_before = releases@;
            let ghost errors_before = errors@;
            let s = slots.remove(0);
            match s.state {
                SlotState::Succeeded(rel) => {
                    releases.push((s.feed.name, rel));
                    proof {
                        assert(releases@ + successes_of(all.skip(i + 1)) =~= releases_before + (
                        seq![(all[i as int].feed.name, all[i as int].state->Succeeded_0)]
                            + successes_of(all.skip(i + 1))));
                    }
                },
                SlotState::Failed(err) => {
                    errors.push((s.feed.name, err));
                    proof {
                        assert(errors@ + failures_of(all.skip(i + 1)) =~= errors_before + (seq![
                            (all[i as int].feed.name, all[i as int].state->Failed_0),
                        ] + failures_of(all.skip(i + 1))));
                    }
                },
                SlotState::Queued => {
                    proof {
                        assert(false);
                    }
                },
                SlotState::InFlight => {
                    proof {
                        assert(false);
                    }
                },
            }
            i += 1;
        }
        proof {
            assert(all.skip(n as int) =~= Seq::<Slot>::empty());
            assert(releases@ =~= successes_of(all));
            assert(errors@ =~= failures_of(all));
        }
        ReleaseCollection { releases, errors }
    }
}

/// With distinct names, the first slot found for a name is the only one; a
/// slot known to be in flight under that name is that very slot.
proof fn lemma_settle_index(slots: Seq<Slot>, n: Seq<char>, i: int)
    requires
        distinct_names(slot_names(slots)),
        0 <= i < slots.len(),
        slots[i].feed.name@ == n,
        exists|j: int|
            0 <= j < slots.len() && (#[trigger] slots[j]).feed.name@ == n && slots[j].state
                is InFlight,
    ensures
        slots[i].state is InFlight,
{
    let j = choose|j: int|
        0 <= j < slots.len() && (#[trigger] slots[j]).feed.name@ == n && slots[j].state
            is InFlight;
    assert(slot_names(slots)[i] == n);
    assert(slot_names(slots)[j] == n);
    if i != j {
        assert(slot_names(slots)[i] != slot_names(slots)[j]);
    }
}

/// A name in `names` is its head or lies in its tail.
proof fn lemma_names_contain_head(names: Seq<Seq<char>>, n: Seq<char>)
    requires
        names.len() > 0,
    ensures
        names_contain(names, n) == (names[0] == n || names_contain(names.drop_first(), n)),
{
    if names_contain(names, n) {
        let i = choose|i: int| 0 <= i < names.len() && names[i] == n;
        if i > 0 {
            assert(names.drop_first()[i - 1] == n);
        }
    }
    if names_contain(names.drop_first(), n) {
        let i = choose|i: int| 0 <= i < names.drop_first().len() && names.drop_first()[i] == n;
        assert(names[i + 1] == n);
    }
}

/// A key of either output map names a submitted feed.
proof fn lemma_output_keys(slots: Seq<Slot>, n: Seq<char>)
    ensures
        has_key(successes_of(slots), n) ==> names_contain(slot_names(slots), n),
        has_key(failures_of(slots), n) ==> names_contain(slot_names(slots), n),
    decreases slots.len(),
{
    if slots.len() > 0 {
        let rest = slots.drop_first();
        lemma_output_keys(rest, n);
        assert(slot_names(rest) =~= slot_names(slots).drop_first());
        lemma_names_contain_head(slot_names(slots), n);
        match slots[0].state {
            SlotState::Succeeded(rel) => {
                crate::labels::lemma_has_key_cons(
                    (slots[0].feed.name, rel),
                    successes_of(rest),
                    n,
                );
            },
            SlotState::Failed(err) => {
                crate::labels::lemma_has_key_cons((slots[0].feed.name, err), failures_of(rest), n);
            },
            _ => {},
        }
    }
}

/// Every submitted feed name appears in exactly one of the two outputs,
/// whatever order the completions arrived in: a name is a key of the success
/// map or of the failure map exactly when it was submitted, and never of
/// both.
pub proof fn lemma_outputs_partition(slots: Seq<Slot>, n: Seq<char>)
    requires
        distinct_names(slot_names(slots)),
        forall|i: int| 0 <= i < slots.len() ==> is_settled((#[trigger] slots[i]).state),
    ensures
        names_contain(slot_names(slots), n) <==> (has_key(successes_of(slots), n) || has_key(
            failures_of(slots),
            n,
        )),
        !(has_key(successes_of(slots), n) && has_key(failures_of(slots), n)),
    decreases slots.len(),
{
    if slots.len() == 0 {
        if names_contain(slot_names(slots), n) {
            let i = choose|i: int| 0 <= i < slot_names(slots).len() && slot_names(slots)[i] == n;
        }
        if has_key(successes_of(slots), n) || has_key(failures_of(slots), n) {
            lemma_output_keys(slots, n);
        }
    } else {
        let rest = slots.drop_first();
        assert(slot_names(rest) =~= slot_names(slots).drop_first());
        assert(forall|i: int| 0 <= i < rest.len() ==> rest[i] == slots[i + 1]);
        lemma_outputs_partition(rest, n);
        lemma_names_contain_head(slot_names(slots), n);
        lemma_output_keys(rest, n);
        match slots[0].state {
            SlotState::Succeeded(rel) => {
                crate::labels::lemma_has_key_cons(
                    (slots[0].feed.name, rel),
                    successes_of(rest),
                    n,
                );
                assert(failures_of(slots) == failures_of(rest));
                if slots[0].feed.name@ == n && names_contain(slot_names(rest), n) {
                    let i = choose|i: int|
                        0 <= i < slot_names(rest).len() && slot_names(rest)[i] == n;
                    assert(slot_names(slots)[0] != slot_names(slots)[i + 1]);
                }
            },
            SlotState::Failed(err) => {
                crate::labels::lemma_has_key_cons((slots[0].feed.name, err), failures_of(rest), n);
                assert(successes_of(slots) == successes_of(rest));
                if slots[0].feed.name@ == n && names_contain(slot_names(rest), n) {
                    let i = choose|i: int|
                        0 <= i < slot_names(rest).len() && slot_names(rest)[i] == n;
                    assert(slot_names(slots)[0] != slot_names(slots)[i + 1]);
                }
            },
            _ => {
                assert(is_settled(slots[0].state));
            },
        }
    }
}

/// The outputs together account for every submitted feed, one entry each:
/// with `f` failures out of `m` submitted, the success map has `m - f`
/// entries; with no failures it has all `m`.
pub proof fn lemma_output_counts(slots: Seq<Slot>)
    requires
        forall|i: int| 0 <= i < slots.len() ==> is_settled((#[trigger] slots[i]).state),
    ensures
        successes_of(slots).len() + failures_of(slots).len() == slots.len(),
    decreases slots.len(),
{
    if slots.len() > 0 {
        let rest = slots.drop_first();
        assert(forall|i: int| 0 <= i < rest.len() ==> rest[i] == slots[i + 1]);
        lemma_output_counts(rest);
        assert(is_settled(slots[0].state));
    }
}

/// A sequence of queued slots has nothing in flight.
proof fn lemma_count_active_all_queued(slots: Seq<Slot>)
    requires
        forall|i: int| 0 <= i < slots.len() ==> (#[trigger] slots[i]).state is Queued,
    ensures
        count_active(slots) == 0,
    decreases slots.len(),
{
    if slots.len() > 0 {
        lemma_count_active_all_queued(slots.drop_first());
    }
}

} // verus!
