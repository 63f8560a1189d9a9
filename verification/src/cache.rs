//! Time-to-live cache for fetched version records.
//!
//! The cache maps a feed name to its most recent batch of version records.
//! Every insert schedules an expiry event at `now + ttl`; a sweep
//! ([`ReleaseCache::expire`]) deletes the key of every event that has come
//! due. Lookups read the current map state only — the owner runs the sweep
//! around reads to enforce freshness.
//!
//! A key inserted twice before either expiry fires has two scheduled events;
//! the earlier one, when due, deletes whatever is then stored under the key —
//! including the newer, still-valid entry. That race of the time-ordered
//! sweep is a documented property of the design, and the contracts below
//! state it faithfully: a key is swept exactly when *any* of its events has
//! come due.

use vstd::prelude::*;

use crate::labels::assoc;
use crate::labels::distinct_keys;
use crate::labels::find_key;
use crate::labels::has_key;
use crate::labels::str_eq;
use crate::providers::VersionInfo;

verus! {

/// A source of the current instant, injected so owners (and tests) control
/// time. Instants are seconds on an arbitrary monotone scale.
pub trait Clock {
    fn now(&self) -> u64;
}

/// The process clock.
pub struct SystemClock;

/// Relies on `std::time::SystemTime::now`: the wall clock, read as whole
/// seconds since the epoch. Nothing is promised of the value.
#[verifier::external_body]
fn system_now_secs() -> u64 {
    match std::time::SystemTime::now().duration_since(std::time::UNIX_EPOCH) {
        Ok(d) => d.as_secs(),
        Err(_) => 0,
    }
}

impl Clock for SystemClock {
    fn now(&self) -> u64 {
        system_now_secs()
    }
}

/// The instant at which an entry inserted at `now` with time-to-live `ttl`
/// expires; additions saturate at the top of the range.
pub open spec fn expiry_instant(now: u64, ttl: u64) -> u64 {
    if now + ttl > u64::MAX {
        u64::MAX
    } else {
        (now + ttl) as u64
    }
}

/// `entries` with `value` stored under `key`: an existing entry for the key
/// is replaced in place, a new key goes at the end.
pub open spec fn upsert<V>(entries: Seq<(String, V)>, key: String, value: V) -> Seq<(String, V)>
    decreases entries.len(),
{
    if entries.len() == 0 {
        seq![(key, value)]
    } else if entries[0].0@ == key@ {
        seq![(key, value)] + entries.drop_first()
    } else {
        seq![entries[0]] + upsert(entries.drop_first(), key, value)
    }
}

/// Whether some event in `events` schedules key `k` to go at or before `now`.
pub open spec fn expired_key(events: Seq<(u64, String)>, now: u64, k: Seq<char>) -> bool {
    exists|i: int|
        0 <= i < events.len() && (#[trigger] events[i]).0 <= now && events[i].1@ == k
}

/// The events still pending after a sweep at `now`: those strictly in the
/// future, in their original order.
pub open spec fn live_events(events: Seq<(u64, String)>, now: u64) -> Seq<(u64, String)>
    decreases events.len(),
{
    if events.len() == 0 {
        events
    } else if events[0].0 > now {
        seq![events[0]] + live_events(events.drop_first(), now)
    } else {
        live_events(events.drop_first(), now)
    }
}

/// The entries that a sweep at `now` leaves in place: those whose key no due
/// event names, in their original order.
pub open spec fn surviving_entries(
    entries: Seq<(String, Vec<VersionInfo>)>,
    events: Seq<(u64, String)>,
    now: u64,
) -> Seq<(String, Vec<VersionInfo>)>
    decreases entries.len(),
{
    if entries.len() == 0 {
        entries
    } else if expired_key(events, now, entries[0].0@) {
        surviving_entries(entries.drop_first(), events, now)
    } else {
        seq![entries[0]] + surviving_entries(entries.drop_first(), events, now)
    }
}

/// Replacing in place equals updating the matched position.
proof fn lemma_upsert_at<V>(entries: Seq<(String, V)>, key: String, value: V, i: int)
    requires
        0 <= i < entries.len(),
        entries[i].0@ == key@,
        forall|j: int| 0 <= j < i ==> (#[trigger] entries[j]).0@ != key@,
    ensures
        upsert(entries, key, value) =~= entries.update(i, (key, value)),
    decreases i,
{
    if i > 0 {
        lemma_upsert_at(entries.drop_first(), key, value, i - 1);
        assert(entries.update(i, (key, value)).drop_first() =~= entries.drop_first().update(
            i - 1,
            (key, value),
        ));
    }
}

/// Storing an absent key appends it.
proof fn lemma_upsert_missing<V>(entries: Seq<(String, V)>, key: String, value: V)
    requires
        forall|j: int| 0 <= j < entries.len() ==> (#[trigger] entries[j]).0@ != key@,
    ensures
        upsert(entries, key, value) =~= entries.push((key, value)),
    decreases entries.len(),
{
    if entries.len() > 0 {
        lemma_upsert_missing(entries.drop_first(), key, value);
    }
}

/// A store is immediately visible: looking up the stored key finds the
/// stored value.
pub proof fn lemma_upsert_get<V>(entries: Seq<(String, V)>, key: String, value: V)
    ensures
        assoc(upsert(entries, key, value), key@) == Some(value),
    decreases entries.len(),
{
    if entries.len() > 0 && entries[0].0@ != key@ {
        lemma_upsert_get(entries.drop_first(), key, value);
        assert(upsert(entries, key, value).drop_first() =~= upsert(
            entries.drop_first(),
            key,
            value,
        ));
    }
}

/// A store under one key leaves every other key's entry alone.
pub proof fn lemma_upsert_other<V>(
    entries: Seq<(String, V)>,
    key: String,
    value: V,
    other: Seq<char>,
)
    requires
        other != key@,
    ensures
        assoc(upsert(entries, key, value), other) == assoc(entries, other),
        has_key(upsert(entries, key, value), other) == has_key(entries, other),
    decreases entries.len(),
{
    let stored = upsert(entries, key, value);
    if entries.len() == 0 {
        assert(!has_key(entries, other));
        assert(forall|i: int| 0 <= i < stored.len() ==> (#[trigger] stored[i]).0@ != other);
        crate::labels::lemma_assoc_none(stored, other);
    } else if entries[0].0@ == key@ {
        assert(stored.drop_first() =~= entries.drop_first());
        assert(has_key(entries, other) == has_key(entries.drop_first(), other)) by {
            if has_key(entries, other) {
                let i = choose|i: int|
                    0 <= i < entries.len() && (#[trigger] entries[i]).0@ == other;
                assert(entries.drop_first()[i - 1].0@ == other);
            }
            if has_key(entries.drop_first(), other) {
                let i = choose|i: int|
                    0 <= i < entries.drop_first().len() && (#[trigger] entries.drop_first()[i]).0@
                        == other;
                assert(entries[i + 1].0@ == other);
            }
        }
        assert(has_key(stored, other) == has_key(stored.drop_first(), other)) by {
            if has_key(stored, other) {
                let i = choose|i: int| 0 <= i < stored.len() && (#[trigger] stored[i]).0@ == other;
                assert(stored.drop_first()[i - 1].0@ == other);
            }
            if has_key(stored.drop_first(), other) {
                let i = choose|i: int|
                    0 <= i < stored.drop_first().len() && (#[trigger] stored.drop_first()[i]).0@
                        == other;
                assert(stored[i + 1].0@ == other);
            }
        }
    } else {
        lemma_upsert_other(entries.drop_first(), key, value, other);
        assert(stored.drop_first() =~= upsert(entries.drop_first(), key, value));
        assert(has_key(entries, other) == (entries[0].0@ == other || has_key(
            entries.drop_first(),
            other,
        ))) by {
            if has_key(entries, other) && entries[0].0@ != other {
                let i = choose|i: int|
                    0 <= i < entries.len() && (#[trigger] entries[i]).0@ == other;
                assert(entries.drop_first()[i - 1].0@ == other);
            }
            if has_key(entries.drop_first(), other) {
                let i = choose|i: int|
                    0 <= i < entries.drop_first().len() && (#[trigger] entries.drop_first()[i]).0@
                        == other;
                assert(entries[i + 1].0@ == other);
            }
        }
        assert(has_key(stored, other) == (stored[0].0@ == other || has_key(
            stored.drop_first(),
            other,
        ))) by {
            if has_key(stored, other) && stored[0].0@ != other {
                let i = choose|i: int| 0 <= i < stored.len() && (#[trigger] stored[i]).0@ == other;
                assert(stored.drop_first()[i - 1].0@ == other);
            }
            if has_key(stored.drop_first(), other) {
                let i = choose|i: int|
                    0 <= i < stored.drop_first().len() && (#[trigger] stored.drop_first()[i]).0@
                        == other;
                assert(stored[i + 1].0@ == other);
            }
        }
    }
}

/// A key one of whose events has come due does not survive a sweep.
pub proof fn lemma_surviving_expired(
    entries: Seq<(String, Vec<VersionInfo>)>,
    events: Seq<(u64, String)>,
    now: u64,
    k: Seq<char>,
)
    requires
        expired_key(events, now, k),
    ensures
        !has_key(surviving_entries(entries, events, now), k),
        assoc(surviving_entries(entries, events, now), k) is None,
    decreases entries.len(),
{
    let survivors = surviving_entries(entries, events, now);
    if entries.len() == 0 {
    } else {
        lemma_surviving_expired(entries.drop_first(), events, now, k);
        if !expired_key(events, now, entries[0].0@) {
            assert(survivors.drop_first() =~= surviving_entries(entries.drop_first(), events, now));
            if has_key(survivors, k) {
                let i = choose|i: int|
                    0 <= i < survivors.len() && (#[trigger] survivors[i]).0@ == k;
                assert(i != 0);
                assert(survivors.drop_first()[i - 1].0@ == k);
            }
        }
    }
    assert(forall|i: int| 0 <= i < survivors.len() ==> (#[trigger] survivors[i]).0@ != k);
    crate::labels::lemma_assoc_none(survivors, k);
}

/// Inserting with a positive time-to-live makes the key immediately
/// readable with the stored batch; once the clock stands at or past the
/// scheduled instant, a sweep deletes the key.
pub proof fn lemma_ttl_round_trip(
    entries: Seq<(String, Vec<VersionInfo>)>,
    events: Seq<(u64, String)>,
    key: String,
    releases: Vec<VersionInfo>,
    ttl: u64,
    now: u64,
    later: u64,
)
    requires
        ttl > 0,
        later >= expiry_instant(now, ttl),
    ensures
        assoc(upsert(entries, key, releases), key@) == Some(releases),
        !has_key(
            surviving_entries(
                upsert(entries, key, releases),
                events.push((expiry_instant(now, ttl), key)),
                later,
            ),
            key@,
        ),
        assoc(
            surviving_entries(
                upsert(entries, key, releases),
                events.push((expiry_instant(now, ttl), key)),
                later,
            ),
            key@,
        ) is None,
{
    lemma_upsert_get(entries, key, releases);
    let scheduled = events.push((expiry_instant(now, ttl), key));
    assert(scheduled[events.len() as int].0 <= later && scheduled[events.len() as int].1@ == key@);
    lemma_surviving_expired(upsert(entries, key, releases), scheduled, later, key@);
}

/// An insert under one key never perturbs any other key's liveness: the
/// other key's entry is untouched, and no sweep will treat it differently
/// for the new event.
pub proof fn lemma_insert_isolated(
    entries: Seq<(String, Vec<VersionInfo>)>,
    events: Seq<(u64, String)>,
    key: String,
    releases: Vec<VersionInfo>,
    instant: u64,
    now: u64,
    other: Seq<char>,
)
    requires
        other != key@,
    ensures
        assoc(upsert(entries, key, releases), other) == assoc(entries, other),
        has_key(upsert(entries, key, releases), other) == has_key(entries, other),
        expired_key(events.push((instant, key)), now, other) == expired_key(events, now, other),
{
    lemma_upsert_other(entries, key, releases, other);
    let scheduled = events.push((instant, key));
    if expired_key(events, now, other) {
        let i = choose|i: int|
            0 <= i < events.len() && (#[trigger] events[i]).0 <= now && events[i].1@ == other;
        assert(scheduled[i].0 <= now && scheduled[i].1@ == other);
    }
    if expired_key(scheduled, now, other) {
        let i = choose|i: int|
            0 <= i < scheduled.len() && (#[trigger] scheduled[i]).0 <= now && scheduled[i].1@
                == other;
        assert(i < events.len());
        assert(events[i].0 <= now && events[i].1@ == other);
    }
}

/// Whether some name in `names` reads `k`.
pub open spec fn has_name(names: Seq<String>, k: Seq<char>) -> bool {
    exists|i: int| 0 <= i < names.len() && (#[trigger] names[i])@ == k
}

/// Whether `key` is listed in `names`.
fn name_listed(names: &Vec<String>, key: &str) -> (r: bool)
    ensures
        r == has_name(names@, key@),
{
    let n = names.len();
    let mut i: usize = 0;
    while i < n
        invariant
            n == names@.len(),
            i <= n,
            forall|j: int| 0 <= j < i ==> (#[trigger] names@[j])@ != key@,
        decreases n - i,
    {
        if str_eq(names[i].as_str(), key) {
            assert(has_name(names@, key@));
            return true;
        }
        i += 1;
    }
    false
}

/// In-memory TTL store of version-record batches, keyed by feed name.
pub struct ReleaseCache<C: Clock> {
    cache: Vec<(String, Vec<VersionInfo>)>,
    expiry: Vec<(u64, String)>,
    clock: C,
}

impl<C: Clock> ReleaseCache<C> {
    /// The stored entries, in insertion order.
    pub closed spec fn entries(&self) -> Seq<(String, Vec<VersionInfo>)> {
        self.cache@
    }

    /// The scheduled expiry events. Several events may name one key.
    pub closed spec fn events(&self) -> Seq<(u64, String)> {
        self.expiry@
    }

    /// At most one live entry per key.
    pub open spec fn wf(&self) -> bool {
        distinct_keys(self.entries())
    }

    /// An empty cache driven by `clock`.
    pub fn new(clock: C) -> (r: Self)
        ensures
            r.wf(),
            r.entries() == Seq::<(String, Vec<VersionInfo>)>::empty(),
            r.events() == Seq::<(u64, String)>::empty(),
    {
        let r = ReleaseCache { cache: Vec::new(), expiry: Vec::new(), clock };
        proof {
            assert(r.entries() =~= Seq::<(String, Vec<VersionInfo>)>::empty());
            assert(r.events() =~= Seq::<(u64, String)>::empty());
        }
        r
    }

    /// Whether `key` currently has an entry; the current map state only, no
    /// sweep is run.
    pub fn contains_key(&self, key: &str) -> (r: bool)
        ensures
            r == has_key(self.entries(), key@),
    {
        match find_key(&self.cache, key) {
            Some(i) => {
                proof {
                    assert(self.cache@[i as int].0@ == key@);
                }
                true
            },
            None => false,
        }
    }

    /// Stores `releases` under `key`, replacing any existing entry, and
    /// schedules an expiry event `ttl` past `now`.
    pub fn insert_at(&mut self, key: String, releases: Vec<VersionInfo>, ttl: u64, now: u64)
        requires
            old(self).wf(),
        ensures
            final(self).wf(),
            final(self).entries() == upsert(old(self).entries(), key, releases),
            final(self).events() == old(self).events().push((expiry_instant(now, ttl), key)),
    {
        let ghost before = self.cache@;
        let instant: u64 = if ttl > u64::MAX - now {
            u64::MAX
        } else {
            now + ttl
        };
        match find_key(&self.cache, key.as_str()) {
            Some(i) => {
                proof {
                    lemma_upsert_at(before, key, releases, i as int);
                }
                self.cache.remove(i);
                self.cache.insert(i, (key.clone(), releases));
                proof {
                    assert(self.cache@ =~= before.update(i as int, (key, releases)));
                    assert(forall|p: int, q: int|
                        0 <= p < q < self.cache@.len() ==> (#[trigger] self.cache@[p]).0@ != (
                        #[trigger] self.cache@[q]).0@) by {
                        assert(forall|p: int|
                            0 <= p < self.cache@.len() && p != i ==> (#[trigger] self.cache@[p]).0@
                                == before[p].0@);
                    }
                }
            },
            None => {
                proof {
                    lemma_upsert_missing(before, key, releases);
                }
                self.cache.push((key.clone(), releases));
            },
        }
        self.expiry.push((instant, key));
    }

    /// Stores `releases` under `key` with time-to-live `cache_duration`,
    /// read against the cache's own clock.
    pub fn insert(&mut self, key: String, releases: Vec<VersionInfo>, cache_duration: u64)
        requires
            old(self).wf(),
        ensures
            final(self).wf(),
            final(self).entries() == upsert(old(self).entries(), key, releases),
            exists|t: u64| final(self).events() == old(self).events().push((t, key)),
    {
        let now = self.clock.now();
        self.insert_at(key, releases, cache_duration, now);
    }

    /// Sweeps against the instant `now`: every key with an expiry event at or
    /// before `now` is deleted, and those events are dropped.
    pub fn expire_at(&mut self, now: u64)
        requires
            old(self).wf(),
        ensures
            final(self).wf(),
            final(self).entries() == surviving_entries(
                old(self).entries(),
                old(self).events(),
                now,
            ),
            final(self).events() == live_events(old(self).events(), now),
    {
        let ghost oldev = self.expiry@;
        let ghost oldent = self.cache@;

        // Split the events into those still pending and the names now due.
        let mut kept: Vec<(u64, String)> = Vec::new();
        let mut dropped: Vec<String> = Vec::new();
        let n = self.expiry.len();
        let mut i: usize = 0;
        proof {
            assert(oldev.skip(0) =~= oldev);
            assert(kept@ + live_events(oldev, now) =~= live_events(oldev, now));
        }
        while i < n
            invariant
                n == oldev.len(),
                self.expiry@ == oldev,
                i <= n,
                live_events(oldev, now) =~= kept@ + live_events(oldev.skip(i as int), now),
                forall|j: int|
                    0 <= j < dropped@.len() ==> expired_key(oldev, now, (#[trigger] dropped@[j])@),
                forall|j: int|
                    0 <= j < i && (#[trigger] oldev[j]).0 <= now ==> has_name(
                        dropped@,
                        oldev[j].1@,
                    ),
            decreases n - i,
        {
            proof {
                assert(oldev.skip(i as int)[0] == oldev[i as int]);
                assert(oldev.skip(i as int).drop_first() =~= oldev.skip(i + 1));
            }
            let ghost kept_before = kept@;
            let ghost dropped_before = dropped@;
            let t = self.expiry[i].0;
            if t <= now {
                dropped.push(self.expiry[i].1.clone());
                proof {
                    assert(forall|j: int|
                        0 <= j < i && (#[trigger] oldev[j]).0 <= now ==> has_name(
                            dropped@,
                            oldev[j].1@,
                        )) by {
                        assert(forall|j: int|
                            0 <= j < dropped_before.len() ==> dropped@[j] == dropped_before[j]);
                    }
                    assert(dropped@[dropped@.len() - 1]@ == oldev[i as int].1@);
                    assert(has_name(dropped@, oldev[i as int].1@));
                }
            } else {
                kept.push((t, self.expiry[i].1.clone()));
                proof {
                    assert(kept@ =~= kept_before.push(oldev[i as int]));
                    assert(kept@ + live_events(oldev.skip(i + 1), now) =~= kept_before + (seq![
                        oldev[i as int],
                    ] + live_events(oldev.skip(i + 1), now)));
                }
            }
            i += 1;
        }
        proof {
            assert(oldev.skip(n as int) =~= Seq::<(u64, String)>::empty());
            assert(live_events(oldev, now) =~= kept@);
        }
        self.expiry = kept;

        // Rebuild the map without the names now due.
        let mut tmp: Vec<(String, Vec<VersionInfo>)> = Vec::new();
        core::mem::swap(&mut self.cache, &mut tmp);
        let m = tmp.len();
        let mut j: usize = 0;
        proof {
            assert(oldent.skip(0) =~= oldent);
            assert(self.cache@ + surviving_entries(oldent, oldev, now) =~= surviving_entries(
                oldent,
                oldev,
                now,
            ));
        }
        while j < m
            invariant
                m == oldent.len(),
                j <= m,
                tmp@ =~= oldent.skip(j as int),
                self.expiry@ == live_events(oldev, now),
                surviving_entries(oldent, oldev, now) =~= self.cache@ + surviving_entries(
                    oldent.skip(j as int),
                    oldev,
                    now,
                ),
                forall|p: int|
                    0 <= p < dropped@.len() ==> expired_key(oldev, now, (#[trigger] dropped@[p])@),
                forall|p: int|
                    0 <= p < oldev.len() && (#[trigger] oldev[p]).0 <= now ==> has_name(
                        dropped@,
                        oldev[p].1@,
                    ),
                distinct_keys(oldent),
                forall|p: int, q: int|
                    0 <= p < self.cache@.len() && j <= q < m ==> (#[trigger] self.cache@[p]).0@
                        != (#[trigger] oldent[q]).0@,
                distinct_keys(self.cache@),
            decreases m - j,
        {
            proof {
                assert(oldent.skip(j as int)[0] == oldent[j as int]);
                assert(oldent.skip(j as int).drop_first() =~= oldent.skip(j + 1));
            }
            let ghost cache_before = self.cache@;
            let e = tmp.remove(0);
            let listed = name_listed(&dropped, e.0.as_str());
            proof {
                if listed {
                    let p = choose|p: int|
                        0 <= p < dropped@.len() && (#[trigger] dropped@[p])@ == e.0@;
                    assert(expired_key(oldev, now, e.0@));
                } else {
                    if expired_key(oldev, now, e.0@) {
                        let p = choose|p: int|
                            0 <= p < oldev.len() && (#[trigger] oldev[p]).0 <= now && oldev[p].1@
                                == e.0@;
                        assert(has_name(dropped@, oldev[p].1@));
                    }
                }
            }
            if !listed {
                self.cache.push(e);
                proof {
                    assert(self.cache@ + surviving_entries(oldent.skip(j + 1), oldev, now)
                        =~= cache_before + (seq![oldent[j as int]] + surviving_entries(
                        oldent.skip(j + 1),
                        oldev,
                        now,
                    )));
                }
            }
            j += 1;
        }
        proof {
            assert(oldent.skip(m as int) =~= Seq::<(String, Vec<VersionInfo>)>::empty());
            assert(self.cache@ =~= surviving_entries(oldent, oldev, now));
        }
    }

    /// Sweeps against a single reading of the cache's own clock.
    pub fn expire(&mut self)
        requires
            old(self).wf(),
        ensures
            final(self).wf(),
            exists|t: u64|
                final(self).entries() == surviving_entries(
                    old(self).entries(),
                    old(self).events(),
                    t,
                ) && final(self).events() == live_events(old(self).events(), t),
    {
        let now = self.clock.now();
        self.expire_at(now);
    }

    /// The entry under `key`, if any; the current map state only, no sweep is
    /// run.
    pub fn get(&self, key: &str) -> (r: Option<&Vec<VersionInfo>>)
        ensures
            match r {
                Some(v) => assoc(self.entries(), key@) == Some(*v),
                None => assoc(self.entries(), key@) is None && !has_key(self.entries(), key@),
            },
    {
        match find_key(&self.cache, key) {
            Some(i) => Some(&self.cache[i].1),
            None => None,
        }
    }
}

} // verus!
