//! Association lists keyed by strings.
//!
//! Feeds, label sets and cache entries are all keyed by strings. This module
//! gives the spec-level lookup over a sequence of pairs (first match wins) and
//! the verified executable lookups that the rest of the library builds on.

use vstd::prelude::*;

verus! {

/// First value paired with key `k`, where keys are `String`s compared by view.
pub open spec fn assoc<V>(entries: Seq<(String, V)>, k: Seq<char>) -> Option<V>
    decreases entries.len(),
{
    if entries.len() == 0 {
        None
    } else if entries[0].0@ == k {
        Some(entries[0].1)
    } else {
        assoc(entries.drop_first(), k)
    }
}

/// Whether some entry carries key `k`.
pub open spec fn has_key<V>(entries: Seq<(String, V)>, k: Seq<char>) -> bool {
    exists|i: int| 0 <= i < entries.len() && (#[trigger] entries[i]).0@ == k
}

/// Keys are pairwise distinct (by view).
pub open spec fn distinct_keys<V>(entries: Seq<(String, V)>) -> bool {
    forall|i: int, j: int|
        0 <= i < j < entries.len() ==> (#[trigger] entries[i]).0@ != (#[trigger] entries[j]).0@
}

/// If the first `i` entries miss `k` and entry `i` carries it, the lookup
/// returns entry `i`'s value.
pub proof fn lemma_assoc_found<V>(entries: Seq<(String, V)>, k: Seq<char>, i: int)
    requires
        0 <= i < entries.len(),
        entries[i].0@ == k,
        forall|j: int| 0 <= j < i ==> (#[trigger] entries[j]).0@ != k,
    ensures
        assoc(entries, k) == Some(entries[i].1),
    decreases i,
{
    if i > 0 {
        lemma_assoc_found(entries.drop_first(), k, i - 1);
    }
}

/// If no entry carries `k`, the lookup misses.
pub proof fn lemma_assoc_none<V>(entries: Seq<(String, V)>, k: Seq<char>)
    requires
        forall|j: int| 0 <= j < entries.len() ==> (#[trigger] entries[j]).0@ != k,
    ensures
        assoc(entries, k) is None,
    decreases entries.len(),
{
    if entries.len() > 0 {
        lemma_assoc_none(entries.drop_first(), k);
    }
}

/// The lookup hits exactly when some entry carries the key.
pub proof fn lemma_assoc_has_key<V>(entries: Seq<(String, V)>, k: Seq<char>)
    ensures
        assoc(entries, k) is Some <==> has_key(entries, k),
    decreases entries.len(),
{
    if entries.len() > 0 {
        lemma_assoc_has_key(entries.drop_first(), k);
        if entries[0].0@ != k && has_key(entries, k) {
            let i = choose|i: int| 0 <= i < entries.len() && (#[trigger] entries[i]).0@ == k;
            assert(entries.drop_first()[i - 1].0@ == k);
        }
        if has_key(entries.drop_first(), k) {
            let i = choose|i: int|
                0 <= i < entries.drop_first().len() && (#[trigger] entries.drop_first()[i]).0@
                    == k;
            assert(entries[i + 1].0@ == k);
        }
    }
}

/// A key is in `seq![x] + rest` exactly when `x` carries it or `rest` does.
pub proof fn lemma_has_key_cons<V>(x: (String, V), rest: Seq<(String, V)>, k: Seq<char>)
    ensures
        has_key(seq![x] + rest, k) == (x.0@ == k || has_key(rest, k)),
{
    let all = seq![x] + rest;
    if has_key(all, k) {
        let i = choose|i: int| 0 <= i < all.len() && (#[trigger] all[i]).0@ == k;
        if i > 0 {
            assert(rest[i - 1].0@ == k);
        }
    }
    if has_key(rest, k) {
        let i = choose|i: int| 0 <= i < rest.len() && (#[trigger] rest[i]).0@ == k;
        assert(all[i + 1].0@ == k);
    }
    if x.0@ == k {
        assert(all[0].0@ == k);
    }
}

/// A label set as it appears in specifications: key/value pairs of character
/// sequences.
pub open spec fn label_pairs_view(pairs: Seq<(String, String)>) -> Seq<(Seq<char>, Seq<char>)> {
    pairs.map_values(|p: (String, String)| (p.0@, p.1@))
}

/// First value paired with key `k` in a view-level label set.
pub open spec fn label_value(labels: Seq<(Seq<char>, Seq<char>)>, k: Seq<char>) -> Option<
    Seq<char>,
>
    decreases labels.len(),
{
    if labels.len() == 0 {
        None
    } else if labels[0].0 == k {
        Some(labels[0].1)
    } else {
        label_value(labels.drop_first(), k)
    }
}

/// A view-level label set without the first pair keyed by `k`; unchanged when
/// no pair carries `k`.
pub open spec fn remove_label(labels: Seq<(Seq<char>, Seq<char>)>, k: Seq<char>) -> Seq<
    (Seq<char>, Seq<char>),
>
    decreases labels.len(),
{
    if labels.len() == 0 {
        labels
    } else if labels[0].0 == k {
        labels.drop_first()
    } else {
        seq![labels[0]] + remove_label(labels.drop_first(), k)
    }
}

/// If the first `i` pairs miss `k` and pair `i` carries it, the lookup returns
/// pair `i`'s value, and removal takes pair `i` out.
pub proof fn lemma_label_found(labels: Seq<(Seq<char>, Seq<char>)>, k: Seq<char>, i: int)
    requires
        0 <= i < labels.len(),
        labels[i].0 == k,
        forall|j: int| 0 <= j < i ==> (#[trigger] labels[j]).0 != k,
    ensures
        label_value(labels, k) == Some(labels[i].1),
        remove_label(labels, k) =~= labels.subrange(0, i) + labels.subrange(i + 1, labels.len() as int),
    decreases i,
{
    if i > 0 {
        lemma_label_found(labels.drop_first(), k, i - 1);
        assert(labels.drop_first().subrange(0, i - 1) =~= labels.subrange(1, i));
        assert(labels.drop_first().subrange(i, labels.drop_first().len() as int) =~= labels
            .subrange(i + 1, labels.len() as int));
    }
}

/// If no pair carries `k`, the lookup misses and removal changes nothing.
pub proof fn lemma_label_none(labels: Seq<(Seq<char>, Seq<char>)>, k: Seq<char>)
    requires
        forall|j: int| 0 <= j < labels.len() ==> (#[trigger] labels[j]).0 != k,
    ensures
        label_value(labels, k) is None,
        remove_label(labels, k) =~= labels,
    decreases labels.len(),
{
    if labels.len() > 0 {
        lemma_label_none(labels.drop_first(), k);
    }
}

/// First value paired with `key` in a label set, if any.
pub fn get_label<'a>(labels: &'a Vec<(String, String)>, key: &str) -> (r: Option<&'a String>)
    ensures
        match r {
            Some(v) => label_value(label_pairs_view(labels@), key@) == Some(v@),
            None => label_value(label_pairs_view(labels@), key@) is None,
        },
{
    let n = labels.len();
    let mut i: usize = 0;
    while i < n
        invariant
            n == labels@.len(),
            i <= n,
            forall|j: int| 0 <= j < i ==> (#[trigger] labels@[j]).0@ != key@,
        decreases n - i,
    {
        if str_eq(labels[i].0.as_str(), key) {
            proof {
                lemma_label_found(label_pairs_view(labels@), key@, i as int);
            }
            return Some(&labels[i].1);
        }
        i += 1;
    }
    proof {
        lemma_label_none(label_pairs_view(labels@), key@);
    }
    None
}

/// Relies on `<str as PartialEq>::eq`: two string slices are equal exactly
/// when they hold the same characters.
#[verifier::external_body]
pub fn str_eq(a: &str, b: &str) -> (r: bool)
    ensures
        r == (a@ == b@),
{
    a == b
}

/// Index of the first entry carrying `key`, if any.
pub fn find_key<V>(entries: &Vec<(String, V)>, key: &str) -> (r: Option<usize>)
    ensures
        match r {
            Some(i) => {
                &&& i < entries@.len()
                &&& entries@[i as int].0@ == key@
                &&& forall|j: int| 0 <= j < i ==> (#[trigger] entries@[j]).0@ != key@
                &&& assoc(entries@, key@) == Some(entries@[i as int].1)
            },
            None => !has_key(entries@, key@) && assoc(entries@, key@) is None,
        },
{
    let n = entries.len();
    let mut i: usize = 0;
    while i < n
        invariant
            n == entries@.len(),
            i <= n,
            forall|j: int| 0 <= j < i ==> (#[trigger] entries@[j]).0@ != key@,
        decreases n - i,
    {
        if str_eq(entries[i].0.as_str(), key) {
            proof {
                lemma_assoc_found(entries@, key@, i as int);
            }
            return Some(i);
        }
        i += 1;
    }
    proof {
        lemma_assoc_none(entries@, key@);
    }
    None
}

} // verus!
