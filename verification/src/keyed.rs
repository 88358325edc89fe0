//! Entries that are found by name, and the search that every table of the
//! crate shares.

use vstd::prelude::*;

verus! {

/// An entry that is addressed by a textual key.
pub trait Keyed {
    /// The key of the entry, as a sequence of characters.
    spec fn key_spec(&self) -> Seq<char>;

    /// The key of the entry.
    fn key(&self) -> (k: &str)
        ensures
            k@ == self.key_spec(),
    ;
}

/// Whether two string slices hold the same text.
///
/// Trusted: calls `str::eq` of the standard library, which tells whether
/// the two slices hold the same bytes, and so the same characters; the
/// contract says that the answer is `true` exactly when both views are the
/// same sequence.
#[verifier::external_body]
pub(crate) fn same_text(a: &str, b: &str) -> (same: bool)
    ensures
        same == (a@ == b@),
{
    a == b
}

/// Some entry of `entries` has the key `key`.
pub open spec fn has_key<V: Keyed>(entries: Seq<V>, key: Seq<char>) -> bool {
    exists|i: int| 0 <= i < entries.len() && #[trigger] entries[i].key_spec() == key
}

/// No two entries of `entries` share a key.
pub open spec fn distinct_keys<V: Keyed>(entries: Seq<V>) -> bool {
    forall|i: int, j: int|
        0 <= i < j < entries.len() ==> #[trigger] entries[i].key_spec() != #[trigger] entries[j].key_spec()
}

/// The index of the first entry with the key `key`, or the length of
/// `entries` when there is none.
pub open spec fn first_index<V: Keyed>(entries: Seq<V>, key: Seq<char>) -> int
    decreases entries.len(),
{
    if entries.len() == 0 {
        0
    } else if entries[0].key_spec() == key {
        0
    } else {
        1 + first_index(entries.drop_first(), key)
    }
}

/// The first entry with the key `key`, if there is one.
pub open spec fn lookup<V: Keyed>(entries: Seq<V>, key: Seq<char>) -> Option<V> {
    if first_index(entries, key) < entries.len() {
        Some(entries[first_index(entries, key)])
    } else {
        None
    }
}

/// `first_index` points at the first match and stops at the length when
/// nothing matches.
pub proof fn lemma_first_index<V: Keyed>(entries: Seq<V>, key: Seq<char>)
    ensures
        0 <= first_index(entries, key) <= entries.len(),
        first_index(entries, key) < entries.len() ==> entries[first_index(entries, key)].key_spec()
            == key,
        forall|j: int|
            0 <= j < first_index(entries, key) ==> #[trigger] entries[j].key_spec() != key,
        first_index(entries, key) < entries.len() <==> has_key(entries, key),
    decreases entries.len(),
{
    if entries.len() == 0 {
    } else if entries[0].key_spec() == key {
    } else {
        let rest = entries.drop_first();
        lemma_first_index(rest, key);
        let f = first_index(rest, key);
        assert forall|j: int| 0 <= j < 1 + f implies #[trigger] entries[j].key_spec() != key by {
            if j > 0 {
                assert(entries[j] == rest[j - 1]);
            }
        }
        if f < rest.len() {
            assert(entries[1 + f] == rest[f]);
        }
        if has_key(entries, key) {
            let i = choose|i: int| 0 <= i < entries.len() && #[trigger] entries[i].key_spec() == key;
            assert(rest[i - 1] == entries[i]);
            assert(has_key(rest, key));
        }
    }
}

/// An index whose entry has the key, with no match before it, is the first
/// index.
pub proof fn lemma_first_match<V: Keyed>(entries: Seq<V>, key: Seq<char>, i: int)
    requires
        0 <= i < entries.len(),
        entries[i].key_spec() == key,
        forall|j: int| 0 <= j < i ==> #[trigger] entries[j].key_spec() != key,
    ensures
        first_index(entries, key) == i,
        lookup(entries, key) == Some(entries[i]),
{
    lemma_first_index(entries, key);
}

/// Among distinct keys every match is the first one.
pub proof fn lemma_distinct_match<V: Keyed>(entries: Seq<V>, i: int)
    requires
        distinct_keys(entries),
        0 <= i < entries.len(),
    ensures
        first_index(entries, entries[i].key_spec()) == i,
        lookup(entries, entries[i].key_spec()) == Some(entries[i]),
{
    lemma_first_index(entries, entries[i].key_spec());
}

/// The keys of the entries, in order.
pub open spec fn keys<V: Keyed>(entries: Seq<V>) -> Seq<Seq<char>> {
    Seq::new(entries.len(), |i: int| entries[i].key_spec())
}

/// A key is among the keys exactly when an entry has it.
pub proof fn lemma_keys_contains<V: Keyed>(entries: Seq<V>, key: Seq<char>)
    ensures
        keys(entries).contains(key) <==> has_key(entries, key),
{
    if keys(entries).contains(key) {
        let i = choose|i: int| 0 <= i < keys(entries).len() && keys(entries)[i] == key;
        assert(entries[i].key_spec() == key);
    }
    if has_key(entries, key) {
        let i = choose|i: int| 0 <= i < entries.len() && #[trigger] entries[i].key_spec() == key;
        assert(keys(entries)[i] == key);
    }
}

/// The keys of a sequence with one more entry at its end.
pub proof fn lemma_keys_push<V: Keyed>(entries: Seq<V>, entry: V)
    ensures
        keys(entries.push(entry)) == keys(entries).push(entry.key_spec()),
{
    assert(keys(entries.push(entry)) =~= keys(entries).push(entry.key_spec()));
}

/// `longer` begins with the entries of `shorter`.
pub open spec fn extends<V>(shorter: Seq<V>, longer: Seq<V>) -> bool {
    &&& shorter.len() <= longer.len()
    &&& forall|i: int| 0 <= i < shorter.len() ==> #[trigger] longer[i] == shorter[i]
}

/// What is found in a sequence is found, and is the same, in every
/// sequence that begins with it.
pub proof fn lemma_lookup_extends<V: Keyed>(shorter: Seq<V>, longer: Seq<V>, key: Seq<char>)
    requires
        extends(shorter, longer),
    ensures
        has_key(shorter, key) ==> has_key(longer, key),
        lookup(shorter, key) is Some ==> lookup(longer, key) == lookup(shorter, key),
{
    lemma_first_index(shorter, key);
    lemma_first_index(longer, key);
    let i = first_index(shorter, key);
    if i < shorter.len() {
        assert(longer[i] == shorter[i]);
        assert forall|j: int| 0 <= j < i implies #[trigger] longer[j].key_spec() != key by {
            assert(longer[j] == shorter[j]);
        }
        lemma_first_match(longer, key, i);
    }
}

/// The keys of a sequence with one more entry at its end.
pub proof fn lemma_has_key_push<V: Keyed>(entries: Seq<V>, entry: V, key: Seq<char>)
    ensures
        has_key(entries.push(entry), key) <==> has_key(entries, key) || entry.key_spec() == key,
{
    let pushed = entries.push(entry);
    if has_key(entries, key) {
        let i = choose|i: int| 0 <= i < entries.len() && #[trigger] entries[i].key_spec() == key;
        assert(pushed[i] == entries[i]);
    }
    if entry.key_spec() == key {
        assert(pushed[entries.len() as int] == entry);
    }
    if has_key(pushed, key) {
        let i = choose|i: int| 0 <= i < pushed.len() && #[trigger] pushed[i].key_spec() == key;
        if i < entries.len() {
            assert(pushed[i] == entries[i]);
        }
    }
}

/// The keys of a sequence with one entry taken out.
pub proof fn lemma_has_key_remove<V: Keyed>(entries: Seq<V>, at: int, key: Seq<char>)
    requires
        0 <= at < entries.len(),
    ensures
        has_key(entries.remove(at), key) ==> has_key(entries, key),
        has_key(entries, key) && entries[at].key_spec() != key ==> has_key(entries.remove(at), key),
        distinct_keys(entries) ==> !has_key(entries.remove(at), entries[at].key_spec()),
{
    let removed = entries.remove(at);
    if has_key(removed, key) {
        let i = choose|i: int| 0 <= i < removed.len() && #[trigger] removed[i].key_spec() == key;
        let i0 = if i < at { i } else { i + 1 };
        assert(removed[i] == entries[i0]);
    }
    if has_key(entries, key) && entries[at].key_spec() != key {
        let i = choose|i: int| 0 <= i < entries.len() && #[trigger] entries[i].key_spec() == key;
        let i1 = if i < at { i } else { i - 1 };
        assert(removed[i1] == entries[i]);
    }
    if distinct_keys(entries) && has_key(removed, entries[at].key_spec()) {
        let i = choose|i: int|
            0 <= i < removed.len() && #[trigger] removed[i].key_spec() == entries[at].key_spec();
        let i0 = if i < at { i } else { i + 1 };
        assert(removed[i] == entries[i0]);
        assert(entries[i0].key_spec() == entries[at].key_spec());
    }
}

/// Taking an entry out leaves distinct keys distinct.
pub proof fn lemma_distinct_remove<V: Keyed>(entries: Seq<V>, at: int)
    requires
        0 <= at < entries.len(),
        distinct_keys(entries),
    ensures
        distinct_keys(entries.remove(at)),
{
    let removed = entries.remove(at);
    assert forall|a: int, b: int| 0 <= a < b < removed.len() implies #[trigger] removed[a].key_spec()
        != #[trigger] removed[b].key_spec() by {
        let a0 = if a < at { a } else { a + 1 };
        let b0 = if b < at { b } else { b + 1 };
        assert(removed[a] == entries[a0]);
        assert(removed[b] == entries[b0]);
    }
}

/// Searches `entries` from the front for the key `key`.
pub fn find<V: Keyed>(entries: &[V], key: &str) -> (found: Option<usize>)
    ensures
        found is Some <==> has_key(entries@, key@),
        found matches Some(i) ==> i == first_index(entries@, key@) && i < entries@.len()
            && entries@[i as int].key_spec() == key@,
        lookup(entries@, key@) == match found {
            Some(i) => Some(entries@[i as int]),
            None => None,
        },
{
    let mut i: usize = 0;
    while i < entries.len()
        invariant
            i <= entries@.len(),
            forall|j: int| 0 <= j < i ==> #[trigger] entries@[j].key_spec() != key@,
        decreases entries@.len() - i,
    {
        if same_text(entries[i].key(), key) {
            proof {
                lemma_first_match(entries@, key@, i as int);
                lemma_first_index(entries@, key@);
            }
            return Some(i);
        }
        i += 1;
    }
    proof {
        lemma_first_index(entries@, key@);
    }
    None
}

} // verus!
