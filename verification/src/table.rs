//! A table of entries with distinct keys, kept in the order in which they
//! were inserted.

use vstd::prelude::*;
use crate::keyed::{
    distinct_keys, find, first_index, has_key, lemma_distinct_remove, lemma_first_index,
    lemma_has_key_remove, lookup, Keyed,
};

verus! {

/// Entries found by key. No two entries share a key, and the entries keep
/// the order of their insertion.
#[derive(Debug, PartialEq, Eq)]
pub struct Table<V: Keyed> {
    entries: Vec<V>,
}

impl<V: Keyed> Table<V> {
    /// The entries, oldest first.
    pub closed spec fn view(&self) -> Seq<V> {
        self.entries@
    }

    /// The invariant of the table: its keys are distinct.
    pub open spec fn wf(&self) -> bool {
        distinct_keys(self@)
    }

    /// Whether an entry has the key `key`.
    pub open spec fn contains_key_spec(&self, key: Seq<char>) -> bool {
        has_key(self@, key)
    }

    /// The entry with the key `key`, if there is one.
    pub open spec fn get_spec(&self, key: Seq<char>) -> Option<V> {
        lookup(self@, key)
    }

    /// The empty table.
    pub fn new() -> (table: Self)
        ensures
            table@ == Seq::<V>::empty(),
            table.wf(),
    {
        Table { entries: Vec::new() }
    }

    pub fn len(&self) -> (n: usize)
        ensures
            n == self@.len(),
    {
        self.entries.len()
    }

    pub fn is_empty(&self) -> (empty: bool)
        ensures
            empty == (self@.len() == 0),
    {
        self.entries.len() == 0
    }

    pub fn contains_key(&self, key: &str) -> (present: bool)
        ensures
            present == self.contains_key_spec(key@),
    {
        find(self.entries.as_slice(), key).is_some()
    }

    pub fn get(&self, key: &str) -> (entry: Option<&V>)
        ensures
            self.get_spec(key@) == match entry {
                Some(v) => Some(*v),
                None => None,
            },
            entry is Some <==> self.contains_key_spec(key@),
    {
        match find(self.entries.as_slice(), key) {
            Some(i) => Some(&self.entries[i]),
            None => None,
        }
    }

    /// The entries, oldest first.
    pub fn values(&self) -> (entries: &Vec<V>)
        ensures
            entries@ == self@,
    {
        &self.entries
    }

    /// Adds an entry under a key that the table does not hold yet.
    pub fn insert(&mut self, value: V)
        requires
            old(self).wf(),
            !old(self).contains_key_spec(value.key_spec()),
        ensures
            final(self).wf(),
            final(self)@ == old(self)@.push(value),
    {
        self.entries.push(value);
    }

    /// Takes out the entry with the key `key`, if there is one. The other
    /// entries keep their order.
    pub fn remove(&mut self, key: &str) -> (taken: Option<V>)
        requires
            old(self).wf(),
        ensures
            final(self).wf(),
            taken == old(self).get_spec(key@),
            match taken {
                Some(v) => final(self)@ == old(self)@.remove(first_index(old(self)@, key@))
                    && 0 <= first_index(old(self)@, key@) < old(self)@.len() && v.key_spec() == key@,
                None => final(self)@ == old(self)@,
            },
            forall|other: Seq<char>|
                #![trigger has_key(final(self)@, other)]
                #![trigger has_key(old(self)@, other)]
                has_key(final(self)@, other) <==> has_key(old(self)@, other) && other != key@,
    {
        proof {
            lemma_first_index(self@, key@);
        }
        match find(self.entries.as_slice(), key) {
            Some(i) => {
                let taken = self.entries.remove(i);
                proof {
                    lemma_distinct_remove(old(self)@, i as int);
                    assert forall|other: Seq<char>|
                        #![trigger has_key(self@, other)]
                        #![trigger has_key(old(self)@, other)]
                        has_key(self@, other) <==> has_key(old(self)@, other) && other != key@ by {
                        lemma_has_key_remove(old(self)@, i as int, other);
                    }
                }
                Some(taken)
            },
            None => {
                None
            },
        }
    }

    /// Takes out the oldest entry, if the table is not empty.
    pub fn pop(&mut self) -> (taken: Option<V>)
        requires
            old(self).wf(),
        ensures
            final(self).wf(),
            match taken {
                Some(v) => old(self)@.len() > 0 && v == old(self)@[0] && final(self)@ == old(
                    self,
                )@.remove(0),
                None => old(self)@.len() == 0 && final(self)@ == old(self)@,
            },
            forall|other: Seq<char>|
                #![trigger has_key(final(self)@, other)]
                #![trigger has_key(old(self)@, other)]
                has_key(final(self)@, other) <==> has_key(old(self)@, other) && Some(other) != (
                match taken {
                    Some(v) => Some(v.key_spec()),
                    None => None,
                }),
    {
        if self.entries.len() == 0 {
            None
        } else {
            let taken = self.entries.remove(0);
            proof {
                lemma_distinct_remove(old(self)@, 0);
                assert forall|other: Seq<char>|
                    #![trigger has_key(self@, other)]
                    #![trigger has_key(old(self)@, other)]
                    has_key(self@, other) <==> has_key(old(self)@, other) && other
                        != taken.key_spec() by {
                    lemma_has_key_remove(old(self)@, 0, other);
                }
            }
            Some(taken)
        }
    }
}

} // verus!
