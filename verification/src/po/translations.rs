//! The translations of an entry, by plural index.

use vstd::prelude::*;
use vstd::string::*;

use crate::po::message::{Message, MessageView};

verus! {

/// True when the keys of `entries` grow strictly.
pub open spec fn keys_increase<V>(entries: Seq<(u32, V)>) -> bool {
    forall|i: int, j: int| 0 <= i < j < entries.len() ==> entries[i].0 < entries[j].0
}

/// The number of entries at the head of `entries` whose key is below `key`.
pub open spec fn lower_bound<V>(entries: Seq<(u32, V)>, key: u32) -> int
    decreases entries.len(),
{
    if entries.len() == 0 || entries[0].0 >= key {
        0
    } else {
        1 + lower_bound(entries.drop_first(), key)
    }
}

/// The place of `key` in `entries`, if it is among the keys.
pub open spec fn position_of<V>(entries: Seq<(u32, V)>, key: u32) -> Option<int> {
    let p = lower_bound(entries, key);
    if p < entries.len() && entries[p].0 == key {
        Some(p)
    } else {
        None
    }
}

/// `entries` with `value` under `key`, in the place of the value that
/// `key` had or at the place that keeps the keys in order.
pub open spec fn inserted<V>(entries: Seq<(u32, V)>, key: u32, value: V) -> Seq<(u32, V)> {
    let p = lower_bound(entries, key);
    let after = if position_of(entries, key) is Some {
        p + 1
    } else {
        p
    };
    entries.subrange(0, p).push((key, value)) + entries.subrange(after, entries.len() as int)
}

/// The lower bound of a key lies within the entries; the keys before it are
/// below the key, and the key at it, if any, is not.
pub proof fn lemma_lower_bound<V>(entries: Seq<(u32, V)>, key: u32)
    ensures
        0 <= lower_bound(entries, key) <= entries.len(),
        forall|i: int| 0 <= i < lower_bound(entries, key) ==> (#[trigger] entries[i]).0 < key,
        lower_bound(entries, key) < entries.len() ==> entries[lower_bound(entries, key)].0 >= key,
    decreases entries.len(),
{
    if entries.len() > 0 && entries[0].0 < key {
        let rest = entries.drop_first();
        lemma_lower_bound(rest, key);
        assert forall|i: int| 0 <= i < lower_bound(entries, key) implies (#[trigger] entries[i]).0
            < key by {
            if i > 0 {
                assert(entries[i] == rest[i - 1]);
            }
        }
    }
}

/// In entries in order, a key is found exactly where it stands.
pub proof fn lemma_position_of<V>(entries: Seq<(u32, V)>, key: u32, i: int)
    requires
        keys_increase(entries),
        0 <= i < entries.len(),
        entries[i].0 == key,
    ensures
        position_of(entries, key) == Some(i),
{
    lemma_lower_bound(entries, key);
    let p = lower_bound(entries, key);
    if p < i {
        assert(entries[p].0 < entries[i].0);
    } else if p > i {
        assert(entries[i].0 < key);
    }
}

/// What a list of translations holds.
pub open spec fn translations_view(entries: Seq<(u32, Message)>) -> Seq<(u32, MessageView)> {
    Seq::new(entries.len(), |i: int| (entries[i].0, entries[i].1@))
}

/// The lower bound of a key depends on the keys alone.
pub proof fn lemma_lower_bound_view(entries: Seq<(u32, Message)>, key: u32)
    ensures
        lower_bound(translations_view(entries), key) == lower_bound(entries, key),
    decreases entries.len(),
{
    if entries.len() > 0 && entries[0].0 < key {
        lemma_lower_bound_view(entries.drop_first(), key);
        assert(translations_view(entries).drop_first() =~= translations_view(
            entries.drop_first(),
        ));
    }
}

/// What the translations hold after an insertion is what they held, with
/// what the message holds inserted.
pub proof fn lemma_inserted_view(entries: Seq<(u32, Message)>, key: u32, value: Message)
    ensures
        translations_view(inserted(entries, key, value)) == inserted(
            translations_view(entries),
            key,
            value@,
        ),
{
    lemma_lower_bound_view(entries, key);
    lemma_lower_bound(entries, key);
    assert(translations_view(inserted(entries, key, value)) =~= inserted(
        translations_view(entries),
        key,
        value@,
    ));
}

/// The translations of an entry: messages under plural indexes, kept in the
/// order of the indexes, each index once. They are held in a vector sorted
/// by index, so that a message is found by its index, changed in place at
/// its position, and read with the others in the order of the indexes.
#[derive(Debug, PartialEq, Eq)]
pub struct Translations {
    items: Vec<(u32, Message)>,
}

impl Translations {
    /// The indexes with their messages, in order.
    pub closed spec fn entries(&self) -> Seq<(u32, Message)> {
        self.items@
    }

    /// True when the indexes grow strictly, as they do in a collection
    /// that was made empty and filled with `insert`.
    pub open spec fn in_order(&self) -> bool {
        keys_increase(self.entries())
    }

    /// Creates an empty collection.
    pub fn new() -> (r: Self)
        ensures
            r.entries() == Seq::<(u32, Message)>::empty(),
            r.in_order(),
    {
        Translations { items: Vec::new() }
    }

    /// Returns the number of translations.
    pub fn len(&self) -> (r: usize)
        ensures
            r == self.entries().len(),
    {
        self.items.len()
    }

    /// Tells whether there is no translation.
    pub fn is_empty(&self) -> (r: bool)
        ensures
            r == (self.entries().len() == 0),
    {
        self.items.len() == 0
    }

    /// True when the indexes are 0, 1, 2 and so on, without a gap: what the
    /// translations of an entry with a plural form are meant to be.
    pub open spec fn contiguous(&self) -> bool {
        forall|i: int| 0 <= i < self.entries().len() ==> (#[trigger] self.entries()[i]).0 == i
    }

    /// Tells whether the indexes are 0, 1, 2 and so on, without a gap.
    pub fn is_contiguous(&self) -> (r: bool)
        ensures
            r == self.contiguous(),
    {
        let mut i: usize = 0;
        while i < self.items.len()
            invariant
                i <= self.items@.len(),
                forall|k: int| 0 <= k < i ==> (#[trigger] self.items@[k]).0 == k,
            decreases self.items@.len() - i,
        {
            if i > u32::MAX as usize || self.items[i].0 != i as u32 {
                assert(self.entries()[i as int].0 != i);
                return false;
            }
            i += 1;
        }
        true
    }

    /// Returns the index of the translation at place `i`.
    pub fn key_at(&self, i: usize) -> (r: u32)
        requires
            i < self.entries().len(),
        ensures
            r == self.entries()[i as int].0,
    {
        self.items[i].0
    }

    /// Returns the translation at place `i`.
    pub fn value_at(&self, i: usize) -> (r: &Message)
        requires
            i < self.entries().len(),
        ensures
            *r == self.entries()[i as int].1,
    {
        &self.items[i].1
    }

    /// Returns the place of the first index that is not below `key`.
    fn search(&self, key: u32) -> (p: usize)
        ensures
            p == lower_bound(self.entries(), key),
            p <= self.entries().len(),
    {
        let mut p: usize = 0;
        assert(self.items@.subrange(0, self.items@.len() as int) =~= self.items@);
        while p < self.items.len() && self.items[p].0 < key
            invariant
                p <= self.items@.len(),
                lower_bound(self.items@, key) == p + lower_bound(
                    self.items@.subrange(p as int, self.items@.len() as int),
                    key,
                ),
            decreases self.items@.len() - p,
        {
            proof {
                let rest = self.items@.subrange(p as int, self.items@.len() as int);
                assert(rest.drop_first() =~= self.items@.subrange(
                    p + 1,
                    self.items@.len() as int,
                ));
            }
            p += 1;
        }
        p
    }

    /// Returns the place of the translation with the index `key`.
    pub fn find(&self, key: u32) -> (r: Option<usize>)
        ensures
            match r {
                Some(i) => position_of(self.entries(), key) == Some(i as int),
                None => position_of(self.entries(), key) is None,
            },
    {
        let p = self.search(key);
        if p < self.items.len() && self.items[p].0 == key {
            Some(p)
        } else {
            None
        }
    }

    /// Returns the translation with the index `key`.
    pub fn get(&self, key: &u32) -> (r: Option<&Message>)
        ensures
            match position_of(self.entries(), *key) {
                Some(i) => r == Some(&self.entries()[i].1),
                None => r is None,
            },
    {
        proof {
            lemma_lower_bound(self.entries(), *key);
        }
        match self.find(*key) {
            Some(i) => Some(&self.items[i].1),
            None => None,
        }
    }

    /// Tells whether there is a translation with the index `key`.
    pub fn contains_key(&self, key: &u32) -> (r: bool)
        ensures
            r == (position_of(self.entries(), *key) is Some),
    {
        self.find(*key).is_some()
    }

    /// Puts `value` under the index `key`, and returns the translation that
    /// the index had.
    pub fn insert(&mut self, key: u32, value: Message) -> (r: Option<Message>)
        ensures
            final(self).entries() == inserted(old(self).entries(), key, value),
            old(self).in_order() ==> final(self).in_order(),
            match position_of(old(self).entries(), key) {
                Some(i) => r == Some(old(self).entries()[i].1),
                None => r is None,
            },
    {
        proof {
            lemma_lower_bound(self.items@, key);
        }
        let ghost before = self.items@;
        let p = self.search(key);
        let previous = if p < self.items.len() && self.items[p].0 == key {
            let (_, m) = self.items.remove(p);
            Some(m)
        } else {
            None
        };
        self.items.insert(p, (key, value));
        proof {
            let after = if previous is Some {
                p + 1
            } else {
                p as int
            };
            assert(self.items@ =~= before.subrange(0, p as int).push((key, value))
                + before.subrange(after, before.len() as int));
            assert forall|i: int, j: int|
                keys_increase(before) && 0 <= i < j < self.items@.len() implies self.items@[i].0
                < self.items@[j].0 by {
                if j < p {
                    assert(self.items@[i] == before[i] && self.items@[j] == before[j]);
                } else if j == p {
                    assert(self.items@[i] == before[i]);
                } else {
                    let bj = after + (j - p - 1);
                    assert(self.items@[j] == before[bj]);
                    if i < p {
                        assert(self.items@[i] == before[i]);
                    } else if i == p {
                        if bj > p {
                            assert(before[p as int].0 < before[bj].0);
                        }
                    } else {
                        assert(self.items@[i] == before[after + (i - p - 1)]);
                    }
                }
            }
        }
        previous
    }

    /// Replaces the text of the translation at place `i`.
    pub fn set_text(&mut self, i: usize, text: String)
        requires
            i < old(self).entries().len(),
        ensures
            final(self).entries() == old(self).entries().update(
                i as int,
                (
                    old(self).entries()[i as int].0,
                    (Message {
                        line_number: old(self).entries()[i as int].1.line_number,
                        value: text,
                    }),
                ),
            ),
            old(self).in_order() ==> final(self).in_order(),
    {
        let ghost before = self.items@;
        let (key, m) = self.items.remove(i);
        self.items.insert(i, (key, Message { line_number: m.line_number, value: text }));
        proof {
            assert(self.items@ =~= before.update(
                i as int,
                (key, (Message { line_number: m.line_number, value: text })),
            ));
            assert forall|a: int, b: int|
                keys_increase(before) && 0 <= a < b < self.items@.len() implies self.items@[a].0
                < self.items@[b].0 by {
                assert(self.items@[a].0 == before[a].0);
                assert(self.items@[b].0 == before[b].0);
            }
        }
    }
}

impl Default for Translations {
    fn default() -> (r: Self)
        ensures
            r.entries() == Seq::<(u32, Message)>::empty(),
            r.in_order(),
    {
        Translations::new()
    }
}

} // verus!
