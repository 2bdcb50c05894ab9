//! A map ordered by frame names.

use vstd::prelude::*;

use crate::text::{comes_before, lemma_precedes_irreflexive, lemma_precedes_total};
use crate::text::{lemma_precedes_transitive, precedes, same};

verus! {

/// What a key is ordered by: two texts, the first before the second.
pub type KeyView = (Seq<char>, Seq<char>);

/// Key `a` comes before key `b`.
pub open spec fn key_precedes(a: KeyView, b: KeyView) -> bool {
    precedes(a.0, b.0) || (a.0 == b.0 && precedes(a.1, b.1))
}

/// A key of an [`OrderedMap`].
pub trait FrameKey: Sized {
    /// What the key is ordered by. Keys that agree on it are the same key.
    spec fn parts(&self) -> KeyView;

    /// Whether this key comes before the other.
    fn is_before(&self, other: &Self) -> (r: bool)
        ensures
            r == key_precedes(self.parts(), other.parts()),
    ;

    /// Whether this is the same key as the other.
    fn is_same(&self, other: &Self) -> (r: bool)
        ensures
            r == (self.parts() == other.parts()),
    ;
}

impl FrameKey for String {
    open spec fn parts(&self) -> KeyView {
        (self@, Seq::empty())
    }

    fn is_before(&self, other: &Self) -> (r: bool) {
        proof {
            lemma_precedes_irreflexive(Seq::<char>::empty());
        }
        comes_before(self.as_str(), other.as_str())
    }

    fn is_same(&self, other: &Self) -> (r: bool) {
        same(self.as_str(), other.as_str())
    }
}

/// No key comes before itself.
pub proof fn lemma_key_irreflexive(a: KeyView)
    ensures
        !key_precedes(a, a),
{
    lemma_precedes_irreflexive(a.0);
    lemma_precedes_irreflexive(a.1);
}

/// What comes before a predecessor comes before.
pub proof fn lemma_key_transitive(a: KeyView, b: KeyView, c: KeyView)
    requires
        key_precedes(a, b),
        key_precedes(b, c),
    ensures
        key_precedes(a, c),
{
    if precedes(a.0, b.0) && precedes(b.0, c.0) {
        lemma_precedes_transitive(a.0, b.0, c.0);
    }
    if a.0 == b.0 && b.0 == c.0 {
        lemma_precedes_irreflexive(a.0);
        lemma_precedes_transitive(a.1, b.1, c.1);
    }
}

/// Of two different keys one comes before the other.
pub proof fn lemma_key_total(a: KeyView, b: KeyView)
    ensures
        a == b || key_precedes(a, b) || key_precedes(b, a),
{
    lemma_precedes_total(a.0, b.0);
    lemma_precedes_total(a.1, b.1);
}

/// Values by frame names, in the order of the names, each name once.
#[derive(Clone, Debug)]
pub struct OrderedMap<K, V> {
    pub entries: Vec<(K, V)>,
}

/// The entries stand in the order of their keys, and no key occurs twice.
pub open spec fn in_order<K: FrameKey, V>(entries: Seq<(K, V)>) -> bool {
    forall|i: int, j: int|
        #![trigger entries[i], entries[j]]
        0 <= i < j < entries.len() ==> key_precedes(entries[i].0.parts(), entries[j].0.parts())
}

/// `index` is where `key` stands, or where it would have to be put.
pub open spec fn slot<K: FrameKey, V>(entries: Seq<(K, V)>, key: KeyView, index: int) -> bool {
    &&& 0 <= index <= entries.len()
    &&& forall|i: int| 0 <= i < index ==> key_precedes((#[trigger] entries[i]).0.parts(), key)
    &&& forall|i: int|
        index < i < entries.len() ==> key_precedes(key, (#[trigger] entries[i]).0.parts())
    &&& index < entries.len() ==> (entries[index].0.parts() == key || key_precedes(
        key,
        entries[index].0.parts(),
    ))
}

/// The key occurs in the map.
pub open spec fn holds<K: FrameKey, V>(entries: Seq<(K, V)>, key: KeyView) -> bool {
    exists|i: int| 0 <= i < entries.len() && (#[trigger] entries[i]).0.parts() == key
}

/// The entries after `value` was put under `key`: an entry of that key keeps its key and changes
/// its value, a new one goes where the order has it.
pub open spec fn inserted<K: FrameKey, V>(
    before: Seq<(K, V)>,
    key: K,
    value: V,
    after: Seq<(K, V)>,
) -> bool {
    exists|i: int| #[trigger]
        slot(before, key.parts(), i) && after == if i < before.len() && before[i].0.parts()
            == key.parts() {
            before.update(i, (before[i].0, value))
        } else {
            before.insert(i, (key, value))
        }
}

impl<K: FrameKey, V> OrderedMap<K, V> {
    /// See [`in_order`].
    pub open spec fn well_formed(&self) -> bool {
        in_order(self.entries@)
    }

    pub fn new() -> (r: Self)
        ensures
            r.entries@.len() == 0,
            r.well_formed(),
    {
        OrderedMap { entries: Vec::new() }
    }

    pub fn len(&self) -> (r: usize)
        ensures
            r == self.entries@.len(),
    {
        self.entries.len()
    }

    /// Where the key stands or would have to be put.
    fn find_slot(&self, key: &K) -> (index: usize)
        requires
            self.well_formed(),
        ensures
            slot(self.entries@, key.parts(), index as int),
    {
        let ghost entries = self.entries@;
        let mut index: usize = 0;
        while index < self.entries.len() && self.entries[index].0.is_before(key)
            invariant
                entries == self.entries@,
                index <= entries.len(),
                forall|i: int|
                    0 <= i < index ==> key_precedes((#[trigger] entries[i]).0.parts(), key.parts()),
            decreases entries.len() - index,
        {
            index += 1;
        }
        proof {
            if index < entries.len() {
                let at = entries[index as int].0.parts();
                lemma_key_total(at, key.parts());
                assert forall|i: int| index < i < entries.len() implies key_precedes(
                    key.parts(),
                    (#[trigger] entries[i]).0.parts(),
                ) by {
                    assert(key_precedes(entries[index as int].0.parts(), entries[i].0.parts()));
                    if at != key.parts() {
                        lemma_key_transitive(key.parts(), at, entries[i].0.parts());
                    }
                }
            }
        }
        index
    }

    /// The index of the entry with this key.
    pub fn position(&self, key: &K) -> (r: Option<usize>)
        requires
            self.well_formed(),
        ensures
            match r {
                Some(i) => i < self.entries@.len() && self.entries@[i as int].0.parts()
                    == key.parts(),
                None => !holds(self.entries@, key.parts()),
            },
    {
        let index: usize = self.find_slot(key);
        if index < self.entries.len() && self.entries[index].0.is_same(key) {
            return Some(index);
        }
        proof {
            lemma_key_irreflexive(key.parts());
        }
        None
    }

    /// Puts `value` under `key`, in place of what was there.
    pub fn insert(&mut self, key: K, value: V)
        requires
            old(self).well_formed(),
        ensures
            final(self).well_formed(),
            inserted(old(self).entries@, key, value, final(self).entries@),
    {
        let ghost before = self.entries@;
        let index: usize = self.find_slot(&key);
        if index < self.entries.len() && self.entries[index].0.is_same(&key) {
            let (kept, _) = self.entries.remove(index);
            self.entries.insert(index, (kept, value));
            assert(self.entries@ =~= before.update(index as int, (kept, value)));
        } else {
            self.entries.insert(index, (key, value));
            proof {
                lemma_key_irreflexive(key.parts());
            }
        }
    }
}

} // verus!
