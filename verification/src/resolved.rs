//! The per-chunk resolution result: a map from [`ReceiptOrDataId`] to the
//! root transaction hash found for it.
//!
//! Backed by a vector of pairs with pairwise-distinct keys; its mathematical
//! value (`self@`) is the corresponding `Map`.

use vstd::prelude::*;

use crate::types::{ParentTransactionHashString, ReceiptOrDataId, RefIdView};

verus! {

/// The map described by a sequence of (id, hash) pairs, later pairs winning.
pub open spec fn entries_map(s: Seq<(ReceiptOrDataId, ParentTransactionHashString)>) -> Map<
    RefIdView,
    Seq<char>,
>
    decreases s.len(),
{
    if s.len() == 0 {
        Map::empty()
    } else {
        entries_map(s.drop_last()).insert(s.last().0@, s.last().1@)
    }
}

/// No two pairs of `s` carry the same id value.
pub open spec fn distinct_keys(s: Seq<(ReceiptOrDataId, ParentTransactionHashString)>) -> bool {
    forall|i: int, j: int| 0 <= i < j < s.len() ==> s[i].0@ != s[j].0@
}

/// The domain of `entries_map` is exactly the ids occurring in `s`.
pub proof fn lemma_entries_map_dom(s: Seq<(ReceiptOrDataId, ParentTransactionHashString)>, k: RefIdView)
    ensures
        entries_map(s).dom().contains(k) <==> exists|i: int| 0 <= i < s.len() && s[i].0@ == k,
    decreases s.len(),
{
    if s.len() > 0 {
        lemma_entries_map_dom(s.drop_last(), k);
        if s.last().0@ == k {
            assert(s[s.len() - 1].0@ == k);
        } else if entries_map(s).dom().contains(k) {
            let i = choose|i: int| 0 <= i < s.drop_last().len() && s.drop_last()[i].0@ == k;
            assert(s[i].0@ == k);
        } else if exists|i: int| 0 <= i < s.len() && s[i].0@ == k {
            let i = choose|i: int| 0 <= i < s.len() && s[i].0@ == k;
            assert(s.drop_last()[i].0@ == k);
        }
    }
}

/// With distinct keys, each pair of `s` is in the map exactly as written.
pub proof fn lemma_entries_map_at(s: Seq<(ReceiptOrDataId, ParentTransactionHashString)>, i: int)
    requires
        distinct_keys(s),
        0 <= i < s.len(),
    ensures
        entries_map(s).dom().contains(s[i].0@),
        entries_map(s)[s[i].0@] == s[i].1@,
    decreases s.len(),
{
    if i == s.len() - 1 {
        lemma_entries_map_dom(s, s[i].0@);
    } else {
        lemma_entries_map_at(s.drop_last(), i);
        assert(s.drop_last()[i] == s[i]);
        assert(s[i].0@ != s.last().0@);
    }
}

/// The map of a sequence with distinct keys is finite and has one entry per
/// pair.
pub proof fn lemma_entries_map_len(s: Seq<(ReceiptOrDataId, ParentTransactionHashString)>)
    requires
        distinct_keys(s),
    ensures
        entries_map(s).dom().finite(),
        entries_map(s).dom().len() == s.len(),
    decreases s.len(),
{
    if s.len() > 0 {
        lemma_entries_map_len(s.drop_last());
        lemma_entries_map_dom(s.drop_last(), s.last().0@);
    }
}

/// Map from receipt/data id to the root transaction hash resolved for it.
pub struct ResolvedMap {
    entries: Vec<(ReceiptOrDataId, ParentTransactionHashString)>,
}

impl View for ResolvedMap {
    type V = Map<RefIdView, Seq<char>>;

    closed spec fn view(&self) -> Map<RefIdView, Seq<char>> {
        entries_map(self.entries@)
    }
}

impl ResolvedMap {
    /// Internal invariant: the backing pairs carry distinct ids.
    pub closed spec fn wf(&self) -> bool {
        distinct_keys(self.entries@)
    }

    /// An empty resolution result.
    pub fn new() -> (r: Self)
        ensures
            r@ == Map::<RefIdView, Seq<char>>::empty(),
            r.wf(),
    {
        ResolvedMap { entries: Vec::new() }
    }

    /// Whether a hash was resolved for `key`.
    pub fn contains_ref(&self, key: &ReceiptOrDataId) -> (r: bool)
        requires
            self.wf(),
        ensures
            r == self@.dom().contains(key@),
    {
        let n = self.entries.len();
        for i in 0..n
            invariant
                n == self.entries.len(),
                forall|j: int| 0 <= j < i ==> self.entries@[j].0@ != key@,
        {
            if self.entries[i].0.same_as(key) {
                proof {
                    lemma_entries_map_dom(self.entries@, key@);
                }
                return true;
            }
        }
        proof {
            lemma_entries_map_dom(self.entries@, key@);
        }
        false
    }

    /// The hash resolved for `key`, if any.
    pub fn get(&self, key: &ReceiptOrDataId) -> (r: Option<&ParentTransactionHashString>)
        requires
            self.wf(),
        ensures
            (match r {
                Some(h) => self@.dom().contains(key@) && h@ == self@[key@],
                None => !self@.dom().contains(key@),
            }),
    {
        let n = self.entries.len();
        for i in 0..n
            invariant
                n == self.entries.len(),
                self.wf(),
                forall|j: int| 0 <= j < i ==> self.entries@[j].0@ != key@,
        {
            if self.entries[i].0.same_as(key) {
                proof {
                    lemma_entries_map_at(self.entries@, i as int);
                }
                return Some(&self.entries[i].1);
            }
        }
        proof {
            lemma_entries_map_dom(self.entries@, key@);
        }
        None
    }

    /// Record a hash for an id not resolved before.
    pub fn insert(&mut self, key: ReceiptOrDataId, value: ParentTransactionHashString)
        requires
            old(self).wf(),
            !old(self)@.dom().contains(key@),
        ensures
            final(self).wf(),
            final(self)@ == old(self)@.insert(key@, value@),
    {
        proof {
            lemma_entries_map_dom(self.entries@, key@);
        }
        self.entries.push((key, value));
        proof {
            assert(self.entries@.drop_last() =~= old(self).entries@);
            assert forall|i: int, j: int| 0 <= i < j < self.entries@.len() implies self.entries@[i].0@
                != self.entries@[j].0@ by {
                if j == self.entries@.len() - 1 {
                    lemma_entries_map_dom(old(self).entries@, self.entries@[i].0@);
                    assert(old(self).entries@[i] == self.entries@[i]);
                }
            }
        }
    }

    /// Record a hash for `key` unless one is already recorded; the earlier
    /// record wins.
    pub fn insert_if_absent(&mut self, key: ReceiptOrDataId, value: ParentTransactionHashString)
        requires
            old(self).wf(),
        ensures
            final(self).wf(),
            final(self)@ == (if old(self)@.dom().contains(key@) {
                old(self)@
            } else {
                old(self)@.insert(key@, value@)
            }),
    {
        if !self.contains_ref(&key) {
            self.insert(key, value);
        }
    }

    /// How many ids have been resolved.
    pub fn len(&self) -> (r: usize)
        requires
            self.wf(),
        ensures
            r == self@.dom().len(),
            self@.dom().finite(),
    {
        proof {
            lemma_entries_map_len(self.entries@);
        }
        self.entries.len()
    }
}

} // verus!
