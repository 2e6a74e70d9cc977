//! The lineage cache: a capacity-bounded, LRU-evicting map from
//! [`ReceiptOrDataId`] to the root transaction hash.
//!
//! One instance lives for the whole process and is the only state carried
//! across blocks.  The backing store is `cached::SizedCache`; verified code
//! reaches it only through the trusted wrappers below, whose contracts are
//! stated over [`cache_map`] (the entries the cache currently holds) and
//! [`cache_capacity`] (the bound it was created with).
//!
//! Eviction is correctness-relevant: a `set` on a full cache may drop the
//! least recently used entry, so every contract states which entries are
//! certainly kept (the exact-update clauses hold whenever the key is already
//! present or there is room) and that no entry ever appears from nowhere.

use vstd::prelude::*;

use cached::Cached;
use crate::types::{ParentTransactionHashString, ReceiptOrDataId, RefIdView};

verus! {

/// The backing store: an LRU cache from id to root transaction hash.
pub type InnerCache = cached::SizedCache<ReceiptOrDataId, ParentTransactionHashString>;

/// The entries a `SizedCache` currently holds, as a map from id value to
/// hash characters.
pub uninterp spec fn cache_map(c: InnerCache) -> Map<RefIdView, Seq<char>>;

/// The size bound a `SizedCache` was created with.
pub uninterp spec fn cache_capacity(c: InnerCache) -> nat;

#[verifier::external_type_specification]
#[verifier::external_body]
#[verifier::reject_recursive_types(K)]
#[verifier::reject_recursive_types(V)]
pub struct ExSizedCache<K, V>(cached::SizedCache<K, V>);

/// Relies on `cached::SizedCache::with_size`: a fresh cache with the given
/// capacity and no entries.  `with_size` panics when the size is zero, so
/// zero is excluded here.
#[verifier::external_body]
fn sized_cache_new(size: usize) -> (r: InnerCache)
    requires
        1 <= size,
    ensures
        cache_map(r) =~= Map::empty(),
        cache_capacity(r) == size,
{
    cached::SizedCache::with_size(size)
}

/// Relies on `cached::SizedCache::cache_get`: returns the entry stored under
/// the key, or nothing; it refreshes the key's recency and the hit counters
/// but never adds or drops an entry.  A stored cache never holds more than
/// `capacity` entries, and always finitely many.
#[verifier::external_body]
fn sized_cache_get(c: &mut InnerCache, key: &ReceiptOrDataId) -> (r: Option<
    ParentTransactionHashString,
>)
    ensures
        cache_map(*final(c)) == cache_map(*old(c)),
        cache_capacity(*final(c)) == cache_capacity(*old(c)),
        cache_map(*old(c)).dom().finite(),
        cache_map(*old(c)).dom().len() <= cache_capacity(*old(c)),
        (match r {
            Some(h) => cache_map(*old(c)).dom().contains(key@) && h@ == cache_map(*old(c))[key@],
            None => !cache_map(*old(c)).dom().contains(key@),
        }),
{
    c.cache_get(key).cloned()
}

/// Relies on `cached::SizedCache::cache_set`: stores the value under the key
/// and returns the value previously stored there.  When the key was already
/// present it is overwritten in place; when there was room the entry is
/// simply added; when the cache was full, adding the new entry evicts the
/// least recently used one — so in every case the new pair is present, and
/// every surviving entry was already there with the same value.
#[verifier::external_body]
fn sized_cache_set(c: &mut InnerCache, key: ReceiptOrDataId, value: ParentTransactionHashString) -> (r: Option<ParentTransactionHashString>)
    ensures
        cache_capacity(*final(c)) == cache_capacity(*old(c)),
        cache_map(*old(c)).dom().finite(),
        cache_map(*old(c)).dom().len() <= cache_capacity(*old(c)),
        cache_map(*final(c)).dom().finite(),
        cache_map(*final(c)).dom().len() <= cache_capacity(*old(c)),
        cache_map(*final(c)).dom().len() <= cache_map(*old(c)).dom().len() + 1,
        cache_map(*final(c)).dom().contains(key@),
        cache_map(*final(c))[key@] == value@,
        forall|j: RefIdView|
            #[trigger] cache_map(*final(c)).dom().contains(j) && j != key@
                ==> cache_map(*old(c)).dom().contains(j)
                    && cache_map(*final(c))[j] == cache_map(*old(c))[j],
        cache_map(*old(c)).dom().contains(key@)
            ==> cache_map(*final(c)) == cache_map(*old(c)).insert(key@, value@),
        cache_map(*old(c)).dom().len() < cache_capacity(*old(c))
            ==> cache_map(*final(c)) == cache_map(*old(c)).insert(key@, value@),
        (match r {
            Some(h) => cache_map(*old(c)).dom().contains(key@) && h@ == cache_map(*old(c))[key@],
            None => !cache_map(*old(c)).dom().contains(key@),
        }),
{
    c.cache_set(key, value)
}

/// Relies on `cached::SizedCache::cache_remove`: removes and returns the
/// entry stored under the key, if any; no other entry changes.
#[verifier::external_body]
fn sized_cache_remove(c: &mut InnerCache, key: &ReceiptOrDataId) -> (r: Option<
    ParentTransactionHashString,
>)
    ensures
        cache_capacity(*final(c)) == cache_capacity(*old(c)),
        cache_map(*old(c)).dom().finite(),
        cache_map(*old(c)).dom().len() <= cache_capacity(*old(c)),
        cache_map(*final(c)) == cache_map(*old(c)).remove(key@),
        (match r {
            Some(h) => cache_map(*old(c)).dom().contains(key@) && h@ == cache_map(*old(c))[key@],
            None => !cache_map(*old(c)).dom().contains(key@),
        }),
{
    c.cache_remove(key)
}

/// Relies on `cached::SizedCache::cache_size`: the number of entries
/// currently stored.
#[verifier::external_body]
fn sized_cache_len(c: &InnerCache) -> (r: usize)
    ensures
        r == cache_map(*c).dom().len(),
        r <= cache_capacity(*c),
{
    c.cache_size()
}

/// Relies on `cached::SizedCache::cache_capacity`: the size bound the cache
/// was created with, which `SizedCache` always reports.
#[verifier::external_body]
fn sized_cache_capacity(c: &InnerCache) -> (r: usize)
    ensures
        r == cache_capacity(*c),
{
    c.cache_capacity().unwrap_or(0)
}

/// The process-lifetime cache mapping each receipt or data id to the hash of
/// its root transaction.
///
/// Its mathematical value (`self@`) is the map of entries it holds;
/// `spec_capacity` is the eviction bound.  A `DataId` entry is consumed by
/// the first successful [`ReceiptsCache::get`]; a `ReceiptId` entry persists
/// until the execution-outcome stage removes it.
pub struct ReceiptsCache {
    inner: InnerCache,
}

impl View for ReceiptsCache {
    type V = Map<RefIdView, Seq<char>>;

    closed spec fn view(&self) -> Map<RefIdView, Seq<char>> {
        cache_map(self.inner)
    }
}

impl ReceiptsCache {
    /// The size bound this cache was created with.
    pub closed spec fn spec_capacity(&self) -> nat {
        cache_capacity(self.inner)
    }

    /// A cache never holds more than `capacity` entries.
    pub open spec fn wf(&self) -> bool {
        &&& self@.dom().finite()
        &&& self@.dom().len() <= self.spec_capacity()
    }

    /// An empty cache bounded to `size` entries.
    pub fn with_size(size: usize) -> (r: Self)
        requires
            1 <= size,
        ensures
            r@ == Map::<RefIdView, Seq<char>>::empty(),
            r.spec_capacity() == size,
            r.wf(),
    {
        let r = ReceiptsCache { inner: sized_cache_new(size) };
        proof {
            assert(r@.dom() =~= Set::<RefIdView>::empty());
        }
        r
    }

    /// Look the id up.  A hit on a `DataId` consumes the entry: a data item
    /// is referenced by exactly one data receipt, so keeping the pair would
    /// be stale and leak capacity.  A `ReceiptId` entry is left in place.
    pub fn get(&mut self, key: &ReceiptOrDataId) -> (r: Option<ParentTransactionHashString>)
        ensures
            final(self).spec_capacity() == old(self).spec_capacity(),
            old(self).wf(),
            final(self).wf(),
            (match r {
                Some(h) => old(self)@.dom().contains(key@) && h@ == old(self)@[key@],
                None => !old(self)@.dom().contains(key@),
            }),
            final(self)@ == (if key@ is DataId && old(self)@.dom().contains(key@) {
                old(self)@.remove(key@)
            } else {
                old(self)@
            }),
    {
        match key {
            ReceiptOrDataId::ReceiptId(_) => sized_cache_get(&mut self.inner, key),
            ReceiptOrDataId::DataId(_) => sized_cache_remove(&mut self.inner, key),
        }
    }

    /// Store `value` under `key`.  The pair is present afterwards; no other
    /// pair appears; when the key was already present, or the cache had
    /// room, nothing is evicted and the result is exactly the old map with
    /// the pair added.
    pub fn set(&mut self, key: ReceiptOrDataId, value: ParentTransactionHashString)
        ensures
            final(self).spec_capacity() == old(self).spec_capacity(),
            old(self).wf(),
            final(self).wf(),
            final(self)@.dom().len() <= old(self)@.dom().len() + 1,
            final(self)@.dom().contains(key@),
            final(self)@[key@] == value@,
            forall|j: RefIdView|
                #[trigger] final(self)@.dom().contains(j) && j != key@
                    ==> old(self)@.dom().contains(j) && final(self)@[j] == old(self)@[j],
            old(self)@.dom().contains(key@)
                ==> final(self)@ == old(self)@.insert(key@, value@),
            old(self)@.dom().len() < old(self).spec_capacity()
                ==> final(self)@ == old(self)@.insert(key@, value@),
    {
        let _ = sized_cache_set(&mut self.inner, key, value);
    }

    /// Remove the entry stored under `key`, returning it.
    pub fn remove(&mut self, key: &ReceiptOrDataId) -> (r: Option<ParentTransactionHashString>)
        ensures
            final(self).spec_capacity() == old(self).spec_capacity(),
            old(self).wf(),
            final(self).wf(),
            final(self)@ == old(self)@.remove(key@),
            (match r {
                Some(h) => old(self)@.dom().contains(key@) && h@ == old(self)@[key@],
                None => !old(self)@.dom().contains(key@),
            }),
    {
        sized_cache_remove(&mut self.inner, key)
    }

    /// Return the entry stored under `key` without consuming it, or store
    /// `value` there if the key is absent.  Never overwrites: a present
    /// entry is returned untouched, so a caller can detect a conflicting
    /// edge instead of silently losing it.
    pub fn peek_or_set(&mut self, key: ReceiptOrDataId, value: ParentTransactionHashString) -> (r:
        Option<ParentTransactionHashString>)
        ensures
            final(self).spec_capacity() == old(self).spec_capacity(),
            old(self).wf(),
            final(self).wf(),
            (match r {
                Some(h) => old(self)@.dom().contains(key@) && h@ == old(self)@[key@]
                    && final(self)@ == old(self)@,
                None => {
                    &&& !old(self)@.dom().contains(key@)
                    &&& final(self)@.dom().contains(key@)
                    &&& final(self)@[key@] == value@
                    &&& final(self)@.dom().len() <= old(self)@.dom().len() + 1
                    &&& forall|j: RefIdView|
                        #[trigger] final(self)@.dom().contains(j) && j != key@
                            ==> old(self)@.dom().contains(j)
                                && final(self)@[j] == old(self)@[j]
                    &&& old(self)@.dom().len() < old(self).spec_capacity()
                        ==> final(self)@ == old(self)@.insert(key@, value@)
                },
            }),
    {
        match sized_cache_get(&mut self.inner, &key) {
            Some(h) => Some(h),
            None => {
                let _ = sized_cache_set(&mut self.inner, key, value);
                None
            },
        }
    }

    /// How many entries the cache currently holds.
    pub fn len(&self) -> (r: usize)
        ensures
            r == self@.dom().len(),
            r <= self.spec_capacity(),
    {
        sized_cache_len(&self.inner)
    }

    /// The size bound this cache was created with.
    pub fn capacity(&self) -> (r: usize)
        ensures
            r == self.spec_capacity(),
    {
        sized_cache_capacity(&self.inner)
    }
}

} // verus!
