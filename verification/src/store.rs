//! An image of the persisted lineage tables and the fallback queries the
//! resolver runs against them.
//!
//! The relational store keeps, for lineage purposes: `transactions` keyed by
//! the receipt id the transaction was converted into; `action_receipts`
//! carrying the root transaction hash each receipt originated from;
//! `action_receipts__outputs` linking a produced data id to the receipt that
//! announced it; `execution_outcomes__receipts` linking a produced receipt to
//! the receipt whose execution produced it; and `unresolved_blocks`, the
//! audit trail of heights whose resolution was incomplete.  All writes are
//! keyed upserts, so replaying a block is idempotent.

use vstd::prelude::*;

use crate::types::ParentTransactionHashString;

verus! {

/// The map described by a sequence of key/value string pairs.
pub open spec fn string_entries_map(s: Seq<(String, String)>) -> Map<Seq<char>, Seq<char>>
    decreases s.len(),
{
    if s.len() == 0 {
        Map::empty()
    } else {
        string_entries_map(s.drop_last()).insert(s.last().0@, s.last().1@)
    }
}

/// No two pairs of `s` carry the same key characters.
pub open spec fn string_distinct_keys(s: Seq<(String, String)>) -> bool {
    forall|i: int, j: int| 0 <= i < j < s.len() ==> s[i].0@ != s[j].0@
}

/// The domain of `string_entries_map` is exactly the keys occurring in `s`.
pub proof fn lemma_string_entries_map_dom(s: Seq<(String, String)>, k: Seq<char>)
    ensures
        string_entries_map(s).dom().contains(k) <==> exists|i: int|
            0 <= i < s.len() && s[i].0@ == k,
    decreases s.len(),
{
    if s.len() > 0 {
        lemma_string_entries_map_dom(s.drop_last(), k);
        if s.last().0@ == k {
            assert(s[s.len() - 1].0@ == k);
        } else if string_entries_map(s).dom().contains(k) {
            let i = choose|i: int| 0 <= i < s.drop_last().len() && s.drop_last()[i].0@ == k;
            assert(s[i].0@ == k);
        } else if exists|i: int| 0 <= i < s.len() && s[i].0@ == k {
            let i = choose|i: int| 0 <= i < s.len() && s[i].0@ == k;
            assert(s.drop_last()[i].0@ == k);
        }
    }
}

/// With distinct keys, each pair of `s` is in the map exactly as written.
pub proof fn lemma_string_entries_map_at(s: Seq<(String, String)>, i: int)
    requires
        string_distinct_keys(s),
        0 <= i < s.len(),
    ensures
        string_entries_map(s).dom().contains(s[i].0@),
        string_entries_map(s)[s[i].0@] == s[i].1@,
    decreases s.len(),
{
    if i == s.len() - 1 {
        lemma_string_entries_map_dom(s, s[i].0@);
    } else {
        lemma_string_entries_map_at(s.drop_last(), i);
        assert(s.drop_last()[i] == s[i]);
        assert(s[i].0@ != s.last().0@);
    }
}

/// A table of key/value strings with unique keys; its mathematical value is
/// the corresponding `Map`.
pub struct StringMap {
    entries: Vec<(String, String)>,
}

impl View for StringMap {
    type V = Map<Seq<char>, Seq<char>>;

    closed spec fn view(&self) -> Map<Seq<char>, Seq<char>> {
        string_entries_map(self.entries@)
    }
}

impl StringMap {
    /// Internal invariant: the backing pairs carry distinct keys.
    pub closed spec fn wf(&self) -> bool {
        string_distinct_keys(self.entries@)
    }

    /// An empty table.
    pub fn new() -> (r: Self)
        ensures
            r@ == Map::<Seq<char>, Seq<char>>::empty(),
            r.wf(),
    {
        StringMap { entries: Vec::new() }
    }

    /// The value stored under `key`, if any.
    pub fn get(&self, key: &String) -> (r: Option<&String>)
        requires
            self.wf(),
        ensures
            (match r {
                Some(v) => self@.dom().contains(key@) && v@ == self@[key@],
                None => !self@.dom().contains(key@),
            }),
    {
        let n = self.entries.len();
        for i in 0..n
            invariant
                n == self.entries.len(),
                self.wf(),
                forall|j: int| 0 <= j < i ==> self.entries@[j].0@ != key@,
        {
            if self.entries[i].0 == *key {
                proof {
                    lemma_string_entries_map_at(self.entries@, i as int);
                }
                return Some(&self.entries[i].1);
            }
        }
        proof {
            lemma_string_entries_map_dom(self.entries@, key@);
        }
        None
    }

    /// Store `value` under `key` unless the key is already present: an
    /// insert-if-absent upsert, idempotent on replay.
    pub fn upsert(&mut self, key: String, value: String)
        requires
            old(self).wf(),
        ensures
            final(self).wf(),
            final(self)@ == (if old(self)@.dom().contains(key@) {
                old(self)@
            } else {
                old(self)@.insert(key@, value@)
            }),
    {
        if self.get(&key).is_none() {
            proof {
                lemma_string_entries_map_dom(self.entries@, key@);
            }
            self.entries.push((key, value));
            proof {
                assert(self.entries@.drop_last() =~= old(self).entries@);
                assert forall|i: int, j: int|
                    0 <= i < j < self.entries@.len() implies self.entries@[i].0@
                    != self.entries@[j].0@ by {
                    if j == self.entries@.len() - 1 {
                        assert(old(self).entries@[i] == self.entries@[i]);
                    }
                }
            }
        }
    }
}

/// One row batch-queried from a tier: the looked-up id paired with the root
/// transaction hash found for it.
pub type HashRow = (String, ParentTransactionHashString);

/// The rows a join query returns for `ids`: for each id, in order, follow it
/// through `m1` and then `m2`; ids that fall out of either map yield no row.
pub open spec fn join_rows(
    m1: Map<Seq<char>, Seq<char>>,
    m2: Map<Seq<char>, Seq<char>>,
    ids: Seq<Seq<char>>,
) -> Seq<(Seq<char>, Seq<char>)>
    decreases ids.len(),
{
    if ids.len() == 0 {
        Seq::empty()
    } else {
        let rest = join_rows(m1, m2, ids.drop_last());
        let d = ids.last();
        if m1.dom().contains(d) && m2.dom().contains(m1[d]) {
            rest.push((d, m2[m1[d]]))
        } else {
            rest
        }
    }
}

/// The rows a single-table query returns for `ids`: each id present in `m`,
/// in order, paired with its value.
pub open spec fn lookup_rows(m: Map<Seq<char>, Seq<char>>, ids: Seq<Seq<char>>) -> Seq<
    (Seq<char>, Seq<char>),
>
    decreases ids.len(),
{
    if ids.len() == 0 {
        Seq::empty()
    } else {
        let rest = lookup_rows(m, ids.drop_last());
        let d = ids.last();
        if m.dom().contains(d) {
            rest.push((d, m[d]))
        } else {
            rest
        }
    }
}

/// Batch-join each id through `m1` then `m2`.
fn joined_rows(m1: &StringMap, m2: &StringMap, ids: &Vec<String>) -> (r: Vec<HashRow>)
    requires
        m1.wf(),
        m2.wf(),
    ensures
        r.deep_view() == join_rows(m1@, m2@, ids.deep_view()),
{
    let mut out: Vec<HashRow> = Vec::new();
    let n = ids.len();
    for i in 0..n
        invariant
            n == ids.len(),
            m1.wf(),
            m2.wf(),
            out.deep_view() =~= join_rows(m1@, m2@, ids.deep_view().take(i as int)),
    {
        proof {
            assert(ids.deep_view().take(i + 1).drop_last() =~= ids.deep_view().take(i as int));
            assert(ids.deep_view().take(i + 1).last() == ids@[i as int]@);
        }
        let ghost prev = out.deep_view();
        if let Some(mid) = m1.get(&ids[i]) {
            if let Some(h) = m2.get(mid) {
                out.push((ids[i].clone(), h.clone()));
                proof {
                    assert(out.deep_view() =~= prev.push((ids@[i as int]@, h@)));
                }
            }
        }
    }
    proof {
        assert(ids.deep_view().take(n as int) =~= ids.deep_view());
    }
    out
}

/// Batch-look each id up in `m`.
fn looked_up_rows(m: &StringMap, ids: &Vec<String>) -> (r: Vec<HashRow>)
    requires
        m.wf(),
    ensures
        r.deep_view() == lookup_rows(m@, ids.deep_view()),
{
    let mut out: Vec<HashRow> = Vec::new();
    let n = ids.len();
    for i in 0..n
        invariant
            n == ids.len(),
            m.wf(),
            out.deep_view() =~= lookup_rows(m@, ids.deep_view().take(i as int)),
    {
        proof {
            assert(ids.deep_view().take(i + 1).drop_last() =~= ids.deep_view().take(i as int));
            assert(ids.deep_view().take(i + 1).last() == ids@[i as int]@);
        }
        let ghost prev = out.deep_view();
        if let Some(h) = m.get(&ids[i]) {
            out.push((ids[i].clone(), h.clone()));
            proof {
                assert(out.deep_view() =~= prev.push((ids@[i as int]@, h@)));
            }
        }
    }
    proof {
        assert(ids.deep_view().take(n as int) =~= ids.deep_view());
    }
    out
}

/// A sequence of rows applied as insert-if-absent upserts, in order.
pub open spec fn upsert_all(m: Map<Seq<char>, Seq<char>>, rows: Seq<(Seq<char>, Seq<char>)>) -> Map<
    Seq<char>,
    Seq<char>,
>
    decreases rows.len(),
{
    if rows.len() == 0 {
        m
    } else {
        let prev = upsert_all(m, rows.drop_last());
        if prev.dom().contains(rows.last().0) {
            prev
        } else {
            prev.insert(rows.last().0, rows.last().1)
        }
    }
}

/// Upserting two row batches one after the other is one upsert of their
/// concatenation.
pub proof fn lemma_upsert_all_append(
    m: Map<Seq<char>, Seq<char>>,
    a: Seq<(Seq<char>, Seq<char>)>,
    b: Seq<(Seq<char>, Seq<char>)>,
)
    ensures
        upsert_all(upsert_all(m, a), b) == upsert_all(m, a + b),
    decreases b.len(),
{
    if b.len() == 0 {
        assert(a + b =~= a);
    } else {
        lemma_upsert_all_append(m, a, b.drop_last());
        assert((a + b).drop_last() =~= a + b.drop_last());
        assert((a + b).last() == b.last());
    }
}

/// The heights recorded in a sequence of marker rows.
pub open spec fn heights_set(s: Seq<u64>) -> Set<u64>
    decreases s.len(),
{
    if s.len() == 0 {
        Set::empty()
    } else {
        heights_set(s.drop_last()).insert(s.last())
    }
}

/// A height occurs in the set exactly when some row holds it.
pub proof fn lemma_heights_set_contains(s: Seq<u64>, h: u64)
    ensures
        heights_set(s).contains(h) <==> exists|i: int| 0 <= i < s.len() && s[i] == h,
    decreases s.len(),
{
    if s.len() > 0 {
        lemma_heights_set_contains(s.drop_last(), h);
        if s.last() == h {
            assert(s[s.len() - 1] == h);
        } else if heights_set(s).contains(h) {
            let i = choose|i: int| 0 <= i < s.drop_last().len() && s.drop_last()[i] == h;
            assert(s[i] == h);
        } else if exists|i: int| 0 <= i < s.len() && s[i] == h {
            let i = choose|i: int| 0 <= i < s.len() && s[i] == h;
            assert(s.drop_last()[i] == h);
        }
    }
}

/// The mathematical content of the persisted lineage tables.
#[verifier::ext_equal]
pub struct StoreView {
    /// `transactions`: converted-into receipt id to transaction hash.
    pub transactions: Map<Seq<char>, Seq<char>>,
    /// `action_receipts`: receipt id to the hash of its root transaction.
    pub action_receipts: Map<Seq<char>, Seq<char>>,
    /// `action_receipts__outputs`: output data id to the announcing receipt.
    pub outputs: Map<Seq<char>, Seq<char>>,
    /// `execution_outcomes__receipts`: produced receipt id to the receipt
    /// whose execution produced it.
    pub outcome_receipts: Map<Seq<char>, Seq<char>>,
    /// `unresolved_blocks`: heights flagged for out-of-band backfill.
    pub unresolved_blocks: Set<u64>,
}

/// The persisted lineage tables.
pub struct LineageStore {
    transactions: StringMap,
    action_receipts: StringMap,
    outputs: StringMap,
    outcome_receipts: StringMap,
    unresolved_blocks: Vec<u64>,
}

impl View for LineageStore {
    type V = StoreView;

    closed spec fn view(&self) -> StoreView {
        StoreView {
            transactions: self.transactions@,
            action_receipts: self.action_receipts@,
            outputs: self.outputs@,
            outcome_receipts: self.outcome_receipts@,
            unresolved_blocks: heights_set(self.unresolved_blocks@),
        }
    }
}

impl LineageStore {
    /// Internal invariant: every table keeps its keys unique.
    pub closed spec fn wf(&self) -> bool {
        &&& self.transactions.wf()
        &&& self.action_receipts.wf()
        &&& self.outputs.wf()
        &&& self.outcome_receipts.wf()
        &&& (forall|i: int, j: int|
            0 <= i < j < self.unresolved_blocks@.len() ==> self.unresolved_blocks@[i]
                != self.unresolved_blocks@[j])
    }

    /// A store with empty tables.
    pub fn new() -> (r: Self)
        ensures
            r.wf(),
            r@.transactions == Map::<Seq<char>, Seq<char>>::empty(),
            r@.action_receipts == Map::<Seq<char>, Seq<char>>::empty(),
            r@.outputs == Map::<Seq<char>, Seq<char>>::empty(),
            r@.outcome_receipts == Map::<Seq<char>, Seq<char>>::empty(),
            r@.unresolved_blocks == Set::<u64>::empty(),
    {
        LineageStore {
            transactions: StringMap::new(),
            action_receipts: StringMap::new(),
            outputs: StringMap::new(),
            outcome_receipts: StringMap::new(),
            unresolved_blocks: Vec::new(),
        }
    }

    /// Upsert a `transactions` row.
    pub fn record_transaction(
        &mut self,
        converted_into_receipt_id: String,
        transaction_hash: ParentTransactionHashString,
    )
        requires
            old(self).wf(),
        ensures
            final(self).wf(),
            final(self)@ == (StoreView {
                transactions: (if old(self)@.transactions.dom().contains(
                    converted_into_receipt_id@,
                ) {
                    old(self)@.transactions
                } else {
                    old(self)@.transactions.insert(converted_into_receipt_id@, transaction_hash@)
                }),
                ..old(self)@
            }),
    {
        self.transactions.upsert(converted_into_receipt_id, transaction_hash);
    }

    /// Upsert an `action_receipts` row.
    pub fn record_action_receipt(
        &mut self,
        receipt_id: String,
        parent_transaction_hash: ParentTransactionHashString,
    )
        requires
            old(self).wf(),
        ensures
            final(self).wf(),
            final(self)@ == (StoreView {
                action_receipts: (if old(self)@.action_receipts.dom().contains(receipt_id@) {
                    old(self)@.action_receipts
                } else {
                    old(self)@.action_receipts.insert(receipt_id@, parent_transaction_hash@)
                }),
                ..old(self)@
            }),
    {
        self.action_receipts.upsert(receipt_id, parent_transaction_hash);
    }

    /// Upsert an `action_receipts__outputs` row.
    pub fn record_action_receipt_output(&mut self, output_data_id: String, receipt_id: String)
        requires
            old(self).wf(),
        ensures
            final(self).wf(),
            final(self)@ == (StoreView {
                outputs: (if old(self)@.outputs.dom().contains(output_data_id@) {
                    old(self)@.outputs
                } else {
                    old(self)@.outputs.insert(output_data_id@, receipt_id@)
                }),
                ..old(self)@
            }),
    {
        self.outputs.upsert(output_data_id, receipt_id);
    }

    /// Upsert an `execution_outcomes__receipts` row.
    pub fn record_execution_outcome_receipt(
        &mut self,
        produced_receipt_id: String,
        executed_receipt_id: String,
    )
        requires
            old(self).wf(),
        ensures
            final(self).wf(),
            final(self)@ == (StoreView {
                outcome_receipts: (if old(self)@.outcome_receipts.dom().contains(
                    produced_receipt_id@,
                ) {
                    old(self)@.outcome_receipts
                } else {
                    old(self)@.outcome_receipts.insert(produced_receipt_id@, executed_receipt_id@)
                }),
                ..old(self)@
            }),
    {
        self.outcome_receipts.upsert(produced_receipt_id, executed_receipt_id);
    }

    /// Record a block height whose resolution was incomplete.  Idempotent:
    /// recording the same height again leaves the table unchanged.
    pub fn record_unresolved_block(&mut self, block_height: u64)
        requires
            old(self).wf(),
        ensures
            final(self).wf(),
            final(self)@ == (StoreView {
                unresolved_blocks: old(self)@.unresolved_blocks.insert(block_height),
                ..old(self)@
            }),
    {
        let n = self.unresolved_blocks.len();
        for i in 0..n
            invariant
                n == self.unresolved_blocks.len(),
                self == old(self),
                old(self).wf(),
                forall|j: int| 0 <= j < i ==> self.unresolved_blocks@[j] != block_height,
        {
            if self.unresolved_blocks[i] == block_height {
                proof {
                    lemma_heights_set_contains(self.unresolved_blocks@, block_height);
                    assert(heights_set(self.unresolved_blocks@).insert(block_height)
                        =~= heights_set(self.unresolved_blocks@));
                }
                return ;
            }
        }
        proof {
            lemma_heights_set_contains(self.unresolved_blocks@, block_height);
        }
        self.unresolved_blocks.push(block_height);
        proof {
            assert(self.unresolved_blocks@.drop_last() =~= old(self).unresolved_blocks@);
        }
    }

    /// How many marker rows exist for `block_height`: one when the height is
    /// flagged, none otherwise — never more.
    pub fn unresolved_marker_count(&self, block_height: u64) -> (r: usize)
        requires
            self.wf(),
        ensures
            r == (if self@.unresolved_blocks.contains(block_height) {
                1usize
            } else {
                0usize
            }),
    {
        let mut count: usize = 0;
        let n = self.unresolved_blocks.len();
        for i in 0..n
            invariant
                n == self.unresolved_blocks.len(),
                self.wf(),
                count <= i,
                (count == 1) == (exists|j: int|
                    0 <= j < i && self.unresolved_blocks@[j] == block_height),
                count <= 1,
        {
            if self.unresolved_blocks[i] == block_height {
                proof {
                    assert forall|j: int|
                        0 <= j < i implies self.unresolved_blocks@[j] != block_height by {
                        if self.unresolved_blocks@[j] == block_height {
                            assert(false);
                        }
                    }
                }
                count = count + 1;
            }
        }
        proof {
            lemma_heights_set_contains(self.unresolved_blocks@, block_height);
        }
        count
    }

    /// The root transaction hash persisted for an action receipt, if any.
    pub fn action_receipt_parent(&self, receipt_id: &String) -> (r: Option<&String>)
        requires
            self.wf(),
        ensures
            (match r {
                Some(h) => self@.action_receipts.dom().contains(receipt_id@) && h@
                    == self@.action_receipts[receipt_id@],
                None => !self@.action_receipts.dom().contains(receipt_id@),
            }),
    {
        self.action_receipts.get(receipt_id)
    }

    /// The transaction hash persisted for a converted-into receipt id, if
    /// any.
    pub fn transaction_hash_for(&self, converted_into_receipt_id: &String) -> (r: Option<&String>)
        requires
            self.wf(),
        ensures
            (match r {
                Some(h) => self@.transactions.dom().contains(converted_into_receipt_id@) && h@
                    == self@.transactions[converted_into_receipt_id@],
                None => !self@.transactions.dom().contains(converted_into_receipt_id@),
            }),
    {
        self.transactions.get(converted_into_receipt_id)
    }

    /// Tier A: for still-unresolved data ids, join `action_receipts__outputs`
    /// to `action_receipts` by receipt id, keyed by the batch of data ids.
    pub fn find_transaction_hashes_for_data_receipts(&self, data_ids: &Vec<String>) -> (r: Vec<
        HashRow,
    >)
        requires
            self.wf(),
        ensures
            r.deep_view() == join_rows(self@.outputs, self@.action_receipts, data_ids.deep_view()),
    {
        joined_rows(&self.outputs, &self.action_receipts, data_ids)
    }

    /// Tier B: for still-unresolved receipt ids, join
    /// `execution_outcomes__receipts` to `action_receipts` by the producing
    /// receipt's id, keyed by the batch of receipt ids.
    pub fn find_transaction_hashes_for_receipts_via_outcomes(
        &self,
        action_receipt_ids: &Vec<String>,
    ) -> (r: Vec<HashRow>)
        requires
            self.wf(),
        ensures
            r.deep_view() == join_rows(
                self@.outcome_receipts,
                self@.action_receipts,
                action_receipt_ids.deep_view(),
            ),
    {
        joined_rows(&self.outcome_receipts, &self.action_receipts, action_receipt_ids)
    }

    /// Tier C: for receipts still unresolved, query the `transactions` table
    /// by the receipt id each transaction was converted into.
    pub fn find_transaction_hashes_for_receipt_via_transactions(
        &self,
        action_receipt_ids: &Vec<String>,
    ) -> (r: Vec<HashRow>)
        requires
            self.wf(),
        ensures
            r.deep_view() == lookup_rows(self@.transactions, action_receipt_ids.deep_view()),
    {
        looked_up_rows(&self.transactions, action_receipt_ids)
    }
}

} // verus!
