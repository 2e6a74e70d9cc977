//! The per-block stage ordering the resolver depends on.
//!
//! Within one block the stages run strictly in this order: transactions are
//! persisted and seeded into the cache for the whole block; then receipts
//! are resolved and persisted; then execution outcomes consume the cache
//! entries of their executed receipts and forward the hashes to the produced
//! children.  Resolving receipts before the block's transactions are seeded,
//! or consuming outcome entries before resolution is done, would silently
//! degrade cache hits or consume entries resolution still needs; here the
//! order is fixed by the sequence of calls in [`process_block`].
//!
//! In strict mode an unresolved receipt aborts the whole block before any
//! receipt record is persisted; in non-strict mode the block height is
//! recorded in the `unresolved_blocks` audit table and the resolved subset
//! is persisted anyway.

use vstd::prelude::*;

use crate::cache::ReceiptsCache;
use crate::resolved::ResolvedMap;
use crate::resolver::{
    all_resolved, cache_resolve_fold, chunk_resolution, collect_output_rows,
    find_tx_hashes_for_receipts, insert_pairs, output_pairs,
    partition_resolved, propagate_output_data, propagation_pairs, resolved_action_rows,
    resolved_data_rows, spec_all_resolved, ReceiptRecord,
};
use crate::store::{lemma_upsert_all_append, upsert_all, LineageStore};
use crate::types::{
    ExecutionOutcome, LineageError, Receipt, ReceiptOrDataId, RefIdView, Transaction,
};

verus! {

/// The `transactions` rows one chunk contributes: converted-into receipt id
/// keyed to the transaction hash.
pub open spec fn tx_kv_pairs(txs: Seq<Transaction>) -> Seq<(Seq<char>, Seq<char>)> {
    Seq::new(
        txs.len(),
        |i: int| (txs[i].converted_into_receipt_id@, txs[i].transaction_hash@),
    )
}

/// The cache after seeding, when nothing was evicted: each transaction's
/// converted-into receipt id keyed to its hash, first writer kept.
pub open spec fn seed_cache_fold(c: Map<RefIdView, Seq<char>>, txs: Seq<Transaction>) -> Map<
    RefIdView,
    Seq<char>,
>
    decreases txs.len(),
{
    if txs.len() == 0 {
        c
    } else {
        let prev = seed_cache_fold(c, txs.drop_last());
        let k = RefIdView::ReceiptId(txs.last().converted_into_receipt_id@);
        if prev.dom().contains(k) {
            prev
        } else {
            prev.insert(k, txs.last().transaction_hash@)
        }
    }
}

/// Seeding can only grow the cache by the number of transactions.
proof fn lemma_seed_cache_fold_len(c: Map<RefIdView, Seq<char>>, txs: Seq<Transaction>)
    requires
        c.dom().finite(),
    ensures
        seed_cache_fold(c, txs).dom().finite(),
        seed_cache_fold(c, txs).dom().len() <= c.dom().len() + txs.len(),
    decreases txs.len(),
{
    if txs.len() > 0 {
        lemma_seed_cache_fold_len(c, txs.drop_last());
    }
}

/// A duplicate causal edge: two transactions of the batch converted into
/// the same receipt id, or a seed that would overwrite a cached entry with
/// a different hash.  Either is a source-data anomaly or a resolver bug.
pub open spec fn seed_conflict(c: Map<RefIdView, Seq<char>>, txs: Seq<Transaction>) -> bool {
    ||| exists|i: int, j: int|
        0 <= i < j < txs.len() && txs[i].converted_into_receipt_id@
            == txs[j].converted_into_receipt_id@
    ||| exists|i: int|
        0 <= i < txs.len() && #[trigger] c.dom().contains(
            RefIdView::ReceiptId(txs[i].converted_into_receipt_id@),
        ) && c[RefIdView::ReceiptId(txs[i].converted_into_receipt_id@)]
            != txs[i].transaction_hash@
}

/// Persist the chunk's transactions and seed the cache: for every
/// transaction, the receipt id it was converted into is cached with the
/// transaction's hash, so the receipt stage can resolve it without touching
/// the store.
///
/// Fails, touching nothing, when the batch carries a duplicate causal edge;
/// re-seeding an id already cached with the same hash is a no-op, so replay
/// is harmless.
pub fn store_chunk_transactions(
    store: &mut LineageStore,
    cache: &mut ReceiptsCache,
    transactions: &Vec<Transaction>,
) -> (r: Result<(), LineageError>)
    requires
        old(store).wf(),
        old(cache).wf(),
    ensures
        final(cache).wf(),
        final(cache).spec_capacity() == old(cache).spec_capacity(),
        final(store).wf(),
        (r is Err) == seed_conflict(old(cache)@, transactions@),
        (match r {
            Err(e) => {
                &&& e is DuplicateCausalEdge
                &&& final(store)@ == old(store)@
                &&& final(cache)@ == old(cache)@
            },
            Ok(_) => {
                &&& final(store)@ == (crate::store::StoreView {
                    transactions: upsert_all(old(store)@.transactions, tx_kv_pairs(transactions@)),
                    ..old(store)@
                })
                &&& forall|k: RefIdView| #[trigger]
                    final(cache)@.dom().contains(k) ==> ((exists|i: int|
                        0 <= i < transactions@.len() && k == RefIdView::ReceiptId(
                            transactions@[i].converted_into_receipt_id@,
                        ) && final(cache)@[k] == transactions@[i].transaction_hash@) || (old(
                        cache,
                    )@.dom().contains(k) && final(cache)@[k] == old(cache)@[k]))
                &&& old(cache)@.dom().len() + transactions@.len() <= old(cache).spec_capacity()
                    ==> final(cache)@ == seed_cache_fold(old(cache)@, transactions@)
            },
        }),
{
    let n = transactions.len();
    // Validation pass: surface a duplicate causal edge before writing
    // anything.
    for i in 0..n
        invariant
            n == transactions.len(),
            old(store).wf(),
            old(cache).wf(),
            cache.wf(),
            cache.spec_capacity() == old(cache).spec_capacity(),
            cache@ == old(cache)@,
            store == old(store),
            forall|p: int, q: int|
                0 <= p < q < i ==> transactions@[p].converted_into_receipt_id@
                    != transactions@[q].converted_into_receipt_id@,
            forall|p: int|
                0 <= p < i ==> (#[trigger] old(cache)@.dom().contains(
                    RefIdView::ReceiptId(transactions@[p].converted_into_receipt_id@),
                ) ==> old(cache)@[RefIdView::ReceiptId(transactions@[p].converted_into_receipt_id@)]
                    == transactions@[p].transaction_hash@),
    {
        for j in 0..i
            invariant
                n == transactions.len(),
                0 <= i < n,
                old(store).wf(),
                old(cache).wf(),
                cache.wf(),
                cache.spec_capacity() == old(cache).spec_capacity(),
                cache@ == old(cache)@,
                store == old(store),
                forall|q: int|
                    0 <= q < j ==> transactions@[q].converted_into_receipt_id@
                        != transactions@[i as int].converted_into_receipt_id@,
        {
            if transactions[j].converted_into_receipt_id
                == transactions[i].converted_into_receipt_id {
                proof {
                    assert(transactions@[j as int].converted_into_receipt_id@
                        == transactions@[i as int].converted_into_receipt_id@);
                    assert(seed_conflict(old(cache)@, transactions@));
                }
                return Err(
                    LineageError::DuplicateCausalEdge {
                        receipt_id: transactions[i].converted_into_receipt_id.clone(),
                    },
                );
            }
        }
        let key = ReceiptOrDataId::ReceiptId(transactions[i].converted_into_receipt_id.clone());
        match cache.get(&key) {
            Some(h) => {
                if !(h == transactions[i].transaction_hash) {
                    proof {
                        assert(old(cache)@.dom().contains(
                            RefIdView::ReceiptId(
                                transactions@[i as int].converted_into_receipt_id@,
                            ),
                        ) && old(cache)@[RefIdView::ReceiptId(
                            transactions@[i as int].converted_into_receipt_id@,
                        )] != transactions@[i as int].transaction_hash@);
                        assert(seed_conflict(old(cache)@, transactions@));
                    }
                    return Err(
                        LineageError::DuplicateCausalEdge {
                            receipt_id: transactions[i].converted_into_receipt_id.clone(),
                        },
                    );
                }
            },
            None => {},
        }
    }
    // Apply pass: seed the cache and upsert the rows.
    let ghost pairs = tx_kv_pairs(transactions@);
    for i in 0..n
        invariant
            n == transactions.len(),
            cache.wf(),
            cache.spec_capacity() == old(cache).spec_capacity(),
            store.wf(),
            old(cache).wf(),
            pairs == tx_kv_pairs(transactions@),
            store@ == (crate::store::StoreView {
                transactions: upsert_all(
                    old(store)@.transactions,
                    tx_kv_pairs(transactions@).take(i as int),
                ),
                ..old(store)@
            }),
            forall|k: RefIdView| #[trigger]
                cache@.dom().contains(k) ==> ((exists|p: int|
                    0 <= p < i && k == RefIdView::ReceiptId(
                        transactions@[p].converted_into_receipt_id@,
                    ) && cache@[k] == transactions@[p].transaction_hash@) || (old(
                    cache,
                )@.dom().contains(k) && cache@[k] == old(cache)@[k])),
            old(cache)@.dom().len() + transactions@.len() <= old(cache).spec_capacity() ==> cache@
                == seed_cache_fold(old(cache)@, transactions@.take(i as int)),
    {
        let ghost pre = cache@;
        proof {
            assert(transactions@.take(i + 1).drop_last() =~= transactions@.take(i as int));
            assert(transactions@.take(i + 1).last() == transactions@[i as int]);
            assert(tx_kv_pairs(transactions@).take(i + 1).drop_last() =~= tx_kv_pairs(
                transactions@,
            ).take(i as int));
            if old(cache)@.dom().len() + transactions@.len() <= old(cache).spec_capacity() {
                lemma_seed_cache_fold_len(old(cache)@, transactions@.take(i as int));
                assert(pre.dom().len() < cache.spec_capacity());
            }
        }
        let key = ReceiptOrDataId::ReceiptId(transactions[i].converted_into_receipt_id.clone());
        let _ = cache.peek_or_set(key, transactions[i].transaction_hash.clone());
        proof {
            assert forall|k: RefIdView| #[trigger]
                cache@.dom().contains(k) implies ((exists|p: int|
                0 <= p < i + 1 && k == RefIdView::ReceiptId(
                    transactions@[p].converted_into_receipt_id@,
                ) && cache@[k] == transactions@[p].transaction_hash@) || (old(
                cache,
            )@.dom().contains(k) && cache@[k] == old(cache)@[k])) by {
                if k == RefIdView::ReceiptId(transactions@[i as int].converted_into_receipt_id@)
                    && !pre.dom().contains(k) {
                    assert(cache@[k] == transactions@[i as int].transaction_hash@);
                } else {
                    assert(pre.dom().contains(k) && cache@[k] == pre[k]);
                }
            }
        }
        store.record_transaction(
            transactions[i].converted_into_receipt_id.clone(),
            transactions[i].transaction_hash.clone(),
        );
    }
    proof {
        assert(tx_kv_pairs(transactions@).take(n as int) =~= tx_kv_pairs(transactions@));
        assert(transactions@.take(n as int) =~= transactions@);
    }
    Ok(())
}


/// The `execution_outcomes__receipts` rows of a chunk, flattened in order:
/// each produced receipt id with the receipt whose execution produced it,
/// numbered by position.
pub open spec fn outcome_rows(outs: Seq<ExecutionOutcome>) -> Seq<(usize, Seq<char>, Seq<char>)>
    decreases outs.len(),
{
    if outs.len() == 0 {
        Seq::empty()
    } else {
        let rest = outcome_rows(outs.drop_last());
        let o = outs.last();
        rest + Seq::new(
            o.produced_receipt_ids@.len(),
            |i: int| (((rest.len() + i) as usize), o.executed_receipt_id@,
            o.produced_receipt_ids@[i]@),
        )
    }
}

/// The key/value projection of outcome rows for the store: produced receipt
/// id keyed to the executed receipt id.
pub open spec fn produced_kv(rows: Seq<(usize, Seq<char>, Seq<char>)>) -> Seq<
    (Seq<char>, Seq<char>),
> {
    Seq::new(rows.len(), |i: int| (rows[i].2, rows[i].1))
}

/// How many produced receipt ids a chunk's outcomes carry in all.
pub open spec fn total_produced(outs: Seq<ExecutionOutcome>) -> nat
    decreases outs.len(),
{
    if outs.len() == 0 {
        0
    } else {
        total_produced(outs.drop_last()) + outs.last().produced_receipt_ids@.len()
    }
}

proof fn lemma_total_produced_prefix(outs: Seq<ExecutionOutcome>, k: int)
    requires
        0 <= k <= outs.len(),
    ensures
        total_produced(outs.take(k)) <= total_produced(outs),
    decreases outs.len() - k,
{
    if k == outs.len() {
        assert(outs.take(k) =~= outs);
    } else {
        lemma_total_produced_prefix(outs, k + 1);
        assert(outs.take(k + 1).drop_last() =~= outs.take(k));
    }
}

/// A hash forwarded to every produced receipt id, in order, overwriting.
pub open spec fn insert_ids(
    c: Map<RefIdView, Seq<char>>,
    ids: Seq<String>,
    h: Seq<char>,
) -> Map<RefIdView, Seq<char>>
    decreases ids.len(),
{
    if ids.len() == 0 {
        c
    } else {
        insert_ids(c, ids.drop_last(), h).insert(RefIdView::ReceiptId(ids.last()@), h)
    }
}

proof fn lemma_insert_ids_len(c: Map<RefIdView, Seq<char>>, ids: Seq<String>, h: Seq<char>)
    requires
        c.dom().finite(),
    ensures
        insert_ids(c, ids, h).dom().finite(),
        insert_ids(c, ids, h).dom().len() <= c.dom().len() + ids.len(),
    decreases ids.len(),
{
    if ids.len() > 0 {
        lemma_insert_ids_len(c, ids.drop_last(), h);
    }
}

/// One outcome's cache effect, when nothing is evicted: the executed
/// receipt's entry is consumed, and if it was present its hash is forwarded
/// to every produced receipt id.
pub open spec fn outcome_cache_step(
    c: Map<RefIdView, Seq<char>>,
    o: ExecutionOutcome,
) -> Map<RefIdView, Seq<char>> {
    let k = RefIdView::ReceiptId(o.executed_receipt_id@);
    if c.dom().contains(k) {
        insert_ids(c.remove(k), o.produced_receipt_ids@, c[k])
    } else {
        c
    }
}

/// The cache after a chunk's outcomes, in order, when nothing is evicted.
pub open spec fn outcome_cache_fold(
    c: Map<RefIdView, Seq<char>>,
    outs: Seq<ExecutionOutcome>,
) -> Map<RefIdView, Seq<char>>
    decreases outs.len(),
{
    if outs.len() == 0 {
        c
    } else {
        outcome_cache_step(outcome_cache_fold(c, outs.drop_last()), outs.last())
    }
}

proof fn lemma_outcome_cache_fold_len(c: Map<RefIdView, Seq<char>>, outs: Seq<ExecutionOutcome>)
    requires
        c.dom().finite(),
    ensures
        outcome_cache_fold(c, outs).dom().finite(),
        outcome_cache_fold(c, outs).dom().len() <= c.dom().len() + total_produced(outs),
    decreases outs.len(),
{
    if outs.len() > 0 {
        lemma_outcome_cache_fold_len(c, outs.drop_last());
        let prev = outcome_cache_fold(c, outs.drop_last());
        let o = outs.last();
        let k = RefIdView::ReceiptId(o.executed_receipt_id@);
        if prev.dom().contains(k) {
            lemma_insert_ids_len(prev.remove(k), o.produced_receipt_ids@, prev[k]);
        }
    }
}

/// Persist the chunk's execution outcomes and settle the cache: each
/// outcome's executed receipt entry is consumed — the receipt has now been
/// observed for the last time — and, when it was present, its root hash is
/// forwarded to every produced child receipt, which lets a child in a later
/// block resolve purely from cache.
///
/// Returns the `execution_outcomes__receipts` rows in chunk order.  A
/// forwarding write to a full cache may evict its least recently used
/// entry, so the cache guarantee has the same two parts as forward
/// propagation: entries never appear from nowhere, and with room for every
/// produced id the result is exactly [`outcome_cache_fold`].
pub fn store_execution_outcomes_for_chunk(
    store: &mut LineageStore,
    cache: &mut ReceiptsCache,
    execution_outcomes: &Vec<ExecutionOutcome>,
) -> (r: Vec<(usize, String, String)>)
    requires
        old(store).wf(),
        old(cache).wf(),
    ensures
        final(cache).wf(),
        final(cache).spec_capacity() == old(cache).spec_capacity(),
        final(store).wf(),
        r.deep_view() == outcome_rows(execution_outcomes@),
        final(store)@ == (crate::store::StoreView {
            outcome_receipts: upsert_all(
                old(store)@.outcome_receipts,
                produced_kv(outcome_rows(execution_outcomes@)),
            ),
            ..old(store)@
        }),
        forall|k: RefIdView| #[trigger]
            final(cache)@.dom().contains(k) ==> ((old(cache)@.dom().contains(k) && final(cache)@[k]
                == old(cache)@[k]) || (exists|i: int, j: int|
                0 <= i < execution_outcomes@.len() && 0 <= j
                    < execution_outcomes@[i].produced_receipt_ids@.len() && k
                    == RefIdView::ReceiptId(
                    execution_outcomes@[i].produced_receipt_ids@[j]@,
                ))),
        old(cache)@.dom().len() + total_produced(execution_outcomes@) <= old(
            cache,
        ).spec_capacity() ==> final(cache)@ == outcome_cache_fold(
            old(cache)@,
            execution_outcomes@,
        ),
{
    let ghost outs = execution_outcomes@;
    let mut rows: Vec<(usize, String, String)> = Vec::new();
    let n = execution_outcomes.len();
    for i in 0..n
        invariant
            n == execution_outcomes.len(),
            outs == execution_outcomes@,
            old(cache).wf(),
            cache.wf(),
            cache.spec_capacity() == old(cache).spec_capacity(),
            store.wf(),
            rows.deep_view() =~= outcome_rows(outs.take(i as int)),
            store@ == (crate::store::StoreView {
                outcome_receipts: upsert_all(
                    old(store)@.outcome_receipts,
                    produced_kv(rows.deep_view()),
                ),
                ..old(store)@
            }),
            forall|k: RefIdView| #[trigger]
                cache@.dom().contains(k) ==> ((old(cache)@.dom().contains(k) && cache@[k] == old(
                    cache,
                )@[k]) || (exists|p: int, q: int|
                    0 <= p < outs.len() && 0 <= q < outs[p].produced_receipt_ids@.len() && k
                        == RefIdView::ReceiptId(outs[p].produced_receipt_ids@[q]@))),
            old(cache)@.dom().len() + total_produced(outs) <= old(cache).spec_capacity() ==> cache@
                == outcome_cache_fold(old(cache)@, outs.take(i as int)),
    {
        proof {
            assert(outs.take(i + 1).drop_last() =~= outs.take(i as int));
            assert(outs.take(i + 1).last() == outs[i as int]);
        }
        let ghost pre_outcome = cache@;
        let ghost rest = outcome_rows(outs.take(i as int));
        let executed = execution_outcomes[i].executed_receipt_id.clone();
        let key = ReceiptOrDataId::ReceiptId(executed.clone());
        let parent = cache.remove(&key);
        let m = execution_outcomes[i].produced_receipt_ids.len();
        for j in 0..m
            invariant
                n == execution_outcomes.len(),
                0 <= i < n,
                outs == execution_outcomes@,
                m == outs[i as int].produced_receipt_ids@.len(),
                executed@ == outs[i as int].executed_receipt_id@,
                old(cache).wf(),
                cache.wf(),
                cache.spec_capacity() == old(cache).spec_capacity(),
                store.wf(),
                rest == outcome_rows(outs.take(i as int)),
                rows.deep_view() =~= rest + Seq::new(
                    j as nat,
                    |t: int| (((rest.len() + t) as usize), outs[i as int].executed_receipt_id@,
                    outs[i as int].produced_receipt_ids@[t]@),
                ),
                rows.deep_view().len() == rest.len() + j,
                store@ == (crate::store::StoreView {
                    outcome_receipts: upsert_all(
                        old(store)@.outcome_receipts,
                        produced_kv(rows.deep_view()),
                    ),
                    ..old(store)@
                }),
                (match parent {
                    Some(h) => pre_outcome.dom().contains(
                        RefIdView::ReceiptId(outs[i as int].executed_receipt_id@),
                    ) && h@ == pre_outcome[RefIdView::ReceiptId(
                        outs[i as int].executed_receipt_id@,
                    )],
                    None => !pre_outcome.dom().contains(
                        RefIdView::ReceiptId(outs[i as int].executed_receipt_id@),
                    ),
                }),
                (match parent {
                    Some(h) => old(cache)@.dom().len() + total_produced(outs) <= old(
                        cache,
                    ).spec_capacity() ==> cache@ == insert_ids(
                        pre_outcome.remove(
                            RefIdView::ReceiptId(outs[i as int].executed_receipt_id@),
                        ),
                        outs[i as int].produced_receipt_ids@.take(j as int),
                        h@,
                    ),
                    None => cache@ == pre_outcome,
                }),
                forall|k: RefIdView| #[trigger]
                    pre_outcome.dom().contains(k) ==> ((old(cache)@.dom().contains(k)
                        && pre_outcome[k] == old(cache)@[k]) || (exists|p: int, q: int|
                        0 <= p < outs.len() && 0 <= q < outs[p].produced_receipt_ids@.len() && k
                            == RefIdView::ReceiptId(outs[p].produced_receipt_ids@[q]@))),
                forall|k: RefIdView| #[trigger]
                    cache@.dom().contains(k) ==> ((old(cache)@.dom().contains(k) && cache@[k]
                        == old(cache)@[k]) || (exists|p: int, q: int|
                        0 <= p < outs.len() && 0 <= q < outs[p].produced_receipt_ids@.len() && k
                            == RefIdView::ReceiptId(outs[p].produced_receipt_ids@[q]@))),
                old(cache)@.dom().len() + total_produced(outs) <= old(cache).spec_capacity()
                    ==> pre_outcome == outcome_cache_fold(old(cache)@, outs.take(i as int)),
        {
            let ghost pre = cache@;
            let ghost prev_rows = rows.deep_view();
            let produced = execution_outcomes[i].produced_receipt_ids[j].clone();
            match &parent {
                Some(h) => {
                    proof {
                        if old(cache)@.dom().len() + total_produced(outs) <= old(
                            cache,
                        ).spec_capacity() {
                            lemma_outcome_cache_fold_len(old(cache)@, outs.take(i as int));
                            lemma_insert_ids_len(
                                pre_outcome.remove(
                                    RefIdView::ReceiptId(outs[i as int].executed_receipt_id@),
                                ),
                                outs[i as int].produced_receipt_ids@.take(j as int),
                                h@,
                            );
                            lemma_total_produced_prefix(outs, i + 1);
                            assert(outs.take(i + 1).drop_last() =~= outs.take(i as int));
                            assert(outs.take(i + 1).last() == outs[i as int]);
                            assert(total_produced(outs.take(i + 1)) == total_produced(
                                outs.take(i as int),
                            ) + outs[i as int].produced_receipt_ids@.len());
                            assert(pre_outcome == outcome_cache_fold(
                                old(cache)@,
                                outs.take(i as int),
                            ));
                            assert(pre_outcome.dom().finite());
                            assert(pre_outcome.dom().contains(
                                RefIdView::ReceiptId(outs[i as int].executed_receipt_id@),
                            ));
                            assert(pre_outcome.remove(
                                RefIdView::ReceiptId(outs[i as int].executed_receipt_id@),
                            ).dom() =~= pre_outcome.dom().remove(
                                RefIdView::ReceiptId(outs[i as int].executed_receipt_id@),
                            ));
                            assert(pre_outcome.dom().remove(
                                RefIdView::ReceiptId(outs[i as int].executed_receipt_id@),
                            ).len() == pre_outcome.dom().len() - 1);
                            assert(pre.dom().len() < cache.spec_capacity());
                        }
                    }
                    let produced_key = ReceiptOrDataId::ReceiptId(produced.clone());
                    cache.set(produced_key, h.clone());
                    proof {
                        assert(outs[i as int].produced_receipt_ids@.take(j + 1).drop_last()
                            =~= outs[i as int].produced_receipt_ids@.take(j as int));
                        assert(outs[i as int].produced_receipt_ids@.take(j + 1).last()
                            == outs[i as int].produced_receipt_ids@[j as int]);
                        if old(cache)@.dom().len() + total_produced(outs) <= old(
                            cache,
                        ).spec_capacity() {
                            assert(cache@ == insert_ids(
                                pre_outcome.remove(
                                    RefIdView::ReceiptId(outs[i as int].executed_receipt_id@),
                                ),
                                outs[i as int].produced_receipt_ids@.take(j + 1),
                                h@,
                            ));
                        }
                        assert forall|k: RefIdView| #[trigger]
                            cache@.dom().contains(k) implies ((old(cache)@.dom().contains(k)
                            && cache@[k] == old(cache)@[k]) || (exists|p: int, q: int|
                            0 <= p < outs.len() && 0 <= q < outs[p].produced_receipt_ids@.len()
                                && k == RefIdView::ReceiptId(
                                outs[p].produced_receipt_ids@[q]@,
                            ))) by {
                            if k == RefIdView::ReceiptId(
                                outs[i as int].produced_receipt_ids@[j as int]@,
                            ) {
                                assert(0 <= i < outs.len() && 0 <= j
                                    < outs[i as int].produced_receipt_ids@.len());
                            } else {
                                assert(pre.dom().contains(k) && cache@[k] == pre[k]);
                            }
                        }
                    }
                },
                None => {},
            }
            rows.push((rows.len(), executed.clone(), produced));
            proof {
                assert(rows.deep_view() =~= prev_rows.push(
                    (((rest.len() + j) as usize), outs[i as int].executed_receipt_id@,
                    outs[i as int].produced_receipt_ids@[j as int]@),
                ));
                assert(rows.deep_view() =~= rest + Seq::new(
                    (j + 1) as nat,
                    |t: int| (((rest.len() + t) as usize), outs[i as int].executed_receipt_id@,
                    outs[i as int].produced_receipt_ids@[t]@),
                ));
                assert(produced_kv(rows.deep_view()) =~= produced_kv(prev_rows).push(
                    (outs[i as int].produced_receipt_ids@[j as int]@,
                    outs[i as int].executed_receipt_id@),
                ));
                assert(produced_kv(rows.deep_view()).drop_last() =~= produced_kv(prev_rows));
            }
            store.record_execution_outcome_receipt(
                execution_outcomes[i].produced_receipt_ids[j].clone(),
                executed.clone(),
            );
        }
        proof {
            assert(outs[i as int].produced_receipt_ids@.take(m as int) =~= outs[
                i as int
            ].produced_receipt_ids@);
            assert(rows.deep_view() =~= outcome_rows(outs.take(i + 1)));
            if old(cache)@.dom().len() + total_produced(outs) <= old(cache).spec_capacity() {
                assert(cache@ == outcome_cache_fold(old(cache)@, outs.take(i + 1)));
            }
        }
    }
    proof {
        assert(outs.take(n as int) =~= outs);
    }
    rows
}


/// The key/value projection of receipt records for the store: receipt id
/// keyed to the root transaction hash.
pub open spec fn row_kv(rows: Seq<(usize, Seq<char>, Seq<char>)>) -> Seq<(Seq<char>, Seq<char>)> {
    Seq::new(rows.len(), |i: int| (rows[i].1, rows[i].2))
}

/// What one chunk's receipt stage produced: the resolved receipt records by
/// kind, the output rows of the resolved action receipts, and whether every
/// receipt of the chunk was resolved.
#[derive(Debug)]
pub struct ChunkRecords {
    pub action_receipts: Vec<ReceiptRecord>,
    pub data_receipts: Vec<ReceiptRecord>,
    pub outputs: Vec<(String, String)>,
    pub fully_resolved: bool,
}

/// Resolve one chunk's receipts and persist the resolved subset.
///
/// Resolution tries the cache, then tiers A to C against the store.  A
/// receipt still unresolved then is handled by mode: in strict mode the
/// whole chunk fails and nothing is persisted; otherwise the block height
/// is recorded in `unresolved_blocks` — once, however often the block is
/// replayed — and the unresolved receipts are left out of the persisted
/// records.  Resolved action receipts then forward their hashes to the data
/// items they announce, and the records are upserted.
pub fn store_chunk_receipts(
    store: &mut LineageStore,
    cache: &mut ReceiptsCache,
    strict_mode: bool,
    receipts: &Vec<Receipt>,
    block_height: u64,
) -> (r: Result<ChunkRecords, LineageError>)
    requires
        old(store).wf(),
        old(cache).wf(),
    ensures
        final(store).wf(),
        final(cache).wf(),
        final(cache).spec_capacity() == old(cache).spec_capacity(),
        (r is Err) == (strict_mode && !spec_all_resolved(
            receipts@,
            chunk_resolution(Map::empty(), old(cache)@, old(store)@, receipts@),
        )),
        (match r {
            Err(e) => {
                &&& e matches LineageError::UnresolvedReceipts { block_height: h } && h
                    == block_height
                &&& final(store)@ == old(store)@
                &&& final(cache)@ == cache_resolve_fold(Map::empty(), old(cache)@, receipts@).1
            },
            Ok(rec) => {
                let m = chunk_resolution(Map::empty(), old(cache)@, old(store)@, receipts@);
                let c1 = cache_resolve_fold(Map::empty(), old(cache)@, receipts@).1;
                let pairs = propagation_pairs(receipts@, m);
                &&& rec.fully_resolved == spec_all_resolved(receipts@, m)
                &&& rec.action_receipts.deep_view() == resolved_action_rows(receipts@, m)
                &&& rec.data_receipts.deep_view() == resolved_data_rows(receipts@, m)
                &&& rec.outputs.deep_view() == output_pairs(receipts@, m)
                &&& final(store)@ == (crate::store::StoreView {
                    action_receipts: upsert_all(
                        old(store)@.action_receipts,
                        row_kv(resolved_action_rows(receipts@, m)),
                    ),
                    outputs: upsert_all(old(store)@.outputs, output_pairs(receipts@, m)),
                    unresolved_blocks: (if spec_all_resolved(receipts@, m) {
                        old(store)@.unresolved_blocks
                    } else {
                        old(store)@.unresolved_blocks.insert(block_height)
                    }),
                    ..old(store)@
                })
                &&& forall|k: RefIdView| #[trigger]
                    final(cache)@.dom().contains(k) ==> ((exists|i: int|
                        0 <= i < pairs.len() && pairs[i] == (k, final(cache)@[k])) || (
                    c1.dom().contains(k) && final(cache)@[k] == c1[k]))
                &&& c1.dom().len() + pairs.len() <= old(cache).spec_capacity() ==> final(cache)@
                    == insert_pairs(c1, pairs)
            },
        }),
{
    let resolved = find_tx_hashes_for_receipts(cache, store, receipts);
    let complete = all_resolved(receipts, &resolved);
    if !complete && strict_mode {
        return Err(LineageError::UnresolvedReceipts { block_height });
    }
    let rec = persist_resolved_chunk(store, cache, receipts, &resolved, block_height);
    Ok(rec)
}

/// Persist one chunk's resolution result: record the block as unresolved if
/// any receipt is missing a root hash, forward the resolved action
/// receipts' hashes to their announced data items, and upsert the resolved
/// records.
pub fn persist_resolved_chunk(
    store: &mut LineageStore,
    cache: &mut ReceiptsCache,
    receipts: &Vec<Receipt>,
    resolved: &ResolvedMap,
    block_height: u64,
) -> (rec: ChunkRecords)
    requires
        old(store).wf(),
        old(cache).wf(),
        resolved.wf(),
    ensures
        final(store).wf(),
        final(cache).wf(),
        final(cache).spec_capacity() == old(cache).spec_capacity(),
        rec.fully_resolved == spec_all_resolved(receipts@, resolved@),
        rec.action_receipts.deep_view() == resolved_action_rows(receipts@, resolved@),
        rec.data_receipts.deep_view() == resolved_data_rows(receipts@, resolved@),
        rec.outputs.deep_view() == output_pairs(receipts@, resolved@),
        final(store)@ == (crate::store::StoreView {
            action_receipts: upsert_all(
                old(store)@.action_receipts,
                row_kv(resolved_action_rows(receipts@, resolved@)),
            ),
            outputs: upsert_all(old(store)@.outputs, output_pairs(receipts@, resolved@)),
            unresolved_blocks: (if spec_all_resolved(receipts@, resolved@) {
                old(store)@.unresolved_blocks
            } else {
                old(store)@.unresolved_blocks.insert(block_height)
            }),
            ..old(store)@
        }),
        forall|k: RefIdView| #[trigger]
            final(cache)@.dom().contains(k) ==> ((exists|i: int|
                0 <= i < propagation_pairs(receipts@, resolved@).len() && propagation_pairs(
                    receipts@,
                    resolved@,
                )[i] == (k, final(cache)@[k])) || (old(cache)@.dom().contains(k) && final(cache)@[k]
                == old(cache)@[k])),
        old(cache)@.dom().len() + propagation_pairs(receipts@, resolved@).len() <= old(
            cache,
        ).spec_capacity() ==> final(cache)@ == insert_pairs(
            old(cache)@,
            propagation_pairs(receipts@, resolved@),
        ),
{
    let complete = all_resolved(receipts, resolved);
    if !complete {
        store.record_unresolved_block(block_height);
    }
    let ghost s1 = store@;
    propagate_output_data(cache, receipts, resolved);
    let (action_rows, data_rows) = partition_resolved(receipts, resolved);
    let output_rows = collect_output_rows(receipts, resolved);
    let na = action_rows.len();
    for i in 0..na
        invariant
            na == action_rows.len(),
            store.wf(),
            action_rows.deep_view() == resolved_action_rows(receipts@, resolved@),
            store@ == (crate::store::StoreView {
                action_receipts: upsert_all(
                    s1.action_receipts,
                    row_kv(action_rows.deep_view()).take(i as int),
                ),
                ..s1
            }),
    {
        proof {
            assert(row_kv(action_rows.deep_view()).take(i + 1).drop_last() =~= row_kv(
                action_rows.deep_view(),
            ).take(i as int));
            assert(row_kv(action_rows.deep_view()).take(i + 1).last() == (
                action_rows.deep_view()[i as int].1,
                action_rows.deep_view()[i as int].2,
            ));
        }
        store.record_action_receipt(action_rows[i].1.clone(), action_rows[i].2.clone());
    }
    proof {
        assert(row_kv(action_rows.deep_view()).take(na as int) =~= row_kv(
            action_rows.deep_view(),
        ));
    }
    let ghost s2 = store@;
    let no = output_rows.len();
    for i in 0..no
        invariant
            no == output_rows.len(),
            store.wf(),
            output_rows.deep_view() == output_pairs(receipts@, resolved@),
            store@ == (crate::store::StoreView {
                outputs: upsert_all(s2.outputs, output_rows.deep_view().take(i as int)),
                ..s2
            }),
    {
        proof {
            assert(output_rows.deep_view().take(i + 1).drop_last() =~= output_rows.deep_view().take(
                i as int,
            ));
            assert(output_rows.deep_view().take(i + 1).last() == output_rows.deep_view()[i as int]);
        }
        store.record_action_receipt_output(output_rows[i].0.clone(), output_rows[i].1.clone());
    }
    proof {
        assert(output_rows.deep_view().take(no as int) =~= output_rows.deep_view());
    }
    ChunkRecords {
        action_receipts: action_rows,
        data_receipts: data_rows,
        outputs: output_rows,
        fully_resolved: complete,
    }
}


/// Everything one block contributes to lineage processing: its height, the
/// transactions and receipts of its chunks, and the execution outcomes of
/// its shards.
pub struct BlockData {
    pub block_height: u64,
    pub transactions: Vec<Transaction>,
    pub chunks: Vec<Vec<Receipt>>,
    pub execution_outcomes: Vec<ExecutionOutcome>,
}

/// What one block's processing persisted, for the caller's sink: receipt
/// records by kind (indexed within their chunk), output rows, outcome rows,
/// and how many chunks were left partly unresolved.
#[derive(Debug)]
pub struct BlockRecords {
    pub action_receipts: Vec<ReceiptRecord>,
    pub data_receipts: Vec<ReceiptRecord>,
    pub outputs: Vec<(String, String)>,
    pub outcome_receipts: Vec<(usize, String, String)>,
    pub unresolved_chunks: usize,
}

/// Process one block through the fixed stage order: seed and persist the
/// transactions for the whole block; resolve every chunk's receipts; then
/// persist the resolved records and let the execution outcomes consume and
/// forward their cache entries.
///
/// A duplicate causal edge fails the block before anything is written.  In
/// strict mode an unresolved receipt fails the block after the seeding
/// stage, with no receipt record committed; in non-strict mode the height
/// is recorded in `unresolved_blocks` and the resolved subset is persisted.
pub fn process_block(
    store: &mut LineageStore,
    cache: &mut ReceiptsCache,
    strict_mode: bool,
    block: &BlockData,
) -> (r: Result<BlockRecords, LineageError>)
    requires
        old(store).wf(),
        old(cache).wf(),
    ensures
        final(store).wf(),
        final(cache).wf(),
        final(cache).spec_capacity() == old(cache).spec_capacity(),
        (match r {
            Err(e) => {
                &&& (e is DuplicateCausalEdge || e is UnresolvedReceipts)
                &&& (e is DuplicateCausalEdge ==> final(store)@ == old(store)@ && seed_conflict(
                    old(cache)@,
                    block.transactions@,
                ))
                &&& (e matches LineageError::UnresolvedReceipts { block_height: h } ==> {
                    &&& strict_mode
                    &&& h == block.block_height
                    &&& !seed_conflict(old(cache)@, block.transactions@)
                    &&& final(store)@ == (crate::store::StoreView {
                        transactions: upsert_all(
                            old(store)@.transactions,
                            tx_kv_pairs(block.transactions@),
                        ),
                        ..old(store)@
                    })
                })
            },
            Ok(rec) => {
                &&& !seed_conflict(old(cache)@, block.transactions@)
                &&& strict_mode ==> rec.unresolved_chunks == 0
                &&& rec.unresolved_chunks <= block.chunks@.len()
                &&& rec.outcome_receipts.deep_view() == outcome_rows(block.execution_outcomes@)
                &&& final(store)@ == (crate::store::StoreView {
                    transactions: upsert_all(
                        old(store)@.transactions,
                        tx_kv_pairs(block.transactions@),
                    ),
                    action_receipts: upsert_all(
                        old(store)@.action_receipts,
                        row_kv(rec.action_receipts.deep_view()),
                    ),
                    outputs: upsert_all(old(store)@.outputs, rec.outputs.deep_view()),
                    outcome_receipts: upsert_all(
                        old(store)@.outcome_receipts,
                        produced_kv(outcome_rows(block.execution_outcomes@)),
                    ),
                    unresolved_blocks: (if rec.unresolved_chunks > 0 {
                        old(store)@.unresolved_blocks.insert(block.block_height)
                    } else {
                        old(store)@.unresolved_blocks
                    }),
                })
            },
        }),
{
    // Stage: persist transactions and seed the cache, for the whole block,
    // before any receipt is resolved.
    match store_chunk_transactions(store, cache, &block.transactions) {
        Err(e) => {
            return Err(e);
        },
        Ok(_) => {},
    }
    let ghost s_seed = store@;
    // Stage: resolve every chunk.  In strict mode the whole block fails
    // before any receipt record is persisted.
    let mut resolved_maps: Vec<ResolvedMap> = Vec::new();
    let nc = block.chunks.len();
    for k in 0..nc
        invariant
            nc == block.chunks@.len(),
            s_seed == (crate::store::StoreView {
                transactions: upsert_all(
                    old(store)@.transactions,
                    tx_kv_pairs(block.transactions@),
                ),
                ..old(store)@
            }),
            !seed_conflict(old(cache)@, block.transactions@),
            store.wf(),
            cache.wf(),
            cache.spec_capacity() == old(cache).spec_capacity(),
            store@ == s_seed,
            resolved_maps@.len() == k,
            forall|t: int| 0 <= t < k ==> (#[trigger] resolved_maps@[t]).wf(),
            strict_mode ==> forall|t: int|
                0 <= t < k ==> spec_all_resolved(
                    (#[trigger] block.chunks@[t])@,
                    resolved_maps@[t]@,
                ),
    {
        let rm = find_tx_hashes_for_receipts(cache, store, &block.chunks[k]);
        if strict_mode {
            if !all_resolved(&block.chunks[k], &rm) {
                return Err(
                    LineageError::UnresolvedReceipts { block_height: block.block_height },
                );
            }
        }
        resolved_maps.push(rm);
    }
    // Stage: persist the resolved receipt records, record the block as
    // unresolved if any chunk was incomplete, and forward resolved hashes
    // to announced data items.
    let mut action_receipts: Vec<ReceiptRecord> = Vec::new();
    let mut data_receipts: Vec<ReceiptRecord> = Vec::new();
    let mut outputs: Vec<(String, String)> = Vec::new();
    let mut unresolved_chunks: usize = 0;
    for k in 0..nc
        invariant
            nc == block.chunks@.len(),
            s_seed == (crate::store::StoreView {
                transactions: upsert_all(
                    old(store)@.transactions,
                    tx_kv_pairs(block.transactions@),
                ),
                ..old(store)@
            }),
            !seed_conflict(old(cache)@, block.transactions@),
            resolved_maps@.len() == nc,
            forall|t: int| 0 <= t < nc ==> (#[trigger] resolved_maps@[t]).wf(),
            strict_mode ==> forall|t: int|
                0 <= t < nc ==> spec_all_resolved(
                    (#[trigger] block.chunks@[t])@,
                    resolved_maps@[t]@,
                ),
            store.wf(),
            cache.wf(),
            cache.spec_capacity() == old(cache).spec_capacity(),
            unresolved_chunks <= k,
            strict_mode ==> unresolved_chunks == 0,
            store@ == (crate::store::StoreView {
                action_receipts: upsert_all(
                    s_seed.action_receipts,
                    row_kv(action_receipts.deep_view()),
                ),
                outputs: upsert_all(s_seed.outputs, outputs.deep_view()),
                unresolved_blocks: (if unresolved_chunks > 0 {
                    s_seed.unresolved_blocks.insert(block.block_height)
                } else {
                    s_seed.unresolved_blocks
                }),
                ..s_seed
            }),
    {
        let ghost prev_action = action_receipts.deep_view();
        let ghost prev_outputs = outputs.deep_view();
        let ghost prev_store = store@;
        let mut rec = persist_resolved_chunk(
            store,
            cache,
            &block.chunks[k],
            &resolved_maps[k],
            block.block_height,
        );
        if !rec.fully_resolved {
            unresolved_chunks = unresolved_chunks + 1;
        }
        action_receipts.append(&mut rec.action_receipts);
        data_receipts.append(&mut rec.data_receipts);
        outputs.append(&mut rec.outputs);
        proof {
            let chunk_action = resolved_action_rows(
                block.chunks@[k as int]@,
                resolved_maps@[k as int]@,
            );
            let chunk_outputs = output_pairs(block.chunks@[k as int]@, resolved_maps@[k as int]@);
            assert(action_receipts.deep_view() =~= prev_action + chunk_action);
            assert(outputs.deep_view() =~= prev_outputs + chunk_outputs);
            assert(row_kv(prev_action + chunk_action) =~= row_kv(prev_action) + row_kv(
                chunk_action,
            ));
            lemma_upsert_all_append(
                s_seed.action_receipts,
                row_kv(prev_action),
                row_kv(chunk_action),
            );
            lemma_upsert_all_append(s_seed.outputs, prev_outputs, chunk_outputs);
            assert(store@.unresolved_blocks =~= (if unresolved_chunks > 0 {
                s_seed.unresolved_blocks.insert(block.block_height)
            } else {
                s_seed.unresolved_blocks
            }));
        }
    }
    // Stage: persist execution outcomes; each consumes its receipt's cache
    // entry and forwards the hash to the produced children.
    let outcome_receipts = store_execution_outcomes_for_chunk(
        store,
        cache,
        &block.execution_outcomes,
    );
    Ok(
        BlockRecords {
            action_receipts,
            data_receipts,
            outputs,
            outcome_receipts,
            unresolved_chunks,
        },
    )
}

} // verus!
