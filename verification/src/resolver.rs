//! The cascading lineage resolution algorithm.
//!
//! For the receipts of one chunk, root transaction hashes are recovered from
//! the cheapest source first: the in-process cache, then three batched store
//! queries — tier A joins persisted action-receipt outputs for data receipts,
//! tier B joins persisted execution outcomes for action receipts, tier C
//! reads the persisted transactions table.  Receipts are partitioned by kind
//! before querying, and each tier is asked once per chunk with the whole
//! batch of still-unknown ids.  After resolution, every resolved action
//! receipt forwards its hash to the data items it announced, so a future
//! data receipt can resolve from cache alone.

use vstd::prelude::*;

use crate::cache::ReceiptsCache;
use crate::resolved::ResolvedMap;
use crate::store::{join_rows, lookup_rows, HashRow, LineageStore};
use crate::types::{Receipt, ReceiptKind, ReceiptOrDataId, RefIdView};

verus! {

/// One step of the cache phase: a receipt already resolved is skipped; one
/// whose id the cache holds is resolved with the cached hash, and a data-id
/// entry is consumed by the hit.
pub open spec fn cache_resolve_step(
    st: (Map<RefIdView, Seq<char>>, Map<RefIdView, Seq<char>>),
    r: Receipt,
) -> (Map<RefIdView, Seq<char>>, Map<RefIdView, Seq<char>>) {
    let k = r.ref_id();
    if st.0.dom().contains(k) {
        st
    } else if st.1.dom().contains(k) {
        (
            st.0.insert(k, st.1[k]),
            if k is DataId {
                st.1.remove(k)
            } else {
                st.1
            },
        )
    } else {
        st
    }
}

/// The cache phase over a whole chunk, in receipt order: the resolutions
/// gathered so far and what the cache still holds.
pub open spec fn cache_resolve_fold(
    resolved0: Map<RefIdView, Seq<char>>,
    cache0: Map<RefIdView, Seq<char>>,
    rs: Seq<Receipt>,
) -> (Map<RefIdView, Seq<char>>, Map<RefIdView, Seq<char>>)
    decreases rs.len(),
{
    if rs.len() == 0 {
        (resolved0, cache0)
    } else {
        cache_resolve_step(cache_resolve_fold(resolved0, cache0, rs.drop_last()), rs.last())
    }
}

/// Resolve every receipt the cache can answer, consuming data-id entries.
///
/// Cache hits are added to `resolved`; an id already resolved is not looked
/// up again.  Only data-id hits change the cache, so nothing is evicted.
pub fn resolve_from_cache(cache: &mut ReceiptsCache, receipts: &Vec<Receipt>, resolved: &mut ResolvedMap)
    requires
        old(resolved).wf(),
        old(cache).wf(),
    ensures
        final(resolved).wf(),
        final(cache).spec_capacity() == old(cache).spec_capacity(),
        final(cache).wf(),
        (final(resolved)@, final(cache)@) == cache_resolve_fold(
            old(resolved)@,
            old(cache)@,
            receipts@,
        ),
{
    let n = receipts.len();
    for i in 0..n
        invariant
            n == receipts.len(),
            resolved.wf(),
            cache.wf(),
            cache.spec_capacity() == old(cache).spec_capacity(),
            (resolved@, cache@) == cache_resolve_fold(
                old(resolved)@,
                old(cache)@,
                receipts@.take(i as int),
            ),
    {
        proof {
            assert(receipts@.take(i + 1).drop_last() =~= receipts@.take(i as int));
            assert(receipts@.take(i + 1).last() == receipts@[i as int]);
        }
        let key = receipts[i].causal_ref();
        if !resolved.contains_ref(&key) {
            match cache.get(&key) {
                Some(h) => {
                    resolved.insert(key, h);
                },
                None => {},
            }
        }
    }
    proof {
        assert(receipts@.take(n as int) =~= receipts@);
    }
}

/// The data-item ids of receipts not yet resolved, in chunk order.
pub open spec fn unresolved_data_ids(rs: Seq<Receipt>, m: Map<RefIdView, Seq<char>>) -> Seq<
    Seq<char>,
>
    decreases rs.len(),
{
    if rs.len() == 0 {
        Seq::empty()
    } else {
        let rest = unresolved_data_ids(rs.drop_last(), m);
        let r = rs.last();
        match r.kind {
            ReceiptKind::Data { data_id } => if !m.dom().contains(r.ref_id()) {
                rest.push(data_id@)
            } else {
                rest
            },
            ReceiptKind::Action { .. } => rest,
        }
    }
}

/// The receipt ids of action receipts not yet resolved, in chunk order.
pub open spec fn unresolved_action_ids(rs: Seq<Receipt>, m: Map<RefIdView, Seq<char>>) -> Seq<
    Seq<char>,
>
    decreases rs.len(),
{
    if rs.len() == 0 {
        Seq::empty()
    } else {
        let rest = unresolved_action_ids(rs.drop_last(), m);
        let r = rs.last();
        match r.kind {
            ReceiptKind::Action { .. } => if !m.dom().contains(r.ref_id()) {
                rest.push(r.receipt_id@)
            } else {
                rest
            },
            ReceiptKind::Data { .. } => rest,
        }
    }
}

/// Partition the still-unresolved receipts by kind: the two kinds use
/// disjoint join paths, so each tier is queried with ids of one kind only.
pub fn partition_unresolved(receipts: &Vec<Receipt>, resolved: &ResolvedMap) -> (r: (
    Vec<String>,
    Vec<String>,
))
    requires
        resolved.wf(),
    ensures
        r.0.deep_view() == unresolved_data_ids(receipts@, resolved@),
        r.1.deep_view() == unresolved_action_ids(receipts@, resolved@),
{
    let mut data_ids: Vec<String> = Vec::new();
    let mut action_ids: Vec<String> = Vec::new();
    let n = receipts.len();
    for i in 0..n
        invariant
            n == receipts.len(),
            resolved.wf(),
            data_ids.deep_view() =~= unresolved_data_ids(receipts@.take(i as int), resolved@),
            action_ids.deep_view() =~= unresolved_action_ids(receipts@.take(i as int), resolved@),
    {
        proof {
            assert(receipts@.take(i + 1).drop_last() =~= receipts@.take(i as int));
            assert(receipts@.take(i + 1).last() == receipts@[i as int]);
        }
        let ghost prev_data = data_ids.deep_view();
        let ghost prev_action = action_ids.deep_view();
        let key = receipts[i].causal_ref();
        if !resolved.contains_ref(&key) {
            match &receipts[i].kind {
                ReceiptKind::Data { data_id } => {
                    data_ids.push(data_id.clone());
                    proof {
                        assert(data_ids.deep_view() =~= prev_data.push(
                            receipts@[i as int].kind->Data_data_id@,
                        ));
                    }
                },
                ReceiptKind::Action { .. } => {
                    action_ids.push(receipts[i].receipt_id.clone());
                    proof {
                        assert(action_ids.deep_view() =~= prev_action.push(
                            receipts@[i as int].receipt_id@,
                        ));
                    }
                },
            }
        }
    }
    proof {
        assert(receipts@.take(n as int) =~= receipts@);
    }
    (data_ids, action_ids)
}

/// Merge tier rows keyed by data-item id into the resolutions; an id
/// resolved by an earlier source keeps its earlier hash.
pub open spec fn apply_data_rows_map(
    m: Map<RefIdView, Seq<char>>,
    rows: Seq<(Seq<char>, Seq<char>)>,
) -> Map<RefIdView, Seq<char>>
    decreases rows.len(),
{
    if rows.len() == 0 {
        m
    } else {
        let prev = apply_data_rows_map(m, rows.drop_last());
        let k = RefIdView::DataId(rows.last().0);
        if prev.dom().contains(k) {
            prev
        } else {
            prev.insert(k, rows.last().1)
        }
    }
}

/// Merge tier rows keyed by receipt id into the resolutions; an id resolved
/// by an earlier source keeps its earlier hash.
pub open spec fn apply_receipt_rows_map(
    m: Map<RefIdView, Seq<char>>,
    rows: Seq<(Seq<char>, Seq<char>)>,
) -> Map<RefIdView, Seq<char>>
    decreases rows.len(),
{
    if rows.len() == 0 {
        m
    } else {
        let prev = apply_receipt_rows_map(m, rows.drop_last());
        let k = RefIdView::ReceiptId(rows.last().0);
        if prev.dom().contains(k) {
            prev
        } else {
            prev.insert(k, rows.last().1)
        }
    }
}

/// Record the hashes a tier returned for data-item ids.
pub fn apply_data_rows(resolved: &mut ResolvedMap, rows: &Vec<HashRow>)
    requires
        old(resolved).wf(),
    ensures
        final(resolved).wf(),
        final(resolved)@ == apply_data_rows_map(old(resolved)@, rows.deep_view()),
{
    let n = rows.len();
    for i in 0..n
        invariant
            n == rows.len(),
            resolved.wf(),
            resolved@ == apply_data_rows_map(old(resolved)@, rows.deep_view().take(i as int)),
    {
        proof {
            assert(rows.deep_view().take(i + 1).drop_last() =~= rows.deep_view().take(i as int));
            assert(rows.deep_view().take(i + 1).last() == rows.deep_view()[i as int]);
        }
        resolved.insert_if_absent(ReceiptOrDataId::DataId(rows[i].0.clone()), rows[i].1.clone());
    }
    proof {
        assert(rows.deep_view().take(n as int) =~= rows.deep_view());
    }
}

/// Record the hashes a tier returned for action receipt ids.
pub fn apply_receipt_rows(resolved: &mut ResolvedMap, rows: &Vec<HashRow>)
    requires
        old(resolved).wf(),
    ensures
        final(resolved).wf(),
        final(resolved)@ == apply_receipt_rows_map(old(resolved)@, rows.deep_view()),
{
    let n = rows.len();
    for i in 0..n
        invariant
            n == rows.len(),
            resolved.wf(),
            resolved@ == apply_receipt_rows_map(old(resolved)@, rows.deep_view().take(i as int)),
    {
        proof {
            assert(rows.deep_view().take(i + 1).drop_last() =~= rows.deep_view().take(i as int));
            assert(rows.deep_view().take(i + 1).last() == rows.deep_view()[i as int]);
        }
        resolved.insert_if_absent(ReceiptOrDataId::ReceiptId(rows[i].0.clone()), rows[i].1.clone());
    }
    proof {
        assert(rows.deep_view().take(n as int) =~= rows.deep_view());
    }
}

/// Whether every receipt of the chunk has a resolved root hash.
pub fn all_resolved(receipts: &Vec<Receipt>, resolved: &ResolvedMap) -> (r: bool)
    requires
        resolved.wf(),
    ensures
        r == (forall|i: int|
            0 <= i < receipts@.len() ==> resolved@.dom().contains(#[trigger] receipts@[i].ref_id())),
{
    let n = receipts.len();
    for i in 0..n
        invariant
            n == receipts.len(),
            resolved.wf(),
            forall|j: int|
                0 <= j < i ==> resolved@.dom().contains(#[trigger] receipts@[j].ref_id()),
    {
        let key = receipts[i].causal_ref();
        if !resolved.contains_ref(&key) {
            return false;
        }
    }
    true
}


/// The cache writes one resolved receipt contributes: an action receipt
/// whose root hash is known forwards that hash to every data item it
/// announced; other receipts contribute nothing.
pub open spec fn receipt_propagation_pairs(r: Receipt, m: Map<RefIdView, Seq<char>>) -> Seq<
    (RefIdView, Seq<char>),
> {
    match r.kind {
        ReceiptKind::Action { output_data_receivers } => {
            let k = RefIdView::ReceiptId(r.receipt_id@);
            if m.dom().contains(k) {
                Seq::new(
                    output_data_receivers@.len(),
                    |i: int| (RefIdView::DataId(output_data_receivers@[i]@), m[k]),
                )
            } else {
                Seq::empty()
            }
        },
        ReceiptKind::Data { .. } => Seq::empty(),
    }
}

/// All forward-propagation writes of a chunk, in receipt order.
pub open spec fn propagation_pairs(rs: Seq<Receipt>, m: Map<RefIdView, Seq<char>>) -> Seq<
    (RefIdView, Seq<char>),
>
    decreases rs.len(),
{
    if rs.len() == 0 {
        Seq::empty()
    } else {
        receipt_propagation_pairs(rs.first(), m) + propagation_pairs(rs.drop_first(), m)
    }
}

/// The chunk's propagation writes split at receipt `i`.
pub proof fn lemma_propagation_pairs_split(rs: Seq<Receipt>, m: Map<RefIdView, Seq<char>>, i: int)
    requires
        0 <= i <= rs.len(),
    ensures
        propagation_pairs(rs, m) == propagation_pairs(rs.take(i), m) + propagation_pairs(
            rs.skip(i),
            m,
        ),
    decreases i,
{
    if i == 0 {
        assert(rs.take(0) =~= Seq::<Receipt>::empty());
        assert(rs.skip(0) =~= rs);
        assert(propagation_pairs(rs.take(0), m) + propagation_pairs(rs.skip(0), m)
            =~= propagation_pairs(rs, m));
    } else {
        lemma_propagation_pairs_split(rs.drop_first(), m, i - 1);
        assert(rs.take(i).first() == rs.first());
        assert(rs.take(i).drop_first() =~= rs.drop_first().take(i - 1));
        assert(rs.skip(i) =~= rs.drop_first().skip(i - 1));
        assert(propagation_pairs(rs.take(i), m) + propagation_pairs(rs.skip(i), m)
            =~= propagation_pairs(rs, m));
    }
}

/// A chunk's propagation writes applied in order, later writes winning.
pub open spec fn insert_pairs(
    m: Map<RefIdView, Seq<char>>,
    ps: Seq<(RefIdView, Seq<char>)>,
) -> Map<RefIdView, Seq<char>>
    decreases ps.len(),
{
    if ps.len() == 0 {
        m
    } else {
        insert_pairs(m, ps.drop_last()).insert(ps.last().0, ps.last().1)
    }
}

/// Applying writes can only grow the map by the number of writes.
pub proof fn lemma_insert_pairs_len(m: Map<RefIdView, Seq<char>>, ps: Seq<(RefIdView, Seq<char>)>)
    requires
        m.dom().finite(),
    ensures
        insert_pairs(m, ps).dom().finite(),
        insert_pairs(m, ps).dom().len() <= m.dom().len() + ps.len(),
    decreases ps.len(),
{
    if ps.len() > 0 {
        lemma_insert_pairs_len(m, ps.drop_last());
    }
}

/// Forward the root hash of every resolved action receipt to the data items
/// it announced, anticipating the data receipts of later blocks.
///
/// A write to a full cache may evict its least recently used entry, so the
/// guarantee has two parts: every entry afterwards either is one of the
/// propagated pairs or survived unchanged from before; and when the cache
/// has room for all the writes, the result is exactly the old entries with
/// every pair applied.
pub fn propagate_output_data(cache: &mut ReceiptsCache, receipts: &Vec<Receipt>, resolved: &ResolvedMap)
    requires
        resolved.wf(),
        old(cache).wf(),
    ensures
        final(cache).spec_capacity() == old(cache).spec_capacity(),
        final(cache).wf(),
        forall|k: RefIdView| #[trigger]
            final(cache)@.dom().contains(k) ==> ((exists|i: int|
                0 <= i < propagation_pairs(receipts@, resolved@).len() && propagation_pairs(
                    receipts@,
                    resolved@,
                )[i] == (k, final(cache)@[k])) || (old(cache)@.dom().contains(k) && final(cache)@[k]
                == old(cache)@[k])),
        old(cache)@.dom().len() + propagation_pairs(receipts@, resolved@).len() <= old(
            cache,
        ).spec_capacity() ==> final(cache)@ == insert_pairs(
            old(cache)@,
            propagation_pairs(receipts@, resolved@),
        ),
{
    let ghost full = propagation_pairs(receipts@, resolved@);
    let ghost mut done: Seq<(RefIdView, Seq<char>)> = Seq::empty();
    let n = receipts.len();
    for i in 0..n
        invariant
            n == receipts.len(),
            resolved.wf(),
            cache.wf(),
            cache.spec_capacity() == old(cache).spec_capacity(),
            old(cache).wf(),
            full == propagation_pairs(receipts@, resolved@),
            done == propagation_pairs(receipts@.take(i as int), resolved@),
            done.len() <= full.len(),
            full.take(done.len() as int) == done,
            forall|k: RefIdView| #[trigger]
                cache@.dom().contains(k) ==> ((exists|p: int|
                    0 <= p < done.len() && done[p] == (k, cache@[k])) || (old(
                    cache,
                )@.dom().contains(k) && cache@[k] == old(cache)@[k])),
            old(cache)@.dom().len() + full.len() <= old(cache).spec_capacity() ==> cache@
                == insert_pairs(old(cache)@, done),
    {
        proof {
            lemma_propagation_pairs_split(receipts@, resolved@, i as int);
            lemma_propagation_pairs_split(receipts@, resolved@, i + 1);
            assert(receipts@.take(i + 1).drop_last() =~= receipts@.take(i as int));
            assert(receipts@.take(i + 1) =~= receipts@.take(i as int).push(receipts@[i as int]));
            assert(receipts@.skip(i as int).first() == receipts@[i as int]);
            assert(receipts@.skip(i as int).drop_first() =~= receipts@.skip(i + 1));
            assert(propagation_pairs(receipts@.skip(i as int), resolved@)
                == receipt_propagation_pairs(receipts@[i as int], resolved@) + propagation_pairs(
                receipts@.skip(i + 1),
                resolved@,
            ));
        }
        let ghost rp = receipt_propagation_pairs(receipts@[i as int], resolved@);
        proof {
            assert(propagation_pairs(receipts@.take(i + 1), resolved@) =~= done + rp) by {
                lemma_propagation_pairs_split(receipts@.take(i + 1), resolved@, i as int);
                assert(receipts@.take(i + 1).take(i as int) =~= receipts@.take(i as int));
                assert(receipts@.take(i + 1).skip(i as int) =~= seq![receipts@[i as int]]);
                assert(seq![receipts@[i as int]].drop_first()
                    =~= Seq::<Receipt>::empty());
                assert(propagation_pairs(seq![receipts@[i as int]], resolved@) =~= rp);
            }
            assert(full =~= done + rp + propagation_pairs(receipts@.skip(i + 1), resolved@)) by {
                lemma_propagation_pairs_split(receipts@, resolved@, i + 1);
            }
        }
        match &receipts[i].kind {
            ReceiptKind::Action { output_data_receivers } => {
                let key = ReceiptOrDataId::ReceiptId(receipts[i].receipt_id.clone());
                match resolved.get(&key) {
                    Some(h) => {
                        let hash = h.clone();
                        let m = output_data_receivers.len();
                        proof {
                            assert(rp.len() == m);
                        }
                        for j in 0..m
                            invariant
                                n == receipts.len(),
                                0 <= i < n,
                                m == receipts@[i as int].kind->Action_output_data_receivers@.len(),
                                receipts@[i as int].kind is Action,
                                output_data_receivers@
                                    == receipts@[i as int].kind->Action_output_data_receivers@,
                                resolved.wf(),
                                cache.wf(),
                                cache.spec_capacity() == old(cache).spec_capacity(),
                                old(cache).wf(),
                                full == propagation_pairs(receipts@, resolved@),
                                rp == receipt_propagation_pairs(receipts@[i as int], resolved@),
                                rp.len() == m,
                                hash@ == resolved@[RefIdView::ReceiptId(
                                    receipts@[i as int].receipt_id@,
                                )],
                                resolved@.dom().contains(RefIdView::ReceiptId(
                                    receipts@[i as int].receipt_id@,
                                )),
                                done == propagation_pairs(receipts@.take(i as int), resolved@)
                                    + rp.take(j as int),
                                done.len() <= full.len(),
                                full.take(done.len() as int) == done,
                                forall|k: RefIdView| #[trigger]
                                    cache@.dom().contains(k) ==> ((exists|p: int|
                                        0 <= p < done.len() && done[p] == (k, cache@[k])) || (old(
                                        cache,
                                    )@.dom().contains(k) && cache@[k] == old(cache)@[k])),
                                old(cache)@.dom().len() + full.len() <= old(cache).spec_capacity()
                                    ==> cache@ == insert_pairs(old(cache)@, done),
                        {
                            let ghost pre = cache@;
                            let ghost pair = rp[j as int];
                            proof {
                                lemma_propagation_pairs_split(receipts@, resolved@, i as int);
                                assert(receipts@.skip(i as int).first() == receipts@[i as int]);
                                assert(receipts@.skip(i as int).drop_first() =~= receipts@.skip(
                                    i + 1,
                                ));
                                assert(propagation_pairs(receipts@.skip(i as int), resolved@)
                                    == rp + propagation_pairs(receipts@.skip(i + 1), resolved@));
                                assert(full == propagation_pairs(receipts@.take(i as int), resolved@)
                                    + (rp + propagation_pairs(receipts@.skip(i + 1), resolved@)));
                                assert(pair == (RefIdView::DataId(
                                    receipts@[i as int].kind->Action_output_data_receivers@[j as int]@,
                                ), hash@));
                                assert(rp.take(j + 1) =~= rp.take(j as int).push(pair));
                                assert(done.push(pair) =~= propagation_pairs(
                                    receipts@.take(i as int),
                                    resolved@,
                                ) + rp.take(j + 1));
                                assert(done.len() < full.len()) by {
                                    assert(full =~= done + (rp.skip(j as int) + propagation_pairs(
                                        receipts@.skip(i + 1),
                                        resolved@,
                                    ))) by {
                                        assert(rp.take(j as int) + rp.skip(j as int) =~= rp);
                                    }
                                    assert(rp.skip(j as int).len() >= 1);
                                }
                                assert(full.take(done.len() as int + 1) == done.push(pair)) by {
                                    assert(full =~= done + (rp.skip(j as int) + propagation_pairs(
                                        receipts@.skip(i + 1),
                                        resolved@,
                                    ))) by {
                                        assert(rp.take(j as int) + rp.skip(j as int) =~= rp);
                                    }
                                    assert(rp.skip(j as int)[0] == pair);
                                    assert(full.take(done.len() as int + 1) =~= done.push(pair));
                                }
                                if old(cache)@.dom().len() + full.len() <= old(
                                    cache,
                                ).spec_capacity() {
                                    lemma_insert_pairs_len(old(cache)@, done);
                                    assert(pre.dom().len() < cache.spec_capacity());
                                }
                            }
                            let data_key = ReceiptOrDataId::DataId(
                                output_data_receivers[j].clone(),
                            );
                            cache.set(data_key, hash.clone());
                            proof {
                                let done_prev = done;
                                done = done.push(pair);
                                assert(done.drop_last() =~= done_prev);
                                assert(done.last() == pair);
                                assert(insert_pairs(old(cache)@, done) == insert_pairs(
                                    old(cache)@,
                                    done_prev,
                                ).insert(pair.0, pair.1));
                                assert forall|k: RefIdView| #[trigger]
                                    cache@.dom().contains(k) implies ((exists|p: int|
                                    0 <= p < done.len() && done[p] == (k, cache@[k])) || (old(
                                    cache,
                                )@.dom().contains(k) && cache@[k] == old(cache)@[k])) by {
                                    if k == pair.0 {
                                        assert(done[done.len() - 1] == (k, cache@[k]));
                                    } else {
                                        assert(pre.dom().contains(k) && cache@[k] == pre[k]);
                                        if exists|p: int|
                                            0 <= p < done.len() - 1 && done.drop_last()[p] == (
                                            k,
                                            pre[k],
                                        ) {
                                            let p = choose|p: int|
                                                0 <= p < done.len() - 1 && done.drop_last()[p] == (
                                                k,
                                                pre[k],
                                                );
                                            assert(done[p] == (k, cache@[k]));
                                        }
                                    }
                                }
                            }
                        }
                        proof {
                            assert(rp.take(m as int) =~= rp);
                        }
                    },
                    None => {
                        proof {
                            assert(rp =~= Seq::<(RefIdView, Seq<char>)>::empty());
                            assert(done + rp =~= done);
                        }
                    },
                }
            },
            ReceiptKind::Data { .. } => {
                proof {
                    assert(rp =~= Seq::<(RefIdView, Seq<char>)>::empty());
                    assert(done + rp =~= done);
                }
            },
        }
        proof {
            done = propagation_pairs(receipts@.take(i + 1), resolved@);
        }
    }
    proof {
        assert(receipts@.take(n as int) =~= receipts@);
    }
}


/// Whether every receipt of the chunk is resolved in `m`.
pub open spec fn spec_all_resolved(rs: Seq<Receipt>, m: Map<RefIdView, Seq<char>>) -> bool {
    forall|i: int| 0 <= i < rs.len() ==> m.dom().contains(#[trigger] rs[i].ref_id())
}

/// The full multi-tier resolution of one chunk: the cache phase first, then
/// tier A for the data ids still unknown, then tiers B and C for the action
/// receipt ids still unknown after the cache phase.
pub open spec fn chunk_resolution(
    resolved0: Map<RefIdView, Seq<char>>,
    cache0: Map<RefIdView, Seq<char>>,
    store: crate::store::StoreView,
    rs: Seq<Receipt>,
) -> Map<RefIdView, Seq<char>> {
    let m1 = cache_resolve_fold(resolved0, cache0, rs).0;
    let dids = unresolved_data_ids(rs, m1);
    let aids = unresolved_action_ids(rs, m1);
    let m2 = apply_data_rows_map(m1, join_rows(store.outputs, store.action_receipts, dids));
    let m3 = apply_receipt_rows_map(
        m2,
        join_rows(store.outcome_receipts, store.action_receipts, aids),
    );
    apply_receipt_rows_map(m3, lookup_rows(store.transactions, aids))
}

/// Look for the root transaction hash of every receipt in the chunk: first
/// in the cache, then through the three persisted-store tiers, each queried
/// once with the batch of ids still unknown to it.
pub fn find_tx_hashes_for_receipts(
    cache: &mut ReceiptsCache,
    store: &LineageStore,
    receipts: &Vec<Receipt>,
) -> (r: ResolvedMap)
    requires
        old(cache).wf(),
        store.wf(),
    ensures
        r.wf(),
        r@ == chunk_resolution(Map::empty(), old(cache)@, store@, receipts@),
        final(cache).wf(),
        final(cache).spec_capacity() == old(cache).spec_capacity(),
        final(cache)@ == cache_resolve_fold(Map::empty(), old(cache)@, receipts@).1,
{
    let mut resolved = ResolvedMap::new();
    resolve_from_cache(cache, receipts, &mut resolved);
    let (data_ids, action_ids) = partition_unresolved(receipts, &resolved);
    if data_ids.len() > 0 {
        let rows = store.find_transaction_hashes_for_data_receipts(&data_ids);
        apply_data_rows(&mut resolved, &rows);
    } else {
        proof {
            assert(unresolved_data_ids(receipts@, resolved@).len() == 0);
            assert(join_rows(
                store@.outputs,
                store@.action_receipts,
                unresolved_data_ids(receipts@, resolved@),
            ) =~= Seq::<(Seq<char>, Seq<char>)>::empty());
        }
    }
    if action_ids.len() > 0 {
        let rows_b = store.find_transaction_hashes_for_receipts_via_outcomes(&action_ids);
        apply_receipt_rows(&mut resolved, &rows_b);
        let rows_c = store.find_transaction_hashes_for_receipt_via_transactions(&action_ids);
        apply_receipt_rows(&mut resolved, &rows_c);
    } else {
        proof {
            let m1 = cache_resolve_fold(Map::empty(), old(cache)@, receipts@).0;
            assert(unresolved_action_ids(receipts@, m1).len() == 0);
            assert(join_rows(
                store@.outcome_receipts,
                store@.action_receipts,
                unresolved_action_ids(receipts@, m1),
            ) =~= Seq::<(Seq<char>, Seq<char>)>::empty());
            assert(lookup_rows(store@.transactions, unresolved_action_ids(receipts@, m1))
                =~= Seq::<(Seq<char>, Seq<char>)>::empty());
        }
    }
    resolved
}


/// One persisted receipt record: position in the chunk, receipt id, and the
/// root transaction hash it was resolved to.
pub type ReceiptRecord = (usize, String, String);

/// The action receipt records of a chunk whose lineage `m` resolves, with
/// their original positions.
pub open spec fn resolved_action_rows(rs: Seq<Receipt>, m: Map<RefIdView, Seq<char>>) -> Seq<
    (usize, Seq<char>, Seq<char>),
>
    decreases rs.len(),
{
    if rs.len() == 0 {
        Seq::empty()
    } else {
        let rest = resolved_action_rows(rs.drop_last(), m);
        let r = rs.last();
        if r.kind is Action && m.dom().contains(r.ref_id()) {
            rest.push((((rs.len() - 1) as usize), r.receipt_id@, m[r.ref_id()]))
        } else {
            rest
        }
    }
}

/// The data receipt records of a chunk whose lineage `m` resolves, with
/// their original positions.
pub open spec fn resolved_data_rows(rs: Seq<Receipt>, m: Map<RefIdView, Seq<char>>) -> Seq<
    (usize, Seq<char>, Seq<char>),
>
    decreases rs.len(),
{
    if rs.len() == 0 {
        Seq::empty()
    } else {
        let rest = resolved_data_rows(rs.drop_last(), m);
        let r = rs.last();
        if r.kind is Data && m.dom().contains(r.ref_id()) {
            rest.push((((rs.len() - 1) as usize), r.receipt_id@, m[r.ref_id()]))
        } else {
            rest
        }
    }
}

/// Build the records to persist: the receipts `m` resolves, partitioned by
/// kind, each with its position in the chunk and its root hash.  Unresolved
/// receipts are excluded.
pub fn partition_resolved(receipts: &Vec<Receipt>, resolved: &ResolvedMap) -> (r: (
    Vec<ReceiptRecord>,
    Vec<ReceiptRecord>,
))
    requires
        resolved.wf(),
    ensures
        r.0.deep_view() == resolved_action_rows(receipts@, resolved@),
        r.1.deep_view() == resolved_data_rows(receipts@, resolved@),
{
    let mut action_rows: Vec<ReceiptRecord> = Vec::new();
    let mut data_rows: Vec<ReceiptRecord> = Vec::new();
    let n = receipts.len();
    for i in 0..n
        invariant
            n == receipts.len(),
            resolved.wf(),
            action_rows.deep_view() =~= resolved_action_rows(receipts@.take(i as int), resolved@),
            data_rows.deep_view() =~= resolved_data_rows(receipts@.take(i as int), resolved@),
    {
        proof {
            assert(receipts@.take(i + 1).drop_last() =~= receipts@.take(i as int));
            assert(receipts@.take(i + 1).last() == receipts@[i as int]);
            assert(receipts@.take(i + 1).len() - 1 == i as int);
        }
        let ghost prev_action = action_rows.deep_view();
        let ghost prev_data = data_rows.deep_view();
        let key = receipts[i].causal_ref();
        match resolved.get(&key) {
            Some(h) => {
                match &receipts[i].kind {
                    ReceiptKind::Action { .. } => {
                        action_rows.push((i, receipts[i].receipt_id.clone(), h.clone()));
                        proof {
                            assert(action_rows.deep_view() =~= prev_action.push(
                                (i, receipts@[i as int].receipt_id@, resolved@[receipts@[i as int].ref_id()]),
                            ));
                        }
                    },
                    ReceiptKind::Data { .. } => {
                        data_rows.push((i, receipts[i].receipt_id.clone(), h.clone()));
                        proof {
                            assert(data_rows.deep_view() =~= prev_data.push(
                                (i, receipts@[i as int].receipt_id@, resolved@[receipts@[i as int].ref_id()]),
                            ));
                        }
                    },
                }
            },
            None => {},
        }
    }
    proof {
        assert(receipts@.take(n as int) =~= receipts@);
    }
    (action_rows, data_rows)
}

/// The output rows one resolved action receipt contributes: each data item
/// it announced, keyed for the `action_receipts__outputs` table.
pub open spec fn receipt_output_pairs(r: Receipt, m: Map<RefIdView, Seq<char>>) -> Seq<
    (Seq<char>, Seq<char>),
> {
    match r.kind {
        ReceiptKind::Action { output_data_receivers } => {
            if m.dom().contains(RefIdView::ReceiptId(r.receipt_id@)) {
                Seq::new(
                    output_data_receivers@.len(),
                    |i: int| (output_data_receivers@[i]@, r.receipt_id@),
                )
            } else {
                Seq::empty()
            }
        },
        ReceiptKind::Data { .. } => Seq::empty(),
    }
}

/// All output rows of a chunk's resolved action receipts, in order.
pub open spec fn output_pairs(rs: Seq<Receipt>, m: Map<RefIdView, Seq<char>>) -> Seq<
    (Seq<char>, Seq<char>),
>
    decreases rs.len(),
{
    if rs.len() == 0 {
        Seq::empty()
    } else {
        output_pairs(rs.drop_last(), m) + receipt_output_pairs(rs.last(), m)
    }
}

/// Collect the `action_receipts__outputs` rows of every resolved action
/// receipt: output data id paired with the announcing receipt's id.
pub fn collect_output_rows(receipts: &Vec<Receipt>, resolved: &ResolvedMap) -> (r: Vec<
    (String, String),
>)
    requires
        resolved.wf(),
    ensures
        r.deep_view() == output_pairs(receipts@, resolved@),
{
    let mut out: Vec<(String, String)> = Vec::new();
    let n = receipts.len();
    for i in 0..n
        invariant
            n == receipts.len(),
            resolved.wf(),
            out.deep_view() =~= output_pairs(receipts@.take(i as int), resolved@),
    {
        proof {
            assert(receipts@.take(i + 1).drop_last() =~= receipts@.take(i as int));
            assert(receipts@.take(i + 1).last() == receipts@[i as int]);
        }
        let ghost rp = receipt_output_pairs(receipts@[i as int], resolved@);
        match &receipts[i].kind {
            ReceiptKind::Action { output_data_receivers } => {
                let key = ReceiptOrDataId::ReceiptId(receipts[i].receipt_id.clone());
                if resolved.contains_ref(&key) {
                    let m = output_data_receivers.len();
                    for j in 0..m
                        invariant
                            n == receipts.len(),
                            0 <= i < n,
                            resolved.wf(),
                            receipts@[i as int].kind is Action,
                            output_data_receivers@
                                == receipts@[i as int].kind->Action_output_data_receivers@,
                            m == output_data_receivers@.len(),
                            rp == receipt_output_pairs(receipts@[i as int], resolved@),
                            rp.len() == m,
                            out.deep_view() =~= output_pairs(receipts@.take(i as int), resolved@)
                                + rp.take(j as int),
                    {
                        let ghost prev = out.deep_view();
                        out.push((output_data_receivers[j].clone(), receipts[i].receipt_id.clone()));
                        proof {
                            assert(rp.take(j + 1) =~= rp.take(j as int).push(rp[j as int]));
                            assert(out.deep_view() =~= prev.push(rp[j as int]));
                        }
                    }
                    proof {
                        assert(rp.take(m as int) =~= rp);
                    }
                } else {
                    proof {
                        assert(out.deep_view() =~= output_pairs(receipts@.take(i as int), resolved@)
                            + rp);
                    }
                }
            },
            ReceiptKind::Data { .. } => {
                proof {
                    assert(out.deep_view() =~= output_pairs(receipts@.take(i as int), resolved@)
                        + rp);
                }
            },
        }
        proof {
            assert(output_pairs(receipts@.take(i + 1), resolved@) =~= output_pairs(
                receipts@.take(i as int),
                resolved@,
            ) + rp);
        }
    }
    proof {
        assert(receipts@.take(n as int) =~= receipts@);
    }
    out
}

} // verus!
