//! The crate-level guarantees of the lineage resolver, stated and proved
//! once over the specification functions the component contracts use.

use vstd::prelude::*;

use crate::resolver::{
    apply_data_rows_map, apply_receipt_rows_map, cache_resolve_fold, chunk_resolution,
    insert_pairs, propagation_pairs, receipt_propagation_pairs, lemma_propagation_pairs_split,
    unresolved_action_ids, unresolved_data_ids,
};
use crate::store::{join_rows, lookup_rows, StoreView};
use crate::types::{Receipt, ReceiptKind, RefIdView};

verus! {

/// What the cache phase can and cannot do, all at once: the cache only
/// shrinks, keeping values; resolutions only grow; every resolution comes
/// from the initial resolutions or the initial cache; an entry consumed
/// from the cache has been resolved; and every receipt whose id the initial
/// cache holds is resolved.
pub proof fn lemma_cache_fold_facts(
    resolved0: Map<RefIdView, Seq<char>>,
    cache0: Map<RefIdView, Seq<char>>,
    rs: Seq<Receipt>,
)
    ensures
        forall|k: RefIdView| #[trigger]
            cache_resolve_fold(resolved0, cache0, rs).1.dom().contains(k) ==> cache0.dom().contains(
                k,
            ) && cache_resolve_fold(resolved0, cache0, rs).1[k] == cache0[k],
        forall|k: RefIdView| #[trigger]
            resolved0.dom().contains(k) ==> cache_resolve_fold(
                resolved0,
                cache0,
                rs,
            ).0.dom().contains(k) && cache_resolve_fold(resolved0, cache0, rs).0[k] == resolved0[k],
        forall|k: RefIdView| #[trigger]
            cache_resolve_fold(resolved0, cache0, rs).0.dom().contains(k) ==> ((
            resolved0.dom().contains(k) && cache_resolve_fold(resolved0, cache0, rs).0[k]
                == resolved0[k]) || (cache0.dom().contains(k) && cache_resolve_fold(
                resolved0,
                cache0,
                rs,
            ).0[k] == cache0[k])),
        forall|k: RefIdView|
            cache0.dom().contains(k) && !(#[trigger] cache_resolve_fold(
                resolved0,
                cache0,
                rs,
            ).1.dom().contains(k)) ==> cache_resolve_fold(resolved0, cache0, rs).0.dom().contains(
                k,
            ),
        forall|i: int|
            0 <= i < rs.len() && cache0.dom().contains(#[trigger] rs[i].ref_id())
                ==> cache_resolve_fold(resolved0, cache0, rs).0.dom().contains(rs[i].ref_id())
                && cache_resolve_fold(resolved0, cache0, rs).0[rs[i].ref_id()] == (
            if resolved0.dom().contains(rs[i].ref_id()) {
                resolved0[rs[i].ref_id()]
            } else {
                cache0[rs[i].ref_id()]
            }),
    decreases rs.len(),
{
    if rs.len() > 0 {
        lemma_cache_fold_facts(resolved0, cache0, rs.drop_last());
        let prev = cache_resolve_fold(resolved0, cache0, rs.drop_last());
        let here = cache_resolve_fold(resolved0, cache0, rs);
        let lastk = rs.last().ref_id();
        assert(here == crate::resolver::cache_resolve_step(prev, rs.last()));
        assert forall|i: int|
            0 <= i < rs.len() && cache0.dom().contains(#[trigger] rs[i].ref_id()) implies {
            &&& here.0.dom().contains(rs[i].ref_id())
            &&& here.0[rs[i].ref_id()] == (
            if resolved0.dom().contains(rs[i].ref_id()) {
                resolved0[rs[i].ref_id()]
            } else {
                cache0[rs[i].ref_id()]
            })
        } by {
            if i < rs.len() - 1 {
                assert(rs.drop_last()[i] == rs[i]);
            } else {
                let k = rs[i].ref_id();
                if prev.0.dom().contains(k) {
                    assert(here.0 == prev.0);
                } else if prev.1.dom().contains(k) {
                    assert(here.0 == prev.0.insert(k, prev.1[k]));
                    assert(prev.1[k] == cache0[k]);
                } else {
                    assert(prev.0.dom().contains(k));
                }
            }
        }
    }
}

/// Merging tier rows keeps every earlier resolution unchanged.
pub proof fn lemma_apply_data_rows_mono(
    m: Map<RefIdView, Seq<char>>,
    rows: Seq<(Seq<char>, Seq<char>)>,
)
    ensures
        forall|k: RefIdView| #[trigger]
            m.dom().contains(k) ==> apply_data_rows_map(m, rows).dom().contains(k)
                && apply_data_rows_map(m, rows)[k] == m[k],
    decreases rows.len(),
{
    if rows.len() > 0 {
        lemma_apply_data_rows_mono(m, rows.drop_last());
    }
}

/// Merging tier rows keeps every earlier resolution unchanged.
pub proof fn lemma_apply_receipt_rows_mono(
    m: Map<RefIdView, Seq<char>>,
    rows: Seq<(Seq<char>, Seq<char>)>,
)
    ensures
        forall|k: RefIdView| #[trigger]
            m.dom().contains(k) ==> apply_receipt_rows_map(m, rows).dom().contains(k)
                && apply_receipt_rows_map(m, rows)[k] == m[k],
    decreases rows.len(),
{
    if rows.len() > 0 {
        lemma_apply_receipt_rows_mono(m, rows.drop_last());
    }
}

/// When every row carrying a data id agrees on one hash, merging gives the
/// id that hash — unless an earlier source already resolved it, in which
/// case the earlier hash is kept whatever it is.
pub proof fn lemma_apply_data_rows_value(
    m: Map<RefIdView, Seq<char>>,
    rows: Seq<(Seq<char>, Seq<char>)>,
    d: Seq<char>,
    v: Seq<char>,
)
    requires
        exists|i: int| 0 <= i < rows.len() && rows[i].0 == d,
        forall|i: int| 0 <= i < rows.len() && (#[trigger] rows[i]).0 == d ==> rows[i].1 == v,
        !m.dom().contains(RefIdView::DataId(d)),
    ensures
        apply_data_rows_map(m, rows).dom().contains(RefIdView::DataId(d)),
        apply_data_rows_map(m, rows)[RefIdView::DataId(d)] == v,
    decreases rows.len(),
{
    let i = choose|i: int| 0 <= i < rows.len() && rows[i].0 == d;
    if rows.last().0 == d {
        if apply_data_rows_map(m, rows.drop_last()).dom().contains(RefIdView::DataId(d)) {
            lemma_apply_data_rows_key(m, rows.drop_last(), d);
            let j = choose|j: int|
                0 <= j < rows.drop_last().len() && rows.drop_last()[j].0 == d;
            assert(rows[j] == rows.drop_last()[j]);
            lemma_apply_data_rows_value(m, rows.drop_last(), d, v);
        }
    } else {
        assert(rows.drop_last()[i] == rows[i]);
        lemma_apply_data_rows_value(m, rows.drop_last(), d, v);
    }
}

/// A data id resolved by merging either was resolved before or occurs in
/// the rows.
pub proof fn lemma_apply_data_rows_key(
    m: Map<RefIdView, Seq<char>>,
    rows: Seq<(Seq<char>, Seq<char>)>,
    d: Seq<char>,
)
    requires
        apply_data_rows_map(m, rows).dom().contains(RefIdView::DataId(d)),
        !m.dom().contains(RefIdView::DataId(d)),
    ensures
        exists|i: int| 0 <= i < rows.len() && (#[trigger] rows[i]).0 == d,
    decreases rows.len(),
{
    if rows.len() > 0 {
        if rows.last().0 == d {
            assert(rows[rows.len() - 1].0 == d);
        } else {
            if apply_data_rows_map(m, rows.drop_last()).dom().contains(RefIdView::DataId(d)) {
                lemma_apply_data_rows_key(m, rows.drop_last(), d);
                let i = choose|i: int|
                    0 <= i < rows.drop_last().len() && rows.drop_last()[i].0 == d;
                assert(rows[i].0 == d);
            }
        }
    }
}

/// The receipt-id analogue of [`lemma_apply_data_rows_value`].
pub proof fn lemma_apply_receipt_rows_value(
    m: Map<RefIdView, Seq<char>>,
    rows: Seq<(Seq<char>, Seq<char>)>,
    d: Seq<char>,
    v: Seq<char>,
)
    requires
        exists|i: int| 0 <= i < rows.len() && rows[i].0 == d,
        forall|i: int| 0 <= i < rows.len() && (#[trigger] rows[i]).0 == d ==> rows[i].1 == v,
        !m.dom().contains(RefIdView::ReceiptId(d)),
    ensures
        apply_receipt_rows_map(m, rows).dom().contains(RefIdView::ReceiptId(d)),
        apply_receipt_rows_map(m, rows)[RefIdView::ReceiptId(d)] == v,
    decreases rows.len(),
{
    let i = choose|i: int| 0 <= i < rows.len() && rows[i].0 == d;
    if rows.last().0 == d {
        if apply_receipt_rows_map(m, rows.drop_last()).dom().contains(RefIdView::ReceiptId(d)) {
            lemma_apply_receipt_rows_key(m, rows.drop_last(), d);
            let j = choose|j: int|
                0 <= j < rows.drop_last().len() && rows.drop_last()[j].0 == d;
            assert(rows[j] == rows.drop_last()[j]);
            lemma_apply_receipt_rows_value(m, rows.drop_last(), d, v);
        }
    } else {
        assert(rows.drop_last()[i] == rows[i]);
        lemma_apply_receipt_rows_value(m, rows.drop_last(), d, v);
    }
}

/// The receipt-id analogue of [`lemma_apply_data_rows_key`].
pub proof fn lemma_apply_receipt_rows_key(
    m: Map<RefIdView, Seq<char>>,
    rows: Seq<(Seq<char>, Seq<char>)>,
    d: Seq<char>,
)
    requires
        apply_receipt_rows_map(m, rows).dom().contains(RefIdView::ReceiptId(d)),
        !m.dom().contains(RefIdView::ReceiptId(d)),
    ensures
        exists|i: int| 0 <= i < rows.len() && (#[trigger] rows[i]).0 == d,
    decreases rows.len(),
{
    if rows.len() > 0 {
        if rows.last().0 == d {
            assert(rows[rows.len() - 1].0 == d);
        } else {
            if apply_receipt_rows_map(m, rows.drop_last()).dom().contains(
                RefIdView::ReceiptId(d),
            ) {
                lemma_apply_receipt_rows_key(m, rows.drop_last(), d);
                let i = choose|i: int|
                    0 <= i < rows.drop_last().len() && rows.drop_last()[i].0 == d;
                assert(rows[i].0 == d);
            }
        }
    }
}

/// Resolution completeness under warm cache: a receipt whose causal id the
/// cache holds — because it was cached in this or an earlier step of the
/// same run — is resolved by the cache phase alone, with the cached hash,
/// and its id is not in any batch handed to a store tier.
pub proof fn lemma_resolution_completeness_warm_cache(
    cache0: Map<RefIdView, Seq<char>>,
    store: StoreView,
    rs: Seq<Receipt>,
    i: int,
)
    requires
        0 <= i < rs.len(),
        cache0.dom().contains(rs[i].ref_id()),
    ensures
        chunk_resolution(Map::empty(), cache0, store, rs).dom().contains(rs[i].ref_id()),
        chunk_resolution(Map::empty(), cache0, store, rs)[rs[i].ref_id()] == cache0[rs[i].ref_id()],
        (rs[i].kind matches ReceiptKind::Data { data_id } ==> !unresolved_data_ids(
            rs,
            cache_resolve_fold(Map::empty(), cache0, rs).0,
        ).contains(data_id@)),
        (rs[i].kind is Action ==> !unresolved_action_ids(
            rs,
            cache_resolve_fold(Map::empty(), cache0, rs).0,
        ).contains(rs[i].receipt_id@)),
{
    let m1 = cache_resolve_fold(Map::empty(), cache0, rs).0;
    lemma_cache_fold_facts(Map::empty(), cache0, rs);
    assert(m1.dom().contains(rs[i].ref_id()) && m1[rs[i].ref_id()] == cache0[rs[i].ref_id()]);
    let dids = unresolved_data_ids(rs, m1);
    let aids = unresolved_action_ids(rs, m1);
    let m2 = apply_data_rows_map(m1, join_rows(store.outputs, store.action_receipts, dids));
    let m3 = apply_receipt_rows_map(
        m2,
        join_rows(store.outcome_receipts, store.action_receipts, aids),
    );
    lemma_apply_data_rows_mono(m1, join_rows(store.outputs, store.action_receipts, dids));
    lemma_apply_receipt_rows_mono(
        m2,
        join_rows(store.outcome_receipts, store.action_receipts, aids),
    );
    lemma_apply_receipt_rows_mono(m3, lookup_rows(store.transactions, aids));
    match rs[i].kind {
        ReceiptKind::Data { data_id } => {
            lemma_unresolved_data_ids_excludes(rs, m1, data_id@);
        },
        ReceiptKind::Action { .. } => {
            lemma_unresolved_action_ids_excludes(rs, m1, rs[i].receipt_id@);
        },
    }
}

/// A resolved data receipt's id is in no tier batch.
proof fn lemma_unresolved_data_ids_excludes(
    rs: Seq<Receipt>,
    m: Map<RefIdView, Seq<char>>,
    d: Seq<char>,
)
    requires
        m.dom().contains(RefIdView::DataId(d)),
    ensures
        !unresolved_data_ids(rs, m).contains(d),
{
    if unresolved_data_ids(rs, m).contains(d) {
        lemma_unresolved_data_ids_only(rs, m, d);
        let j = choose|j: int|
            0 <= j < rs.len() && (#[trigger] rs[j].kind) is Data && rs[j].kind->Data_data_id@ == d
                && !m.dom().contains(rs[j].ref_id());
        assert(rs[j].ref_id() == RefIdView::DataId(d));
    }
}

/// Every id in the data tier batch belongs to some unresolved data receipt.
proof fn lemma_unresolved_data_ids_only(rs: Seq<Receipt>, m: Map<RefIdView, Seq<char>>, d: Seq<char>)
    requires
        unresolved_data_ids(rs, m).contains(d),
    ensures
        exists|j: int|
            0 <= j < rs.len() && (#[trigger] rs[j].kind) is Data && rs[j].kind->Data_data_id@ == d
                && !m.dom().contains(rs[j].ref_id()),
    decreases rs.len(),
{
    let last = rs.last();
    let rest = unresolved_data_ids(rs.drop_last(), m);
    if last.kind is Data && !m.dom().contains(last.ref_id()) {
        lemma_seq_push_contains(rest, d);
        if last.kind->Data_data_id@ == d && !rest.contains(d) {
            assert((rs[rs.len() - 1].kind) is Data && rs[rs.len() - 1].kind->Data_data_id@ == d
                && !m.dom().contains(rs[rs.len() - 1].ref_id()));
        } else {
            lemma_unresolved_data_ids_only(rs.drop_last(), m, d);
            let j = choose|j: int|
                0 <= j < rs.drop_last().len() && (#[trigger] rs.drop_last()[j].kind) is Data
                    && rs.drop_last()[j].kind->Data_data_id@ == d && !m.dom().contains(
                    rs.drop_last()[j].ref_id(),
                );
            assert(rs[j] == rs.drop_last()[j]);
        }
    } else {
        lemma_unresolved_data_ids_only(rs.drop_last(), m, d);
        let j = choose|j: int|
            0 <= j < rs.drop_last().len() && (#[trigger] rs.drop_last()[j].kind) is Data
                && rs.drop_last()[j].kind->Data_data_id@ == d && !m.dom().contains(
                rs.drop_last()[j].ref_id(),
            );
        assert(rs[j] == rs.drop_last()[j]);
    }
}

/// Membership in a pushed sequence comes from the prefix or the new last
/// element.
proof fn lemma_seq_push_contains(s: Seq<Seq<char>>, d: Seq<char>)
    ensures
        forall|x: Seq<char>| #[trigger] s.push(x).contains(d) ==> s.contains(d) || x == d,
{
    assert forall|x: Seq<char>| #[trigger] s.push(x).contains(d) implies s.contains(d) || x == d by {
        let i = choose|i: int| 0 <= i < s.push(x).len() && s.push(x)[i] == d;
        if i < s.len() {
            assert(s[i] == d);
        }
    }
}

/// A resolved action receipt's id is in no tier batch.
proof fn lemma_unresolved_action_ids_excludes(
    rs: Seq<Receipt>,
    m: Map<RefIdView, Seq<char>>,
    d: Seq<char>,
)
    requires
        m.dom().contains(RefIdView::ReceiptId(d)),
    ensures
        !unresolved_action_ids(rs, m).contains(d),
{
    if unresolved_action_ids(rs, m).contains(d) {
        lemma_unresolved_action_ids_only(rs, m, d);
        let j = choose|j: int|
            0 <= j < rs.len() && (#[trigger] rs[j].kind) is Action && rs[j].receipt_id@ == d
                && !m.dom().contains(rs[j].ref_id());
        assert(rs[j].ref_id() == RefIdView::ReceiptId(d));
    }
}

/// Every id in the action tier batch belongs to some unresolved action
/// receipt.
proof fn lemma_unresolved_action_ids_only(
    rs: Seq<Receipt>,
    m: Map<RefIdView, Seq<char>>,
    d: Seq<char>,
)
    requires
        unresolved_action_ids(rs, m).contains(d),
    ensures
        exists|j: int|
            0 <= j < rs.len() && (#[trigger] rs[j].kind) is Action && rs[j].receipt_id@ == d
                && !m.dom().contains(rs[j].ref_id()),
    decreases rs.len(),
{
    let last = rs.last();
    let rest = unresolved_action_ids(rs.drop_last(), m);
    if last.kind is Action && !m.dom().contains(last.ref_id()) {
        lemma_seq_push_contains(rest, d);
        if last.receipt_id@ == d && !rest.contains(d) {
            assert((rs[rs.len() - 1].kind) is Action && rs[rs.len() - 1].receipt_id@ == d
                && !m.dom().contains(rs[rs.len() - 1].ref_id()));
        } else {
            lemma_unresolved_action_ids_only(rs.drop_last(), m, d);
            let j = choose|j: int|
                0 <= j < rs.drop_last().len() && (#[trigger] rs.drop_last()[j].kind) is Action
                    && rs.drop_last()[j].receipt_id@ == d && !m.dom().contains(
                    rs.drop_last()[j].ref_id(),
                );
            assert(rs[j] == rs.drop_last()[j]);
        }
    } else {
        lemma_unresolved_action_ids_only(rs.drop_last(), m, d);
        let j = choose|j: int|
            0 <= j < rs.drop_last().len() && (#[trigger] rs.drop_last()[j].kind) is Action
                && rs.drop_last()[j].receipt_id@ == d && !m.dom().contains(
                rs.drop_last()[j].ref_id(),
            );
        assert(rs[j] == rs.drop_last()[j]);
    }
}


/// From two empty maps the cache phase resolves nothing.
proof fn lemma_cache_fold_empty(rs: Seq<Receipt>)
    ensures
        forall|k: RefIdView|
            !(#[trigger] cache_resolve_fold(
                Map::<RefIdView, Seq<char>>::empty(),
                Map::<RefIdView, Seq<char>>::empty(),
                rs,
            ).0.dom().contains(k)),
{
    lemma_cache_fold_facts(Map::empty(), Map::empty(), rs);
}

/// An unresolved data receipt's data id is in the tier A batch.
proof fn lemma_unresolved_data_ids_member(rs: Seq<Receipt>, m: Map<RefIdView, Seq<char>>, i: int)
    requires
        0 <= i < rs.len(),
        rs[i].kind is Data,
        !m.dom().contains(rs[i].ref_id()),
    ensures
        unresolved_data_ids(rs, m).contains(rs[i].kind->Data_data_id@),
    decreases rs.len(),
{
    let full = unresolved_data_ids(rs, m);
    let rest = unresolved_data_ids(rs.drop_last(), m);
    if i == rs.len() - 1 {
        assert(full[full.len() - 1] == rs[i].kind->Data_data_id@);
    } else {
        assert(rs.drop_last()[i] == rs[i]);
        lemma_unresolved_data_ids_member(rs.drop_last(), m, i);
        let p = choose|p: int| 0 <= p < rest.len() && rest[p] == rs[i].kind->Data_data_id@;
        assert(full[p] == rs[i].kind->Data_data_id@);
    }
}

/// An unresolved action receipt's id is in the tier B and C batch.
proof fn lemma_unresolved_action_ids_member(rs: Seq<Receipt>, m: Map<RefIdView, Seq<char>>, i: int)
    requires
        0 <= i < rs.len(),
        rs[i].kind is Action,
        !m.dom().contains(rs[i].ref_id()),
    ensures
        unresolved_action_ids(rs, m).contains(rs[i].receipt_id@),
    decreases rs.len(),
{
    let full = unresolved_action_ids(rs, m);
    let rest = unresolved_action_ids(rs.drop_last(), m);
    if i == rs.len() - 1 {
        assert(full[full.len() - 1] == rs[i].receipt_id@);
    } else {
        assert(rs.drop_last()[i] == rs[i]);
        lemma_unresolved_action_ids_member(rs.drop_last(), m, i);
        let p = choose|p: int| 0 <= p < rest.len() && rest[p] == rs[i].receipt_id@;
        assert(full[p] == rs[i].receipt_id@);
    }
}

/// Every row a join query returns is the join of its own id, and an id the
/// join covers yields a row.
proof fn lemma_join_rows_facts(
    m1: Map<Seq<char>, Seq<char>>,
    m2: Map<Seq<char>, Seq<char>>,
    ids: Seq<Seq<char>>,
)
    ensures
        forall|p: int|
            0 <= p < join_rows(m1, m2, ids).len() ==> {
                let row = #[trigger] join_rows(m1, m2, ids)[p];
                m1.dom().contains(row.0) && m2.dom().contains(m1[row.0]) && row.1 == m2[m1[row.0]]
            },
        forall|p: int|
            0 <= p < ids.len() && m1.dom().contains(#[trigger] ids[p]) && m2.dom().contains(
                m1[ids[p]],
            ) ==> exists|q: int|
                0 <= q < join_rows(m1, m2, ids).len() && join_rows(m1, m2, ids)[q].0 == ids[p],
    decreases ids.len(),
{
    if ids.len() > 0 {
        lemma_join_rows_facts(m1, m2, ids.drop_last());
        let full = join_rows(m1, m2, ids);
        let rest = join_rows(m1, m2, ids.drop_last());
        assert forall|p: int|
            0 <= p < ids.len() && m1.dom().contains(#[trigger] ids[p]) && m2.dom().contains(
                m1[ids[p]],
            ) implies exists|q: int| 0 <= q < full.len() && full[q].0 == ids[p] by {
            if p == ids.len() - 1 {
                assert(full[full.len() - 1].0 == ids[p]);
            } else {
                assert(ids.drop_last()[p] == ids[p]);
                let q = choose|q: int| 0 <= q < rest.len() && rest[q].0 == ids[p];
                assert(full[q].0 == ids[p]);
            }
        }
    }
}

/// Every row a lookup query returns is its id's table entry, and a covered
/// id yields a row.
proof fn lemma_lookup_rows_facts(m: Map<Seq<char>, Seq<char>>, ids: Seq<Seq<char>>)
    ensures
        forall|p: int|
            0 <= p < lookup_rows(m, ids).len() ==> {
                let row = #[trigger] lookup_rows(m, ids)[p];
                m.dom().contains(row.0) && row.1 == m[row.0]
            },
        forall|p: int|
            0 <= p < ids.len() && m.dom().contains(#[trigger] ids[p]) ==> exists|q: int|
                0 <= q < lookup_rows(m, ids).len() && lookup_rows(m, ids)[q].0 == ids[p],
    decreases ids.len(),
{
    if ids.len() > 0 {
        lemma_lookup_rows_facts(m, ids.drop_last());
        let full = lookup_rows(m, ids);
        let rest = lookup_rows(m, ids.drop_last());
        assert forall|p: int|
            0 <= p < ids.len() && m.dom().contains(#[trigger] ids[p]) implies exists|q: int|
            0 <= q < full.len() && full[q].0 == ids[p] by {
            if p == ids.len() - 1 {
                assert(full[full.len() - 1].0 == ids[p]);
            } else {
                assert(ids.drop_last()[p] == ids[p]);
                let q = choose|q: int| 0 <= q < rest.len() && rest[q].0 == ids[p];
                assert(full[q].0 == ids[p]);
            }
        }
    }
}

/// Merging data-id rows never adds a receipt-id resolution.
proof fn lemma_apply_data_rows_receipt_key(
    m: Map<RefIdView, Seq<char>>,
    rows: Seq<(Seq<char>, Seq<char>)>,
    d: Seq<char>,
)
    ensures
        apply_data_rows_map(m, rows).dom().contains(RefIdView::ReceiptId(d)) == m.dom().contains(
            RefIdView::ReceiptId(d),
        ),
        m.dom().contains(RefIdView::ReceiptId(d)) ==> apply_data_rows_map(m, rows)[
            RefIdView::ReceiptId(d)
        ] == m[RefIdView::ReceiptId(d)],
    decreases rows.len(),
{
    if rows.len() > 0 {
        lemma_apply_data_rows_receipt_key(m, rows.drop_last(), d);
    }
}

/// Resolution completeness under cold cache, data receipts: with an empty
/// cache, a data receipt whose announcing action receipt is persisted is
/// resolved by tier A — the join of `action_receipts__outputs` and
/// `action_receipts` — to the persisted root hash.
pub proof fn lemma_resolution_completeness_cold_cache_data(
    store: StoreView,
    rs: Seq<Receipt>,
    i: int,
)
    requires
        0 <= i < rs.len(),
        rs[i].kind is Data,
        store.outputs.dom().contains(rs[i].kind->Data_data_id@),
        store.action_receipts.dom().contains(store.outputs[rs[i].kind->Data_data_id@]),
    ensures
        chunk_resolution(Map::empty(), Map::empty(), store, rs).dom().contains(rs[i].ref_id()),
        chunk_resolution(Map::empty(), Map::empty(), store, rs)[rs[i].ref_id()]
            == store.action_receipts[store.outputs[rs[i].kind->Data_data_id@]],
{
    let d = rs[i].kind->Data_data_id@;
    let h = store.action_receipts[store.outputs[d]];
    lemma_cache_fold_empty(rs);
    let m1 = cache_resolve_fold(Map::<RefIdView, Seq<char>>::empty(), Map::empty(), rs).0;
    let dids = unresolved_data_ids(rs, m1);
    let aids = unresolved_action_ids(rs, m1);
    let rows = join_rows(store.outputs, store.action_receipts, dids);
    lemma_unresolved_data_ids_member(rs, m1, i);
    lemma_join_rows_facts(store.outputs, store.action_receipts, dids);
    let p = choose|p: int| 0 <= p < dids.len() && dids[p] == d;
    assert(exists|q: int| 0 <= q < rows.len() && rows[q].0 == dids[p]);
    lemma_apply_data_rows_value(m1, rows, d, h);
    let m2 = apply_data_rows_map(m1, rows);
    lemma_apply_receipt_rows_mono(
        m2,
        join_rows(store.outcome_receipts, store.action_receipts, aids),
    );
    let m3 = apply_receipt_rows_map(
        m2,
        join_rows(store.outcome_receipts, store.action_receipts, aids),
    );
    lemma_apply_receipt_rows_mono(m3, lookup_rows(store.transactions, aids));
}

/// Resolution completeness under cold cache, action receipts via tier B:
/// with an empty cache, an action receipt whose producing execution outcome
/// is persisted is resolved through `execution_outcomes__receipts` joined
/// to `action_receipts`, to the persisted root hash.
pub proof fn lemma_resolution_completeness_cold_cache_outcome(
    store: StoreView,
    rs: Seq<Receipt>,
    i: int,
)
    requires
        0 <= i < rs.len(),
        rs[i].kind is Action,
        store.outcome_receipts.dom().contains(rs[i].receipt_id@),
        store.action_receipts.dom().contains(store.outcome_receipts[rs[i].receipt_id@]),
    ensures
        chunk_resolution(Map::empty(), Map::empty(), store, rs).dom().contains(rs[i].ref_id()),
        chunk_resolution(Map::empty(), Map::empty(), store, rs)[rs[i].ref_id()]
            == store.action_receipts[store.outcome_receipts[rs[i].receipt_id@]],
{
    let d = rs[i].receipt_id@;
    let h = store.action_receipts[store.outcome_receipts[d]];
    lemma_cache_fold_empty(rs);
    let m1 = cache_resolve_fold(Map::<RefIdView, Seq<char>>::empty(), Map::empty(), rs).0;
    let dids = unresolved_data_ids(rs, m1);
    let aids = unresolved_action_ids(rs, m1);
    let data_rows = join_rows(store.outputs, store.action_receipts, dids);
    let m2 = apply_data_rows_map(m1, data_rows);
    lemma_apply_data_rows_receipt_key(m1, data_rows, d);
    let rows_b = join_rows(store.outcome_receipts, store.action_receipts, aids);
    lemma_unresolved_action_ids_member(rs, m1, i);
    lemma_join_rows_facts(store.outcome_receipts, store.action_receipts, aids);
    let p = choose|p: int| 0 <= p < aids.len() && aids[p] == d;
    assert(exists|q: int| 0 <= q < rows_b.len() && rows_b[q].0 == aids[p]);
    lemma_apply_receipt_rows_value(m2, rows_b, d, h);
    let m3 = apply_receipt_rows_map(m2, rows_b);
    lemma_apply_receipt_rows_mono(m3, lookup_rows(store.transactions, aids));
}

/// Resolution completeness under cold cache, action receipts via tier C:
/// with an empty cache, an action receipt that tier B cannot answer but
/// whose converting transaction is persisted is resolved from the
/// `transactions` table, to the transaction's own hash.
pub proof fn lemma_resolution_completeness_cold_cache_transaction(
    store: StoreView,
    rs: Seq<Receipt>,
    i: int,
)
    requires
        0 <= i < rs.len(),
        rs[i].kind is Action,
        !(store.outcome_receipts.dom().contains(rs[i].receipt_id@)
            && store.action_receipts.dom().contains(store.outcome_receipts[rs[i].receipt_id@])),
        store.transactions.dom().contains(rs[i].receipt_id@),
    ensures
        chunk_resolution(Map::empty(), Map::empty(), store, rs).dom().contains(rs[i].ref_id()),
        chunk_resolution(Map::empty(), Map::empty(), store, rs)[rs[i].ref_id()]
            == store.transactions[rs[i].receipt_id@],
{
    let d = rs[i].receipt_id@;
    let h = store.transactions[d];
    lemma_cache_fold_empty(rs);
    let m1 = cache_resolve_fold(Map::<RefIdView, Seq<char>>::empty(), Map::empty(), rs).0;
    let dids = unresolved_data_ids(rs, m1);
    let aids = unresolved_action_ids(rs, m1);
    let data_rows = join_rows(store.outputs, store.action_receipts, dids);
    let m2 = apply_data_rows_map(m1, data_rows);
    lemma_apply_data_rows_receipt_key(m1, data_rows, d);
    let rows_b = join_rows(store.outcome_receipts, store.action_receipts, aids);
    let m3 = apply_receipt_rows_map(m2, rows_b);
    lemma_join_rows_facts(store.outcome_receipts, store.action_receipts, aids);
    assert(!m3.dom().contains(RefIdView::ReceiptId(d))) by {
        if m3.dom().contains(RefIdView::ReceiptId(d)) {
            lemma_apply_receipt_rows_key(m2, rows_b, d);
        }
    }
    lemma_unresolved_action_ids_member(rs, m1, i);
    let rows_c = lookup_rows(store.transactions, aids);
    lemma_lookup_rows_facts(store.transactions, aids);
    let p = choose|p: int| 0 <= p < aids.len() && aids[p] == d;
    assert(exists|q: int| 0 <= q < rows_c.len() && rows_c[q].0 == aids[p]);
    lemma_apply_receipt_rows_value(m3, rows_c, d, h);
}

/// Cold start yields the same root hash as the warm path: when the cache
/// holds, for a data receipt's id, exactly the hash tier A would recover
/// from the persisted tables, resolving with that cache and resolving with
/// an empty cache agree.
pub proof fn lemma_cold_matches_warm_data(
    cache0: Map<RefIdView, Seq<char>>,
    store: StoreView,
    rs: Seq<Receipt>,
    i: int,
)
    requires
        0 <= i < rs.len(),
        rs[i].kind is Data,
        cache0.dom().contains(rs[i].ref_id()),
        store.outputs.dom().contains(rs[i].kind->Data_data_id@),
        store.action_receipts.dom().contains(store.outputs[rs[i].kind->Data_data_id@]),
        cache0[rs[i].ref_id()] == store.action_receipts[store.outputs[rs[i].kind->Data_data_id@]],
    ensures
        chunk_resolution(Map::empty(), cache0, store, rs).dom().contains(rs[i].ref_id()),
        chunk_resolution(Map::empty(), Map::empty(), store, rs).dom().contains(rs[i].ref_id()),
        chunk_resolution(Map::empty(), cache0, store, rs)[rs[i].ref_id()] == chunk_resolution(
            Map::empty(),
            Map::empty(),
            store,
            rs,
        )[rs[i].ref_id()],
{
    lemma_resolution_completeness_warm_cache(cache0, store, rs, i);
    lemma_resolution_completeness_cold_cache_data(store, rs, i);
}

/// Cold start yields the same root hash as the warm path for action
/// receipts: when the cache holds, for a produced receipt's id, exactly
/// the hash tier B would recover from the persisted tables, resolving with
/// that cache and resolving with an empty cache agree.
pub proof fn lemma_cold_matches_warm_action(
    cache0: Map<RefIdView, Seq<char>>,
    store: StoreView,
    rs: Seq<Receipt>,
    i: int,
)
    requires
        0 <= i < rs.len(),
        rs[i].kind is Action,
        cache0.dom().contains(rs[i].ref_id()),
        store.outcome_receipts.dom().contains(rs[i].receipt_id@),
        store.action_receipts.dom().contains(store.outcome_receipts[rs[i].receipt_id@]),
        cache0[rs[i].ref_id()] == store.action_receipts[store.outcome_receipts[rs[i].receipt_id@]],
    ensures
        chunk_resolution(Map::empty(), cache0, store, rs).dom().contains(rs[i].ref_id()),
        chunk_resolution(Map::empty(), Map::empty(), store, rs).dom().contains(rs[i].ref_id()),
        chunk_resolution(Map::empty(), cache0, store, rs)[rs[i].ref_id()] == chunk_resolution(
            Map::empty(),
            Map::empty(),
            store,
            rs,
        )[rs[i].ref_id()],
{
    lemma_resolution_completeness_warm_cache(cache0, store, rs, i);
    lemma_resolution_completeness_cold_cache_outcome(store, rs, i);
}

/// A data id is consumed by its first successful lookup: once removed, a
/// second lookup of the same id against the otherwise unmodified cache
/// cannot hit.
pub proof fn lemma_data_ref_single_use(c: Map<RefIdView, Seq<char>>, k: RefIdView)
    requires
        k is DataId,
        c.dom().contains(k),
    ensures
        !c.remove(k).dom().contains(k),
{
}

/// Applying propagation pairs writes a pair's hash, provided every pair
/// carrying that key agrees on it.
pub proof fn lemma_insert_pairs_value(
    c: Map<RefIdView, Seq<char>>,
    ps: Seq<(RefIdView, Seq<char>)>,
    k: RefIdView,
    v: Seq<char>,
)
    requires
        exists|p: int| 0 <= p < ps.len() && ps[p] == (k, v),
        forall|p: int| 0 <= p < ps.len() && (#[trigger] ps[p]).0 == k ==> ps[p].1 == v,
    ensures
        insert_pairs(c, ps).dom().contains(k),
        insert_pairs(c, ps)[k] == v,
    decreases ps.len(),
{
    let p = choose|p: int| 0 <= p < ps.len() && ps[p] == (k, v);
    if ps.last().0 != k {
        assert(ps.drop_last()[p] == ps[p]);
        lemma_insert_pairs_value(c, ps.drop_last(), k, v);
    }
}

/// A resolved action receipt that announces a data item contributes the
/// matching propagation pair.
pub proof fn lemma_propagation_pair_exists(
    rs: Seq<Receipt>,
    m: Map<RefIdView, Seq<char>>,
    i: int,
    j: int,
)
    requires
        0 <= i < rs.len(),
        rs[i].kind is Action,
        m.dom().contains(RefIdView::ReceiptId(rs[i].receipt_id@)),
        0 <= j < rs[i].kind->Action_output_data_receivers@.len(),
    ensures
        exists|p: int|
            0 <= p < propagation_pairs(rs, m).len() && propagation_pairs(rs, m)[p] == (
            RefIdView::DataId(rs[i].kind->Action_output_data_receivers@[j]@),
            m[RefIdView::ReceiptId(rs[i].receipt_id@)],
            ),
{
    lemma_propagation_pairs_split(rs, m, i);
    let before = propagation_pairs(rs.take(i), m);
    assert(rs.skip(i).first() == rs[i]);
    assert(propagation_pairs(rs.skip(i), m) == receipt_propagation_pairs(rs[i], m)
        + propagation_pairs(rs.skip(i).drop_first(), m));
    let rp = receipt_propagation_pairs(rs[i], m);
    assert(rp[j] == (
        RefIdView::DataId(rs[i].kind->Action_output_data_receivers@[j]@),
        m[RefIdView::ReceiptId(rs[i].receipt_id@)],
    ));
    let p = before.len() + j;
    assert(propagation_pairs(rs, m)[p as int] == rp[j]);
}

/// Forward propagation correctness: if an action receipt resolved to hash
/// `h` announces data item `d`, and no other propagation write of the
/// chunk claims `d` with a different hash, then — as long as nothing was
/// evicted, which [`crate::resolver::propagate_output_data`] guarantees
/// when the cache has room — the cache maps `d` to `h`, and a data receipt
/// for `d` in any later chunk resolves to `h` from the cache alone.
pub proof fn lemma_forward_propagation(
    cache0: Map<RefIdView, Seq<char>>,
    store: StoreView,
    rs: Seq<Receipt>,
    m: Map<RefIdView, Seq<char>>,
    i: int,
    j: int,
    rs2: Seq<Receipt>,
    i2: int,
)
    requires
        0 <= i < rs.len(),
        rs[i].kind is Action,
        m.dom().contains(RefIdView::ReceiptId(rs[i].receipt_id@)),
        0 <= j < rs[i].kind->Action_output_data_receivers@.len(),
        forall|p: int|
            0 <= p < propagation_pairs(rs, m).len() && (#[trigger] propagation_pairs(rs, m)[p]).0
                == RefIdView::DataId(rs[i].kind->Action_output_data_receivers@[j]@)
                ==> propagation_pairs(rs, m)[p].1 == m[RefIdView::ReceiptId(rs[i].receipt_id@)],
        0 <= i2 < rs2.len(),
        rs2[i2].kind matches ReceiptKind::Data { data_id } && data_id@ == rs[
            i
        ].kind->Action_output_data_receivers@[j]@,
    ensures
        insert_pairs(cache0, propagation_pairs(rs, m)).dom().contains(
            RefIdView::DataId(rs[i].kind->Action_output_data_receivers@[j]@),
        ),
        insert_pairs(cache0, propagation_pairs(rs, m))[RefIdView::DataId(
            rs[i].kind->Action_output_data_receivers@[j]@,
        )] == m[RefIdView::ReceiptId(rs[i].receipt_id@)],
        chunk_resolution(
            Map::empty(),
            insert_pairs(cache0, propagation_pairs(rs, m)),
            store,
            rs2,
        ).dom().contains(rs2[i2].ref_id()),
        chunk_resolution(Map::empty(), insert_pairs(cache0, propagation_pairs(rs, m)), store, rs2)[
            rs2[i2].ref_id()
        ] == m[RefIdView::ReceiptId(rs[i].receipt_id@)],
{
    let d = rs[i].kind->Action_output_data_receivers@[j]@;
    let h = m[RefIdView::ReceiptId(rs[i].receipt_id@)];
    lemma_propagation_pair_exists(rs, m, i, j);
    lemma_insert_pairs_value(cache0, propagation_pairs(rs, m), RefIdView::DataId(d), h);
    assert(rs2[i2].ref_id() == RefIdView::DataId(d));
    lemma_resolution_completeness_warm_cache(
        insert_pairs(cache0, propagation_pairs(rs, m)),
        store,
        rs2,
        i2,
    );
}

/// Recording a block as unresolved is idempotent: a replay of the same
/// block leaves exactly the one marker.
pub proof fn lemma_unresolved_marker_idempotent(s: Set<u64>, block_height: u64)
    ensures
        s.insert(block_height).insert(block_height) == s.insert(block_height),
{
    assert(s.insert(block_height).insert(block_height) =~= s.insert(block_height));
}

} // verus!
