//! End-to-end behaviour of the lineage cache, resolver, and pipeline.

use indexer_lineage::cache::ReceiptsCache;
use indexer_lineage::pipeline::{
    process_block, store_chunk_receipts, store_chunk_transactions,
    store_execution_outcomes_for_chunk, BlockData,
};
use indexer_lineage::resolver::find_tx_hashes_for_receipts;
use indexer_lineage::store::LineageStore;
use indexer_lineage::types::{
    ExecutionOutcome, ExecutionStatus, LineageError, Receipt, ReceiptKind, ReceiptOrDataId,
    Transaction,
};

fn action_receipt(id: &str, receivers: &[&str]) -> Receipt {
    Receipt {
        receipt_id: id.to_string(),
        predecessor_id: "alice.near".to_string(),
        receiver_id: "bob.near".to_string(),
        kind: ReceiptKind::Action {
            output_data_receivers: receivers.iter().map(|r| r.to_string()).collect(),
        },
    }
}

fn data_receipt(id: &str, data_id: &str) -> Receipt {
    Receipt {
        receipt_id: id.to_string(),
        predecessor_id: "alice.near".to_string(),
        receiver_id: "bob.near".to_string(),
        kind: ReceiptKind::Data { data_id: data_id.to_string() },
    }
}

fn transaction(hash: &str, converted: &str) -> Transaction {
    Transaction {
        transaction_hash: hash.to_string(),
        signer_id: "alice.near".to_string(),
        receiver_id: "bob.near".to_string(),
        converted_into_receipt_id: converted.to_string(),
    }
}

#[test]
fn receipt_id_entry_survives_lookup() {
    let mut cache = ReceiptsCache::with_size(10);
    cache.set(ReceiptOrDataId::ReceiptId("r1".to_string()), "tx1".to_string());
    let key = ReceiptOrDataId::ReceiptId("r1".to_string());
    assert_eq!(cache.get(&key), Some("tx1".to_string()));
    assert_eq!(cache.get(&key), Some("tx1".to_string()));
    assert_eq!(cache.len(), 1);
}

#[test]
fn data_id_entry_consumed_by_lookup() {
    let mut cache = ReceiptsCache::with_size(10);
    cache.set(ReceiptOrDataId::DataId("d1".to_string()), "tx1".to_string());
    let key = ReceiptOrDataId::DataId("d1".to_string());
    assert_eq!(cache.get(&key), Some("tx1".to_string()));
    assert_eq!(cache.get(&key), None);
    assert_eq!(cache.len(), 0);
}

#[test]
fn peek_or_set_never_overwrites() {
    let mut cache = ReceiptsCache::with_size(10);
    assert_eq!(
        cache.peek_or_set(ReceiptOrDataId::ReceiptId("r1".to_string()), "tx1".to_string()),
        None,
    );
    assert_eq!(
        cache.peek_or_set(ReceiptOrDataId::ReceiptId("r1".to_string()), "tx2".to_string()),
        Some("tx1".to_string()),
    );
    let key = ReceiptOrDataId::ReceiptId("r1".to_string());
    assert_eq!(cache.get(&key), Some("tx1".to_string()));
}

#[test]
fn remove_takes_the_entry_out() {
    let mut cache = ReceiptsCache::with_size(10);
    cache.set(ReceiptOrDataId::ReceiptId("r1".to_string()), "tx1".to_string());
    let key = ReceiptOrDataId::ReceiptId("r1".to_string());
    assert_eq!(cache.remove(&key), Some("tx1".to_string()));
    assert_eq!(cache.remove(&key), None);
}

#[test]
fn full_cache_evicts_down_to_capacity() {
    let mut cache = ReceiptsCache::with_size(2);
    assert_eq!(cache.capacity(), 2);
    cache.set(ReceiptOrDataId::ReceiptId("r1".to_string()), "tx1".to_string());
    cache.set(ReceiptOrDataId::ReceiptId("r2".to_string()), "tx2".to_string());
    cache.set(ReceiptOrDataId::ReceiptId("r3".to_string()), "tx3".to_string());
    assert_eq!(cache.len(), 2);
    // The newest entry is always kept.
    let key = ReceiptOrDataId::ReceiptId("r3".to_string());
    assert_eq!(cache.get(&key), Some("tx3".to_string()));
    // The least recently used entry was evicted.
    let evicted = ReceiptOrDataId::ReceiptId("r1".to_string());
    assert_eq!(cache.get(&evicted), None);
}

#[test]
fn warm_cache_resolves_without_store() {
    let mut cache = ReceiptsCache::with_size(10);
    cache.set(ReceiptOrDataId::ReceiptId("r1".to_string()), "tx1".to_string());
    let store = LineageStore::new();
    let receipts = vec![action_receipt("r1", &[])];
    let resolved = find_tx_hashes_for_receipts(&mut cache, &store, &receipts);
    let key = ReceiptOrDataId::ReceiptId("r1".to_string());
    assert_eq!(resolved.get(&key), Some(&"tx1".to_string()));
}

#[test]
fn scenario_warm_resolution_propagates_and_consumes() {
    // Transaction "tx1" converts to receipt "r1"; the chunk holds an action
    // receipt "r1" announcing data item "d1"; the next block's chunk holds
    // the data receipt for "d1".
    let mut store = LineageStore::new();
    let mut cache = ReceiptsCache::with_size(100);
    let txs = vec![transaction("tx1", "r1")];
    store_chunk_transactions(&mut store, &mut cache, &txs).unwrap();

    let receipts = vec![action_receipt("r1", &["d1"])];
    let rec = store_chunk_receipts(&mut store, &mut cache, true, &receipts, 7).unwrap();
    assert!(rec.fully_resolved);
    assert_eq!(rec.action_receipts, vec![(0, "r1".to_string(), "tx1".to_string())]);
    assert_eq!(rec.outputs, vec![("d1".to_string(), "r1".to_string())]);

    // Next block: the data receipt resolves purely from the propagated
    // cache entry ...
    let next_receipts = vec![data_receipt("r2", "d1")];
    let rec2 = store_chunk_receipts(&mut store, &mut cache, true, &next_receipts, 8).unwrap();
    assert!(rec2.fully_resolved);
    assert_eq!(rec2.data_receipts, vec![(0, "r2".to_string(), "tx1".to_string())]);

    // ... and the hit consumed the entry.
    let key = ReceiptOrDataId::DataId("d1".to_string());
    assert_eq!(cache.get(&key), None);
}

#[test]
fn scenario_cold_start_falls_back_to_tier_a() {
    // Same block as the warm scenario, but the process restarts before the
    // next block: the cache is empty and resolution must join through the
    // persisted output rows.
    let mut store = LineageStore::new();
    let mut cache = ReceiptsCache::with_size(100);
    let txs = vec![transaction("tx1", "r1")];
    store_chunk_transactions(&mut store, &mut cache, &txs).unwrap();
    let receipts = vec![action_receipt("r1", &["d1"])];
    store_chunk_receipts(&mut store, &mut cache, true, &receipts, 7).unwrap();

    // Restart: a fresh, empty cache.
    let mut cold_cache = ReceiptsCache::with_size(100);
    let next_receipts = vec![data_receipt("r2", "d1")];
    let rec = store_chunk_receipts(&mut store, &mut cold_cache, true, &next_receipts, 8).unwrap();
    assert!(rec.fully_resolved);
    assert_eq!(rec.data_receipts, vec![(0, "r2".to_string(), "tx1".to_string())]);
}

#[test]
fn tier_b_joins_outcomes_to_action_receipts() {
    let mut store = LineageStore::new();
    store.record_action_receipt("r1".to_string(), "tx1".to_string());
    store.record_execution_outcome_receipt("r2".to_string(), "r1".to_string());
    let mut cache = ReceiptsCache::with_size(10);
    let receipts = vec![action_receipt("r2", &[])];
    let resolved = find_tx_hashes_for_receipts(&mut cache, &store, &receipts);
    let key = ReceiptOrDataId::ReceiptId("r2".to_string());
    assert_eq!(resolved.get(&key), Some(&"tx1".to_string()));
}

#[test]
fn tier_c_reads_the_transactions_table() {
    let mut store = LineageStore::new();
    store.record_transaction("r1".to_string(), "tx1".to_string());
    let mut cache = ReceiptsCache::with_size(10);
    let receipts = vec![action_receipt("r1", &[])];
    let resolved = find_tx_hashes_for_receipts(&mut cache, &store, &receipts);
    let key = ReceiptOrDataId::ReceiptId("r1".to_string());
    assert_eq!(resolved.get(&key), Some(&"tx1".to_string()));
}

#[test]
fn strict_mode_fails_closed() {
    let mut store = LineageStore::new();
    let mut cache = ReceiptsCache::with_size(10);
    let receipts = vec![action_receipt("orphan", &[])];
    let err = store_chunk_receipts(&mut store, &mut cache, true, &receipts, 42).unwrap_err();
    assert!(matches!(err, LineageError::UnresolvedReceipts { block_height: 42 }));
    // Nothing was committed: no receipt record, no marker.
    assert_eq!(store.action_receipt_parent(&"orphan".to_string()), None);
    assert_eq!(store.unresolved_marker_count(42), 0);
}

#[test]
fn non_strict_degradation_is_monotonic_and_audited() {
    let mut store = LineageStore::new();
    let mut cache = ReceiptsCache::with_size(10);
    cache.set(ReceiptOrDataId::ReceiptId("known".to_string()), "tx9".to_string());
    let receipts = vec![action_receipt("known", &[]), action_receipt("orphan", &[])];
    let rec = store_chunk_receipts(&mut store, &mut cache, false, &receipts, 42).unwrap();
    assert!(!rec.fully_resolved);
    // The resolved subset is still persisted ...
    assert_eq!(rec.action_receipts, vec![(0, "known".to_string(), "tx9".to_string())]);
    assert_eq!(
        store.action_receipt_parent(&"known".to_string()),
        Some(&"tx9".to_string()),
    );
    // ... the unresolved receipt is excluded ...
    assert_eq!(store.action_receipt_parent(&"orphan".to_string()), None);
    // ... and exactly one marker row exists, also after reprocessing.
    assert_eq!(store.unresolved_marker_count(42), 1);
    let mut cache2 = ReceiptsCache::with_size(10);
    cache2.set(ReceiptOrDataId::ReceiptId("known".to_string()), "tx9".to_string());
    store_chunk_receipts(&mut store, &mut cache2, false, &receipts, 42).unwrap();
    assert_eq!(store.unresolved_marker_count(42), 1);
}

#[test]
fn duplicate_causal_edge_is_fatal() {
    let mut store = LineageStore::new();
    let mut cache = ReceiptsCache::with_size(10);
    // Two transactions of one batch converted into the same receipt id.
    let txs = vec![transaction("tx1", "r1"), transaction("tx2", "r1")];
    let err = store_chunk_transactions(&mut store, &mut cache, &txs).unwrap_err();
    assert!(matches!(err, LineageError::DuplicateCausalEdge { .. }));
    assert_eq!(store.transaction_hash_for(&"r1".to_string()), None);

    // A seed conflicting with an already-cached edge.
    let first = vec![transaction("tx1", "r1")];
    store_chunk_transactions(&mut store, &mut cache, &first).unwrap();
    let conflicting = vec![transaction("tx2", "r1")];
    let err = store_chunk_transactions(&mut store, &mut cache, &conflicting).unwrap_err();
    assert!(matches!(err, LineageError::DuplicateCausalEdge { .. }));

    // Re-seeding the same edge is a harmless replay.
    store_chunk_transactions(&mut store, &mut cache, &first).unwrap();
}

#[test]
fn outcome_stage_consumes_and_forwards() {
    let mut store = LineageStore::new();
    let mut cache = ReceiptsCache::with_size(10);
    cache.set(ReceiptOrDataId::ReceiptId("r1".to_string()), "tx1".to_string());
    let outcomes = vec![ExecutionOutcome {
        executed_receipt_id: "r1".to_string(),
        produced_receipt_ids: vec!["r2".to_string(), "r3".to_string()],
        logs: vec![],
        status: ExecutionStatus::SuccessValue,
    }];
    let rows = store_execution_outcomes_for_chunk(&mut store, &mut cache, &outcomes);
    assert_eq!(
        rows,
        vec![
            (0, "r1".to_string(), "r2".to_string()),
            (1, "r1".to_string(), "r3".to_string()),
        ],
    );
    // The executed receipt's entry is spent; the children inherit the hash.
    let executed = ReceiptOrDataId::ReceiptId("r1".to_string());
    assert_eq!(cache.get(&executed), None);
    let child = ReceiptOrDataId::ReceiptId("r2".to_string());
    assert_eq!(cache.get(&child), Some("tx1".to_string()));
}

#[test]
fn process_block_runs_the_stages_in_order() {
    let mut store = LineageStore::new();
    let mut cache = ReceiptsCache::with_size(100);
    let block = BlockData {
        block_height: 10,
        transactions: vec![transaction("tx1", "r1")],
        chunks: vec![vec![action_receipt("r1", &["d1"])]],
        execution_outcomes: vec![ExecutionOutcome {
            executed_receipt_id: "r1".to_string(),
            produced_receipt_ids: vec!["r2".to_string()],
            logs: vec![],
            status: ExecutionStatus::SuccessReceiptId,
        }],
    };
    let rec = process_block(&mut store, &mut cache, true, &block).unwrap();
    assert_eq!(rec.unresolved_chunks, 0);
    assert_eq!(rec.action_receipts, vec![(0, "r1".to_string(), "tx1".to_string())]);
    assert_eq!(rec.outputs, vec![("d1".to_string(), "r1".to_string())]);
    assert_eq!(rec.outcome_receipts, vec![(0, "r1".to_string(), "r2".to_string())]);

    // The next block resolves both the forwarded child receipt and the
    // announced data item purely from cache.
    let block2 = BlockData {
        block_height: 11,
        transactions: vec![],
        chunks: vec![vec![action_receipt("r2", &[]), data_receipt("r3", "d1")]],
        execution_outcomes: vec![],
    };
    let rec2 = process_block(&mut store, &mut cache, true, &block2).unwrap();
    assert_eq!(rec2.unresolved_chunks, 0);
    assert_eq!(rec2.action_receipts, vec![(0, "r2".to_string(), "tx1".to_string())]);
    assert_eq!(rec2.data_receipts, vec![(1, "r3".to_string(), "tx1".to_string())]);
}

#[test]
fn process_block_strict_commits_no_receipt_records() {
    let mut store = LineageStore::new();
    let mut cache = ReceiptsCache::with_size(100);
    let block = BlockData {
        block_height: 10,
        transactions: vec![transaction("tx1", "r1")],
        chunks: vec![
            vec![action_receipt("r1", &[])],
            vec![action_receipt("orphan", &[])],
        ],
        execution_outcomes: vec![],
    };
    let err = process_block(&mut store, &mut cache, true, &block).unwrap_err();
    assert!(matches!(err, LineageError::UnresolvedReceipts { block_height: 10 }));
    // The seeded transaction stands, but no receipt record of any chunk
    // was committed, and no marker was written.
    assert_eq!(store.transaction_hash_for(&"r1".to_string()), Some(&"tx1".to_string()));
    assert_eq!(store.action_receipt_parent(&"r1".to_string()), None);
    assert_eq!(store.unresolved_marker_count(10), 0);
}

#[test]
fn execution_status_prints_its_label() {
    assert_eq!(ExecutionStatus::Unknown.print(), "UNKNOWN");
    assert_eq!(ExecutionStatus::Failure.print(), "FAILURE");
    assert_eq!(ExecutionStatus::SuccessValue.print(), "SUCCESS_VALUE");
    assert_eq!(ExecutionStatus::SuccessReceiptId.print(), "SUCCESS_RECEIPT_ID");
}

#[test]
fn resolved_map_keeps_the_first_hash() {
    let mut resolved = indexer_lineage::resolved::ResolvedMap::new();
    resolved.insert_if_absent(ReceiptOrDataId::ReceiptId("r1".to_string()), "tx1".to_string());
    resolved.insert_if_absent(ReceiptOrDataId::ReceiptId("r1".to_string()), "tx2".to_string());
    let key = ReceiptOrDataId::ReceiptId("r1".to_string());
    assert_eq!(resolved.get(&key), Some(&"tx1".to_string()));
    assert_eq!(resolved.len(), 1);
}

#[test]
fn process_block_non_strict_flags_and_continues() {
    let mut store = LineageStore::new();
    let mut cache = ReceiptsCache::with_size(100);
    let block = BlockData {
        block_height: 20,
        transactions: vec![transaction("tx1", "r1")],
        chunks: vec![vec![action_receipt("r1", &[]), action_receipt("orphan", &[])]],
        execution_outcomes: vec![],
    };
    let rec = process_block(&mut store, &mut cache, false, &block).unwrap();
    assert_eq!(rec.unresolved_chunks, 1);
    assert_eq!(rec.action_receipts, vec![(0, "r1".to_string(), "tx1".to_string())]);
    assert_eq!(store.unresolved_marker_count(20), 1);
    assert_eq!(store.action_receipt_parent(&"orphan".to_string()), None);
}
