//! Identifiers and block-scoped value types the lineage resolver works on.
//!
//! A receipt or data item is identified by its hash, rendered as a string.
//! The root transaction hash a receipt is traced back to is likewise an
//! opaque string.  Everything here is an immutable snapshot owned by the
//! pipeline for the duration of one block.

use vstd::prelude::*;

verus! {

/// The cache key domain: either a receipt id or a data-item id.
///
/// Equality is by (tag, hash).  The derived `PartialEq`/`Hash` serve the
/// cache's hash table; verified code compares ids with [`ReceiptOrDataId::same_as`].
#[derive(Clone, Hash, PartialEq, Eq, Debug)]
pub enum ReceiptOrDataId {
    ReceiptId(String),
    DataId(String),
}

/// Mathematical value of a [`ReceiptOrDataId`]: the tag plus the hash as a
/// sequence of characters.
pub enum RefIdView {
    ReceiptId(Seq<char>),
    DataId(Seq<char>),
}

impl View for ReceiptOrDataId {
    type V = RefIdView;

    open spec fn view(&self) -> RefIdView {
        match self {
            ReceiptOrDataId::ReceiptId(h) => RefIdView::ReceiptId(h@),
            ReceiptOrDataId::DataId(h) => RefIdView::DataId(h@),
        }
    }
}

impl ReceiptOrDataId {
    /// Value equality: same tag and same hash characters.
    pub fn same_as(&self, other: &Self) -> (r: bool)
        ensures
            r == (self@ == other@),
    {
        match (self, other) {
            (ReceiptOrDataId::ReceiptId(a), ReceiptOrDataId::ReceiptId(b)) => *a == *b,
            (ReceiptOrDataId::DataId(a), ReceiptOrDataId::DataId(b)) => *a == *b,
            _ => false,
        }
    }

}

/// The hash of the transaction a receipt was ultimately caused by.
pub type ParentTransactionHashString = String;

/// What a receipt does: an action receipt performs actions and announces the
/// data items it will produce; a data receipt delivers one data item.
pub enum ReceiptKind {
    Action { output_data_receivers: Vec<String> },
    Data { data_id: String },
}

/// One receipt as observed in a chunk.
pub struct Receipt {
    pub receipt_id: String,
    pub predecessor_id: String,
    pub receiver_id: String,
    pub kind: ReceiptKind,
}

impl Receipt {
    /// The id under which this receipt's lineage is cached: its own receipt id
    /// for an action receipt, the fulfilled data-item id for a data receipt.
    pub open spec fn ref_id(&self) -> RefIdView {
        match self.kind {
            ReceiptKind::Action { .. } => RefIdView::ReceiptId(self.receipt_id@),
            ReceiptKind::Data { data_id } => RefIdView::DataId(data_id@),
        }
    }

    /// Build the cache key for this receipt.
    pub fn causal_ref(&self) -> (r: ReceiptOrDataId)
        ensures
            r@ == self.ref_id(),
    {
        match &self.kind {
            ReceiptKind::Action { .. } => ReceiptOrDataId::ReceiptId(self.receipt_id.clone()),
            ReceiptKind::Data { data_id } => ReceiptOrDataId::DataId(data_id.clone()),
        }
    }
}

/// One transaction as observed in a chunk: the runtime converts it into
/// exactly one first receipt, recorded here as `converted_into_receipt_id`.
pub struct Transaction {
    pub transaction_hash: String,
    pub signer_id: String,
    pub receiver_id: String,
    pub converted_into_receipt_id: String,
}

/// How an execution ended.
#[derive(Clone, Copy, Debug, PartialEq, Eq, Structural)]
pub enum ExecutionStatus {
    Unknown,
    Failure,
    SuccessValue,
    SuccessReceiptId,
}

/// The label an execution status is persisted under.
pub open spec fn spec_status_label(status: ExecutionStatus) -> Seq<char> {
    match status {
        ExecutionStatus::Unknown => "UNKNOWN"@,
        ExecutionStatus::Failure => "FAILURE"@,
        ExecutionStatus::SuccessValue => "SUCCESS_VALUE"@,
        ExecutionStatus::SuccessReceiptId => "SUCCESS_RECEIPT_ID"@,
    }
}

impl ExecutionStatus {
    /// The column value this status is persisted as.
    pub fn print(&self) -> (r: String)
        ensures
            r@ == spec_status_label(*self),
    {
        match self {
            ExecutionStatus::Unknown => String::from_str("UNKNOWN"),
            ExecutionStatus::Failure => String::from_str("FAILURE"),
            ExecutionStatus::SuccessValue => String::from_str("SUCCESS_VALUE"),
            ExecutionStatus::SuccessReceiptId => String::from_str("SUCCESS_RECEIPT_ID"),
        }
    }
}

/// One execution outcome: the receipt that executed, the child receipts
/// the execution produced — whose lineage inherits the executed receipt's
/// root transaction — and how the execution ended.
pub struct ExecutionOutcome {
    pub executed_receipt_id: String,
    pub produced_receipt_ids: Vec<String>,
    pub logs: Vec<String>,
    pub status: ExecutionStatus,
}

/// The failures lineage processing can surface.
#[derive(Debug)]
pub enum LineageError {
    /// Two transactions in one block were converted into the same receipt id,
    /// or a seed would overwrite a different root hash: a source-data anomaly
    /// or a resolver bug, never silently overwritten.
    DuplicateCausalEdge { receipt_id: String },
    /// Strict mode: at least one receipt of the block has no discoverable
    /// root transaction; the block must not be committed.
    UnresolvedReceipts { block_height: u64 },
}

} // verus!
