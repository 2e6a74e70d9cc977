//! Start-up options shared by the indexer binaries, and the start-height
//! decision the stream is opened with.

use vstd::prelude::*;

verus! {

/// How balances are fetched for delta calculation: from the database or
/// over JSON RPC.
#[derive(Clone, Copy, Debug, PartialEq, Eq, Structural)]
pub enum BalanceMode {
    DB,
    RPC,
}

/// Which chain the indexer streams from.
#[derive(Clone, Copy, Debug, PartialEq, Eq, Structural)]
pub enum ChainId {
    Mainnet,
    Testnet,
}

/// Where the stream starts: at the chain's latest final block, or where the
/// previous run was interrupted.
#[derive(Clone, Copy, Debug, PartialEq, Eq, Structural)]
pub enum StartMode {
    FromLatest,
    FromInterruption,
}

/// Start options for the indexer binaries.
pub struct Opts {
    /// Enable debug-level logs.
    pub debug: bool,
    /// The indexer instance id, for reading and writing indexer meta-data.
    pub indexer_id: String,
    /// The indexer instance type.
    pub indexer_type: String,
    /// Block height to start the stream from.
    pub start_block_height: Option<u64>,
    /// Block to stop indexing at.
    pub end_block_height: Option<u64>,
    /// JSON RPC URL, needed to start from the latest block.
    pub rpc_url: Option<String>,
    /// Which chain to stream from.
    pub chain_id: ChainId,
    /// Port of the metrics/health service.
    pub port: u16,
    /// Where the stream starts.
    pub start_mode: StartMode,
    /// Database URL.
    pub database_url: String,
    /// How balances are fetched.
    pub balance_mode: BalanceMode,
}

/// Why a stream start height could not be decided.
#[derive(Debug, PartialEq, Eq)]
pub enum StartHeightError {
    /// Starting from the latest block needs the chain's final block height,
    /// fetched over RPC.
    MissingLatestBlockHeight,
    /// Resuming needs the last processed height recorded for this indexer.
    MissingLastProcessedHeight,
}

/// Decide the height the stream is opened at.  Starting fresh begins at the
/// chain's latest final block; resuming begins a hundred blocks before the
/// last processed height — never below zero — to be sure nothing between
/// was missed.
pub fn stream_start_height(
    start_mode: &StartMode,
    latest_block_height: Option<u64>,
    last_processed_block_height: Option<u64>,
) -> (r: Result<u64, StartHeightError>)
    ensures
        (match start_mode {
            StartMode::FromLatest => (match latest_block_height {
                Some(h) => r == Result::<u64, StartHeightError>::Ok(h),
                None => r == Result::<u64, StartHeightError>::Err(
                    StartHeightError::MissingLatestBlockHeight,
                ),
            }),
            StartMode::FromInterruption => (match last_processed_block_height {
                Some(h) => r == Result::<u64, StartHeightError>::Ok(
                    (if h < 100 {
                        0u64
                    } else {
                        (h - 100) as u64
                    }),
                ),
                None => r == Result::<u64, StartHeightError>::Err(
                    StartHeightError::MissingLastProcessedHeight,
                ),
            }),
        }),
{
    match start_mode {
        StartMode::FromLatest => {
            match latest_block_height {
                Some(h) => Ok(h),
                None => Err(StartHeightError::MissingLatestBlockHeight),
            }
        },
        StartMode::FromInterruption => {
            match last_processed_block_height {
                Some(h) => {
                    if h < 100 {
                        Ok(0)
                    } else {
                        Ok(h - 100)
                    }
                },
                None => Err(StartHeightError::MissingLastProcessedHeight),
            }
        },
    }
}

} // verus!
