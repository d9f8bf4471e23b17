//! Domain records and the error type of the query surface.
//!
//! Every record is written and read as one storage value; a batch-valued
//! record (receipts, transferable logs) packs a whole ordered sequence of
//! entries into a single value.

use vstd::prelude::*;

verus! {

/// Per-(owner, ticker) balance record: overall and available quantities.
#[derive(Clone, Copy, Debug, PartialEq, Eq, Structural)]
pub struct Balance {
    pub overall: u128,
    pub available: u128,
}

/// Per-ticker metadata record: supply and issuance parameters.
#[derive(Clone, Debug, PartialEq, Eq)]
pub struct TokenInfo {
    pub tick: Vec<u8>,
    pub supply: u128,
    pub limit_per_mint: u128,
    pub decimals: u8,
}

/// Mathematical value of a `TokenInfo`.
pub ghost struct TokenInfoV {
    pub tick: Seq<u8>,
    pub supply: u128,
    pub limit_per_mint: u128,
    pub decimals: u8,
}

impl View for TokenInfo {
    type V = TokenInfoV;

    open spec fn view(&self) -> TokenInfoV {
        TokenInfoV {
            tick: self.tick@,
            supply: self.supply,
            limit_per_mint: self.limit_per_mint,
            decimals: self.decimals,
        }
    }
}

/// One receipt of an action, recorded against a transaction identifier.
#[derive(Clone, Copy, Debug, PartialEq, Eq, Structural)]
pub struct ActionReceipt {
    pub op: u8,
    pub amount: u128,
}

/// One pending-transfer log entry, identified by its inscription identifier.
#[derive(Clone, Debug, PartialEq, Eq)]
pub struct TransferableLog {
    pub inscription_id: Vec<u8>,
    pub tick: Vec<u8>,
    pub amount: u128,
}

/// Mathematical value of a `TransferableLog`.
pub ghost struct TransferableLogV {
    pub inscription_id: Seq<u8>,
    pub tick: Seq<u8>,
    pub amount: u128,
}

impl View for TransferableLog {
    type V = TransferableLogV;

    open spec fn view(&self) -> TransferableLogV {
        TransferableLogV {
            inscription_id: self.inscription_id@,
            tick: self.tick@,
            amount: self.amount,
        }
    }
}

/// Views of a list of transferable-log entries.
pub open spec fn logs_view(s: Seq<TransferableLog>) -> Seq<TransferableLogV> {
    s.map_values(|l: TransferableLog| l@)
}

/// Views of a list of token-info records.
pub open spec fn tokens_view(s: Seq<TokenInfo>) -> Seq<TokenInfoV> {
    s.map_values(|t: TokenInfo| t@)
}

/// The logical tables of the ledger.
#[derive(Clone, Copy, Debug, PartialEq, Eq, Structural)]
pub enum TableId {
    Balances,
    TokenInfo,
    Events,
    TransferableLog,
}

/// Failures of the query surface. Absence of a key is never an error.
#[derive(Debug)]
pub enum LedgerError {
    /// The named table is missing or cannot be opened under the current
    /// transaction variant.
    Table(redb::TableError),
    /// Engine-level failure on a point get or range scan.
    Storage(redb::StorageError),
    /// A stored value does not decode as the record shape of its table;
    /// carries the table and the raw key for diagnostics.
    Decode { table: TableId, key: Vec<u8> },
}

} // verus!
