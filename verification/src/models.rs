//! The records that the indexer keeps: one per observed transfer, and one per
//! net-flow snapshot.

use vstd::prelude::*;
use crate::decimal::{decimal_value, is_decimal, signed_value};
use crate::amount::Amount;

verus! {

/// One observed token transfer.
///
/// A record is identified by its transaction hash together with its log
/// index. The raw amount is an exact integer in decimal notation.
#[derive(Debug)]
pub struct TransferRecord {
    pub tx_hash: String,
    pub block_number: u64,
    pub log_index: u64,
    pub token_address: String,
    pub from_addr: String,
    pub to_addr: String,
    pub amount_raw: String,
    pub timestamp: i64,
    pub processed_at: i64,
}

/// What a [`TransferRecord`] holds, as mathematical values.
pub struct TransferView {
    pub tx_hash: Seq<char>,
    pub block_number: u64,
    pub log_index: u64,
    pub token_address: Seq<char>,
    pub from_addr: Seq<char>,
    pub to_addr: Seq<char>,
    pub amount_raw: Seq<char>,
    pub timestamp: i64,
    pub processed_at: i64,
}

impl View for TransferRecord {
    type V = TransferView;

    open spec fn view(&self) -> TransferView {
        TransferView {
            tx_hash: self.tx_hash@,
            block_number: self.block_number,
            log_index: self.log_index,
            token_address: self.token_address@,
            from_addr: self.from_addr@,
            to_addr: self.to_addr@,
            amount_raw: self.amount_raw@,
            timestamp: self.timestamp,
            processed_at: self.processed_at,
        }
    }
}

impl TransferView {
    /// Whether the raw amount is a non-negative integer in decimal notation.
    pub open spec fn wf(self) -> bool {
        is_decimal(self.amount_raw)
    }

    /// The raw amount as a number.
    pub open spec fn amount(self) -> nat {
        decimal_value(self.amount_raw)
    }

    /// Whether two records have the same identity.
    pub open spec fn same_key(self, other: TransferView) -> bool {
        self.tx_hash == other.tx_hash && self.log_index == other.log_index
    }
}

impl TransferRecord {
    /// Whether the raw amount is a non-negative integer in decimal notation.
    pub open spec fn wf(&self) -> bool {
        self@.wf()
    }

    /// Tests whether the record is well formed.
    pub fn is_valid(&self) -> (b: bool)
        ensures
            b == self.wf(),
    {
        Amount::parse(self.amount_raw.as_str()).is_some()
    }

    /// Tests whether two records have the same identity.
    pub fn has_key_of(&self, other: &TransferRecord) -> (b: bool)
        ensures
            b == self@.same_key(other@),
    {
        self.log_index == other.log_index && self.tx_hash == other.tx_hash
    }
}

impl Clone for TransferRecord {
    fn clone(&self) -> (r: Self)
        ensures
            r@ == self@,
    {
        TransferRecord {
            tx_hash: self.tx_hash.clone(),
            block_number: self.block_number,
            log_index: self.log_index,
            token_address: self.token_address.clone(),
            from_addr: self.from_addr.clone(),
            to_addr: self.to_addr.clone(),
            amount_raw: self.amount_raw.clone(),
            timestamp: self.timestamp,
            processed_at: self.processed_at,
        }
    }
}

/// A point-in-time aggregate of the flows into and out of a watch-set.
///
/// Snapshots are only ever appended; the latest one for a token and an
/// exchange is the one appended last.
#[derive(Debug)]
pub struct NetflowSnapshot {
    pub token_address: String,
    pub exchange_name: String,
    pub as_of_block: u64,
    pub cumulative_inflow_raw: String,
    pub cumulative_outflow_raw: String,
    pub cumulative_netflow_raw: String,
    pub updated_at: i64,
}

/// What a [`NetflowSnapshot`] holds, as mathematical values.
pub struct NetflowView {
    pub token_address: Seq<char>,
    pub exchange_name: Seq<char>,
    pub as_of_block: u64,
    pub cumulative_inflow_raw: Seq<char>,
    pub cumulative_outflow_raw: Seq<char>,
    pub cumulative_netflow_raw: Seq<char>,
    pub updated_at: i64,
}

impl View for NetflowSnapshot {
    type V = NetflowView;

    open spec fn view(&self) -> NetflowView {
        NetflowView {
            token_address: self.token_address@,
            exchange_name: self.exchange_name@,
            as_of_block: self.as_of_block,
            cumulative_inflow_raw: self.cumulative_inflow_raw@,
            cumulative_outflow_raw: self.cumulative_outflow_raw@,
            cumulative_netflow_raw: self.cumulative_netflow_raw@,
            updated_at: self.updated_at,
        }
    }
}

impl NetflowView {
    /// The cumulative inflow as a number.
    pub open spec fn inflow(self) -> nat {
        decimal_value(self.cumulative_inflow_raw)
    }

    /// The cumulative outflow as a number.
    pub open spec fn outflow(self) -> nat {
        decimal_value(self.cumulative_outflow_raw)
    }

    /// The net flow as a number.
    pub open spec fn netflow(self) -> int {
        signed_value(self.cumulative_netflow_raw)
    }

    /// Whether the snapshot is consistent: inflow and outflow are integers
    /// in decimal notation, and the net flow is exactly their difference.
    pub open spec fn wf(self) -> bool {
        &&& is_decimal(self.cumulative_inflow_raw)
        &&& is_decimal(self.cumulative_outflow_raw)
        &&& self.netflow() == self.inflow() - self.outflow()
    }
}

impl Clone for NetflowSnapshot {
    fn clone(&self) -> (r: Self)
        ensures
            r@ == self@,
    {
        NetflowSnapshot {
            token_address: self.token_address.clone(),
            exchange_name: self.exchange_name.clone(),
            as_of_block: self.as_of_block,
            cumulative_inflow_raw: self.cumulative_inflow_raw.clone(),
            cumulative_outflow_raw: self.cumulative_outflow_raw.clone(),
            cumulative_netflow_raw: self.cumulative_netflow_raw.clone(),
            updated_at: self.updated_at,
        }
    }
}

} // verus!
