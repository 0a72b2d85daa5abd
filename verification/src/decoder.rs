//! Decoding of one raw log entry into a transfer record.

use vstd::prelude::*;
use vstd::array::array_as_slice;
use vstd::slice::slice_subrange;
use crate::decimal::{lemma_nat_decimal_is_decimal, nat_decimal};
use crate::encoding::{address_hex, amount_decimal, be_value, hash_hex, hex_prefixed};
use crate::models::{TransferRecord, TransferView};

verus! {

/// What stands for the transaction hash of a log entry that carries none.
pub const UNKNOWN_TX: &'static str = "<unknown_tx>";

/// What stands for a sender or receiver that a log entry does not carry.
pub const UNKNOWN_ADDRESS: &'static str = "<unknown>";

/// The longest data field that denotes an amount: 256 bits.
pub const MAX_AMOUNT_BYTES: usize = 32;

/// A log entry as the chain delivers it.
///
/// The first topic is the signature of the event; the second and the third
/// carry the sender and the receiver, each in the low 20 bytes of a 32-byte
/// word. The data field carries the amount, most significant byte first.
pub struct RawLog {
    pub address: [u8; 20],
    pub topics: Vec<[u8; 32]>,
    pub data: Vec<u8>,
    pub transaction_hash: Option<[u8; 32]>,
    pub block_number: Option<u64>,
    pub log_index: Option<u64>,
}

/// Why a log entry could not be decoded.
#[derive(Clone, Copy, Debug, PartialEq, Eq, Structural)]
pub enum DecodeError {
    /// The data field is longer than 32 bytes, so it denotes no amount of at
    /// most 256 bits.
    AmountTooWide,
}

/// Whether a log entry can be decoded: its data field has at most 32 bytes.
pub open spec fn decodable(log: RawLog) -> bool {
    log.data@.len() <= MAX_AMOUNT_BYTES
}

/// The address that a topic carries: its low 20 bytes.
pub open spec fn topic_address(topic: Seq<u8>) -> Seq<u8> {
    topic.subrange(12, 32)
}

/// The address in topic `k` of a log entry in hexadecimal, or the
/// placeholder where the entry has no such topic.
pub open spec fn party(log: RawLog, k: int) -> Seq<char> {
    if k < log.topics@.len() {
        hex_prefixed(topic_address(log.topics@[k]@))
    } else {
        UNKNOWN_ADDRESS@
    }
}

/// The time of an event: that of its block where it is known, as a signed
/// 64-bit number (a time beyond its range wraps around), and the time of
/// ingestion otherwise.
pub open spec fn event_timestamp(block_timestamp: Option<u64>, now: i64) -> i64 {
    match block_timestamp {
        Some(t) => if t <= i64::MAX {
            t as i64
        } else {
            (t - 0x1_0000_0000_0000_0000) as i64
        },
        None => now,
    }
}

/// The record that a decodable log entry gives.
pub open spec fn decoded(log: RawLog, block_timestamp: Option<u64>, now: i64) -> TransferView {
    TransferView {
        tx_hash: match log.transaction_hash {
            Some(h) => hex_prefixed(h@),
            None => UNKNOWN_TX@,
        },
        block_number: match log.block_number {
            Some(n) => n,
            None => 0,
        },
        log_index: match log.log_index {
            Some(n) => n,
            None => 0,
        },
        token_address: hex_prefixed(log.address@),
        from_addr: party(log, 1),
        to_addr: party(log, 2),
        amount_raw: nat_decimal(be_value(log.data@)),
        timestamp: event_timestamp(block_timestamp, now),
        processed_at: now,
    }
}

/// Missing topics do not stand in the way of decoding: the placeholder
/// takes the place of the receiver where a log entry has fewer than three
/// topics, and of the sender as well where it has fewer than two.
pub proof fn lemma_missing_topics_use_placeholder(
    log: RawLog,
    block_timestamp: Option<u64>,
    now: i64,
)
    ensures
        log.topics@.len() < 3 ==> decoded(log, block_timestamp, now).to_addr == UNKNOWN_ADDRESS@,
        log.topics@.len() < 2 ==> decoded(log, block_timestamp, now).from_addr == UNKNOWN_ADDRESS@,
        decoded(log, block_timestamp, now).wf(),
{
    lemma_nat_decimal_is_decimal(be_value(log.data@));
}

/// Computes the time of an event from the time of its block, if known.
pub fn resolve_timestamp(block_timestamp: Option<u64>, now: i64) -> (t: i64)
    ensures
        t == event_timestamp(block_timestamp, now),
{
    match block_timestamp {
        Some(t) => {
            if t <= 0x7fff_ffff_ffff_ffff {
                t as i64
            } else {
                let low: u64 = t - 0x8000_0000_0000_0000;
                (low as i64) + i64::MIN
            }
        },
        None => now,
    }
}

/// Writes the address in topic `k` of a log entry, or the placeholder where
/// the entry has no such topic.
fn party_address(log: &RawLog, k: usize) -> (s: String)
    ensures
        s@ == party(*log, k as int),
{
    if k < log.topics.len() {
        let word = array_as_slice(&log.topics[k]);
        let low = slice_subrange(word, 12, 32);
        address_hex(low)
    } else {
        UNKNOWN_ADDRESS.to_owned()
    }
}

/// Decodes one log entry into a transfer record.
///
/// Sender and receiver come from the second and third topic; where a topic
/// is missing, a placeholder stands for the address and decoding goes on.
/// The amount is the data field read as an unsigned integer, most
/// significant byte first. Only a data field of more than 32 bytes is
/// refused.
pub fn decode_log(log: &RawLog, block_timestamp: Option<u64>, now: i64) -> (r: Result<
    TransferRecord,
    DecodeError,
>)
    ensures
        r is Ok <==> decodable(*log),
        r matches Ok(rec) ==> rec@ == decoded(*log, block_timestamp, now) && rec.wf(),
        r matches Err(e) ==> e == DecodeError::AmountTooWide,
{
    if log.data.len() > MAX_AMOUNT_BYTES {
        return Err(DecodeError::AmountTooWide);
    }
    let tx_hash = match &log.transaction_hash {
        Some(h) => hash_hex(array_as_slice(h)),
        None => UNKNOWN_TX.to_owned(),
    };
    let block_number: u64 = match log.block_number {
        Some(n) => n,
        None => 0,
    };
    let log_index: u64 = match log.log_index {
        Some(n) => n,
        None => 0,
    };
    let rec = TransferRecord {
        tx_hash,
        block_number,
        log_index,
        token_address: address_hex(array_as_slice(&log.address)),
        from_addr: party_address(log, 1),
        to_addr: party_address(log, 2),
        amount_raw: amount_decimal(log.data.as_slice()),
        timestamp: resolve_timestamp(block_timestamp, now),
        processed_at: now,
    };
    proof {
        lemma_nat_decimal_is_decimal(be_value(log.data@));
    }
    Ok(rec)
}

} // verus!
