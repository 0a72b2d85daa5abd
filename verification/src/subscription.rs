//! What the indexer subscribes to: the logs of one contract that carry the
//! signature of the `Transfer` event.

use vstd::prelude::*;
use vstd::slice::slice_subrange;
use vstd::string::StringSliceAdditionalSpecFns;
use crate::encoding::{hex_decode, hex_value};

verus! {

/// The signature of the event `Transfer(address,address,uint256)`: the first
/// topic of every log entry that reports a token transfer.
pub const TRANSFER_SIG: &'static str =
    "0xddf252ad1be2c89b69c2b068fc378daa952ba7f163c4a11628f55a4df523b3ef";

/// The 32 bytes that [`TRANSFER_SIG`] writes in hexadecimal.
pub open spec fn transfer_topic_bytes() -> Seq<u8> {
    seq![
        0xddu8, 0xf2, 0x52, 0xad, 0x1b, 0xe2, 0xc8, 0x9b, 0x69, 0xc2, 0xb0, 0x68, 0xfc, 0x37, 0x8d, 0xaa,
        0x95, 0x2b, 0xa7, 0xf1, 0x63, 0xc4, 0xa1, 0x16, 0x28, 0xf5, 0x5a, 0x4d, 0xf5, 0x23, 0xb3, 0xef,
    ]
}

/// The logs to subscribe to: those that the contract at `address` emits with
/// `topic0` as their first topic.
pub struct LogFilter {
    pub address: [u8; 20],
    pub topic0: [u8; 32],
}

/// The signature of the `Transfer` event as a topic.
pub fn transfer_topic() -> (topic: [u8; 32])
    ensures
        topic@ == transfer_topic_bytes(),
{
    broadcast use vstd::string::is_ascii_spec_bytes;

    let text = TRANSFER_SIG.as_bytes();
    proof {
        reveal_strlit("0xddf252ad1be2c89b69c2b068fc378daa952ba7f163c4a11628f55a4df523b3ef");
        assert(vstd::utf8::is_ascii_chars(TRANSFER_SIG@));
        assert(vstd::string::is_ascii(TRANSFER_SIG));
        assert(text@ =~= Seq::new(TRANSFER_SIG@.len(), |i: int| TRANSFER_SIG@[i] as u8));
    }
    let digits = slice_subrange(text, 2, 66);
    proof {
        assert forall|i: int| 0 <= i < 64 implies hex_value(#[trigger] digits@[i]) is Some by {
            assert(digits@[i] == TRANSFER_SIG@[i + 2] as u8);
        }
    }
    let bytes = hex_decode(digits).unwrap();
    proof {
        let want = transfer_topic_bytes();
        assert forall|i: int| 0 <= i < 32 implies bytes@[i] == want[i] by {
            assert(digits@[2 * i] == TRANSFER_SIG@[2 * i + 2] as u8);
            assert(digits@[2 * i + 1] == TRANSFER_SIG@[2 * i + 3] as u8);
        }
    }
    let mut topic: [u8; 32] = [0u8; 32];
    let mut i: usize = 0;
    while i < 32
        invariant
            i <= 32,
            bytes@.len() == 32,
            forall|j: int| 0 <= j < i ==> topic@[j] == bytes@[j],
        decreases 32 - i,
    {
        topic[i] = bytes[i];
        i = i + 1;
    }
    proof {
        assert(topic@ =~= transfer_topic_bytes());
    }
    topic
}

/// The filter for the `Transfer` events of the contract at `contract`.
pub fn transfer_filter(contract: [u8; 20]) -> (filter: LogFilter)
    ensures
        filter.address == contract,
        filter.topic0@ == transfer_topic_bytes(),
{
    LogFilter { address: contract, topic0: transfer_topic() }
}

/// The shortest wait before a reconnection attempt, in milliseconds.
pub const BACKOFF_BASE_MS: u64 = 1_000;

/// The longest wait before a reconnection attempt, in milliseconds.
pub const BACKOFF_CAP_MS: u64 = 60_000;

/// The wait before reconnection attempt `attempt`, before jitter: the base
/// doubled with every failed attempt, up to the cap.
pub open spec fn backoff_ceiling(attempt: nat) -> nat
    decreases attempt,
{
    if attempt == 0 {
        BACKOFF_BASE_MS as nat
    } else if 2 * backoff_ceiling((attempt - 1) as nat) >= BACKOFF_CAP_MS {
        BACKOFF_CAP_MS as nat
    } else {
        2 * backoff_ceiling((attempt - 1) as nat)
    }
}

/// The wait before reconnection attempt `attempt`: half of the ceiling, and
/// of the other half as much as `jitter` selects.
pub open spec fn backoff_wait(attempt: nat, jitter: u64) -> nat {
    let half = backoff_ceiling(attempt) / 2;
    half + jitter as nat % (half + 1)
}

/// The ceiling lies between the base and the cap and never falls from one
/// attempt to the next.
pub proof fn lemma_backoff_ceiling_bounds(attempt: nat)
    ensures
        BACKOFF_BASE_MS <= backoff_ceiling(attempt) <= BACKOFF_CAP_MS,
        backoff_ceiling(attempt) <= backoff_ceiling(attempt + 1),
    decreases attempt,
{
    if attempt > 0 {
        lemma_backoff_ceiling_bounds((attempt - 1) as nat);
    }
}

/// The wait is at least half the ceiling and at most the ceiling, whatever
/// the jitter.
pub proof fn lemma_backoff_wait_bounds(attempt: nat, jitter: u64)
    ensures
        backoff_ceiling(attempt) / 2 <= backoff_wait(attempt, jitter) <= backoff_ceiling(attempt),
        backoff_wait(attempt, jitter) <= BACKOFF_CAP_MS,
{
    lemma_backoff_ceiling_bounds(attempt);
}

/// Computes the wait in milliseconds before reconnection attempt `attempt`,
/// counted from zero, with `jitter` an arbitrary number.
pub fn backoff_delay(attempt: u32, jitter: u64) -> (ms: u64)
    ensures
        ms == backoff_wait(attempt as nat, jitter),
{
    let mut ceiling: u64 = BACKOFF_BASE_MS;
    let mut i: u32 = 0;
    while i < attempt && ceiling < BACKOFF_CAP_MS
        invariant
            i <= attempt,
            ceiling == backoff_ceiling(i as nat),
            BACKOFF_BASE_MS <= ceiling <= BACKOFF_CAP_MS,
        decreases attempt - i,
    {
        ceiling = if 2 * ceiling >= BACKOFF_CAP_MS {
            BACKOFF_CAP_MS
        } else {
            2 * ceiling
        };
        i = i + 1;
    }
    proof {
        lemma_backoff_ceiling_capped(i as nat, attempt as nat);
    }
    let half: u64 = ceiling / 2;
    half + jitter % (half + 1)
}

proof fn lemma_backoff_ceiling_capped(i: nat, attempt: nat)
    requires
        i <= attempt,
        i < attempt ==> backoff_ceiling(i) == BACKOFF_CAP_MS,
    ensures
        backoff_ceiling(attempt) == backoff_ceiling(i),
    decreases attempt - i,
{
    if i < attempt {
        lemma_backoff_ceiling_capped(i + 1, attempt);
    }
}

} // verus!
