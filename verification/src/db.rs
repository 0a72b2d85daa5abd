//! The store: every transfer exactly once, and an append-only history of
//! net-flow snapshots computed from the stored transfers.

use vstd::prelude::*;
use crate::amount::Amount;
use crate::decimal::{
    int_decimal, lemma_decimal_value_of_nat_decimal, lemma_nat_decimal_is_decimal,
    lemma_signed_value_of_int_decimal, nat_decimal,
};
use crate::models::{NetflowSnapshot, NetflowView, TransferRecord, TransferView};
use crate::text::{lowercase_of, to_lowercase};
use crate::watch::{same_address, watched, WatchSet};

verus! {

/// What an insertion did.
#[derive(Clone, Copy, Debug, PartialEq, Eq, Structural)]
pub enum InsertOutcome {
    /// The record was new and has been stored.
    Inserted,
    /// A record with the same identity was stored before; nothing changed.
    Duplicate,
}

/// Whether some record of `records` has the identity of `r`.
pub open spec fn has_key(records: Seq<TransferView>, r: TransferView) -> bool {
    exists|i: int| 0 <= i < records.len() && (#[trigger] records[i]).same_key(r)
}

/// The stored records after inserting `r`: unchanged where the identity of
/// `r` is taken, and with `r` at the end otherwise.
pub open spec fn inserted(records: Seq<TransferView>, r: TransferView) -> Seq<TransferView> {
    if has_key(records, r) {
        records
    } else {
        records.push(r)
    }
}

/// The outcome of inserting `r` into `records`.
pub open spec fn outcome_of(records: Seq<TransferView>, r: TransferView) -> InsertOutcome {
    if has_key(records, r) {
        InsertOutcome::Duplicate
    } else {
        InsertOutcome::Inserted
    }
}

/// Whether every record is well formed and no identity occurs twice.
pub open spec fn store_wf(records: Seq<TransferView>) -> bool {
    &&& forall|i: int| 0 <= i < records.len() ==> (#[trigger] records[i]).wf()
    &&& forall|i: int, j: int|
        0 <= i < j < records.len() ==> !(#[trigger] records[i]).same_key(#[trigger] records[j])
}

/// Whether a record counts towards the inflow of a token into a watch-set.
pub open spec fn counts_in(r: TransferView, token: Seq<char>, set: Seq<Seq<char>>) -> bool {
    same_address(r.token_address, token) && watched(set, r.to_addr)
}

/// Whether a record counts towards the outflow of a token from a watch-set.
pub open spec fn counts_out(r: TransferView, token: Seq<char>, set: Seq<Seq<char>>) -> bool {
    same_address(r.token_address, token) && watched(set, r.from_addr)
}

/// The sum of the raw amounts of all records of a token whose receiver is in
/// the watch-set.
pub open spec fn inflow_sum(records: Seq<TransferView>, token: Seq<char>, set: Seq<Seq<char>>) -> nat
    decreases records.len(),
{
    if records.len() == 0 {
        0
    } else {
        inflow_sum(records.drop_last(), token, set) + if counts_in(records.last(), token, set) {
            records.last().amount()
        } else {
            0
        }
    }
}

/// The sum of the raw amounts of all records of a token whose sender is in
/// the watch-set.
pub open spec fn outflow_sum(records: Seq<TransferView>, token: Seq<char>, set: Seq<Seq<char>>) -> nat
    decreases records.len(),
{
    if records.len() == 0 {
        0
    } else {
        outflow_sum(records.drop_last(), token, set) + if counts_out(records.last(), token, set) {
            records.last().amount()
        } else {
            0
        }
    }
}

/// The snapshot of the flows of `token` through the watch-set `set`, computed
/// from `records`.
pub open spec fn snapshot_of(
    records: Seq<TransferView>,
    token: Seq<char>,
    exchange: Seq<char>,
    set: Seq<Seq<char>>,
    as_of_block: u64,
    now: i64,
) -> NetflowView {
    NetflowView {
        token_address: token,
        exchange_name: exchange,
        as_of_block: as_of_block,
        cumulative_inflow_raw: nat_decimal(inflow_sum(records, token, set)),
        cumulative_outflow_raw: nat_decimal(outflow_sum(records, token, set)),
        cumulative_netflow_raw: int_decimal(
            inflow_sum(records, token, set) - outflow_sum(records, token, set),
        ),
        updated_at: now,
    }
}

/// Whether a snapshot belongs to the given token and exchange.
pub open spec fn is_for(s: NetflowView, token: Seq<char>, exchange: Seq<char>) -> bool {
    s.token_address == token && s.exchange_name == exchange
}

/// The snapshot appended last for a token and an exchange, or `None` where
/// there is none.
pub open spec fn latest_for(snapshots: Seq<NetflowView>, token: Seq<char>, exchange: Seq<char>) -> Option<
    NetflowView,
>
    decreases snapshots.len(),
{
    if snapshots.len() == 0 {
        None
    } else if is_for(snapshots.last(), token, exchange) {
        Some(snapshots.last())
    } else {
        latest_for(snapshots.drop_last(), token, exchange)
    }
}

/// The highest block number among `records`, or `None` where there are none.
pub open spec fn highest_block(records: Seq<TransferView>) -> Option<u64>
    decreases records.len(),
{
    if records.len() == 0 {
        None
    } else {
        match highest_block(records.drop_last()) {
            Some(b) => if b >= records.last().block_number {
                Some(b)
            } else {
                Some(records.last().block_number)
            },
            None => Some(records.last().block_number),
        }
    }
}

/// No stored transfer lies beyond the highest block number.
pub proof fn lemma_highest_block_bounds(records: Seq<TransferView>, i: int)
    requires
        0 <= i < records.len(),
    ensures
        highest_block(records) matches Some(b) && records[i].block_number <= b,
    decreases records.len(),
{
    if i < records.len() - 1 {
        lemma_highest_block_bounds(records.drop_last(), i);
    }
}

/// A snapshot computed from stored transfers is consistent, whatever the
/// transfers are: it reports their flows, and its net flow is exactly its
/// inflow minus its outflow.
pub proof fn lemma_snapshot_of_wf(
    records: Seq<TransferView>,
    token: Seq<char>,
    exchange: Seq<char>,
    set: Seq<Seq<char>>,
    as_of_block: u64,
    now: i64,
)
    ensures
        snapshot_of(records, token, exchange, set, as_of_block, now).wf(),
        snapshot_of(records, token, exchange, set, as_of_block, now).inflow() == inflow_sum(
            records,
            token,
            set,
        ),
        snapshot_of(records, token, exchange, set, as_of_block, now).outflow() == outflow_sum(
            records,
            token,
            set,
        ),
        snapshot_of(records, token, exchange, set, as_of_block, now).netflow() == inflow_sum(
            records,
            token,
            set,
        ) - outflow_sum(records, token, set),
{
    let i = inflow_sum(records, token, set);
    let o = outflow_sum(records, token, set);
    lemma_nat_decimal_is_decimal(i);
    lemma_nat_decimal_is_decimal(o);
    lemma_decimal_value_of_nat_decimal(i);
    lemma_decimal_value_of_nat_decimal(o);
    lemma_signed_value_of_int_decimal(i - o);
}

/// The number of records of `records` that have the identity of `r`.
pub open spec fn key_count(records: Seq<TransferView>, r: TransferView) -> nat
    decreases records.len(),
{
    if records.len() == 0 {
        0
    } else {
        key_count(records.drop_last(), r) + if records.last().same_key(r) {
            1nat
        } else {
            0nat
        }
    }
}

/// After an insertion the store is in order and holds the identity of the
/// inserted record.
pub proof fn lemma_inserted_wf(records: Seq<TransferView>, r: TransferView)
    requires
        store_wf(records),
        r.wf(),
    ensures
        store_wf(inserted(records, r)),
        has_key(inserted(records, r), r),
{
    if has_key(records, r) {
    } else {
        let after = records.push(r);
        assert(after[records.len() as int].same_key(r));
        assert forall|i: int, j: int| 0 <= i < j < after.len() implies !(#[trigger] after[i]).same_key(
            #[trigger] after[j],
        ) by {
            if j == records.len() {
                assert(records[i].same_key(r) == after[i].same_key(after[j]));
            }
        }
    }
}

/// Insertion only ever appends: what was stored stays where it was and as
/// it was.
pub proof fn lemma_insert_keeps_stored(records: Seq<TransferView>, r: TransferView)
    ensures
        records.len() <= inserted(records, r).len() <= records.len() + 1,
        inserted(records, r).take(records.len() as int) == records,
{
    assert(inserted(records, r).take(records.len() as int) =~= records);
}

/// Inserting the same identity a second time changes nothing: the store is
/// what it was after the first insertion.
pub proof fn lemma_insert_idempotent(records: Seq<TransferView>, r: TransferView, again: TransferView)
    requires
        again.same_key(r),
    ensures
        inserted(inserted(records, r), again) == inserted(records, r),
{
    let once = inserted(records, r);
    if has_key(records, r) {
        let i = choose|i: int| 0 <= i < records.len() && (#[trigger] records[i]).same_key(r);
        assert(once[i].same_key(again));
    } else {
        assert(once[records.len() as int].same_key(again));
    }
}

/// In a store that is in order, an identity that is held is held by exactly
/// one record, and one that is not held by none.
pub proof fn lemma_key_count(records: Seq<TransferView>, r: TransferView)
    requires
        store_wf(records),
    ensures
        key_count(records, r) == if has_key(records, r) {
            1nat
        } else {
            0nat
        },
    decreases records.len(),
{
    if records.len() > 0 {
        let n = records.len() - 1;
        let front = records.drop_last();
        assert(store_wf(front)) by {
            assert forall|i: int| 0 <= i < front.len() implies (#[trigger] front[i]).wf() by {
                assert(front[i] == records[i]);
            }
            assert forall|i: int, j: int| 0 <= i < j < front.len() implies !(#[trigger] front[i]).same_key(
                #[trigger] front[j],
            ) by {
                assert(front[i] == records[i] && front[j] == records[j]);
            }
        }
        lemma_key_count(front, r);
        if has_key(front, r) {
            let i = choose|i: int| 0 <= i < front.len() && (#[trigger] front[i]).same_key(r);
            assert(records[i] == front[i]);
            assert(records[i].same_key(r));
            assert(!records[i].same_key(records[n]));
        } else if records.last().same_key(r) {
            assert(records[n].same_key(r));
        } else {
            if has_key(records, r) {
                let i = choose|i: int| 0 <= i < records.len() && (#[trigger] records[i]).same_key(r);
                assert(i < n);
                assert(front[i].same_key(r));
            }
        }
    }
}

/// After two insertions of one identity the store holds exactly one record
/// with it.
pub proof fn lemma_insert_twice_keeps_one(records: Seq<TransferView>, r: TransferView, again: TransferView)
    requires
        store_wf(records),
        r.wf(),
        again.same_key(r),
    ensures
        key_count(inserted(inserted(records, r), again), r) == 1,
{
    lemma_insert_idempotent(records, r, again);
    lemma_inserted_wf(records, r);
    lemma_key_count(inserted(records, r), r);
}

/// The transfers and the snapshots that have been stored.
pub struct Database {
    transfers: Vec<TransferRecord>,
    snapshots: Vec<NetflowSnapshot>,
}

impl Database {
    /// The stored transfers, in the order of their insertion.
    pub closed spec fn transfers(&self) -> Seq<TransferView> {
        Seq::new(self.transfers@.len(), |i: int| self.transfers@[i]@)
    }

    /// The stored snapshots, in the order of their insertion.
    pub closed spec fn snapshots(&self) -> Seq<NetflowView> {
        Seq::new(self.snapshots@.len(), |i: int| self.snapshots@[i]@)
    }

    /// Whether the store is in order: every transfer is well formed, no
    /// identity occurs twice, and every snapshot is consistent.
    pub open spec fn wf(&self) -> bool {
        &&& store_wf(self.transfers())
        &&& forall|i: int| 0 <= i < self.snapshots().len() ==> (#[trigger] self.snapshots()[i]).wf()
    }

    /// An empty store.
    pub fn new() -> (db: Database)
        ensures
            db.wf(),
            db.transfers() == Seq::<TransferView>::empty(),
            db.snapshots() == Seq::<NetflowView>::empty(),
    {
        let db = Database { transfers: Vec::new(), snapshots: Vec::new() };
        proof {
            assert(db.transfers() =~= Seq::<TransferView>::empty());
            assert(db.snapshots() =~= Seq::<NetflowView>::empty());
        }
        db
    }

    /// The number of stored transfers.
    pub fn transfer_count(&self) -> (n: usize)
        ensures
            n == self.transfers().len(),
    {
        self.transfers.len()
    }

    /// The number of stored snapshots.
    pub fn snapshot_count(&self) -> (n: usize)
        ensures
            n == self.snapshots().len(),
    {
        self.snapshots.len()
    }

    /// The stored transfer at position `i`, if there is one.
    pub fn transfer(&self, i: usize) -> (r: Option<&TransferRecord>)
        ensures
            r is Some <==> i < self.transfers().len(),
            r matches Some(rec) ==> rec@ == self.transfers()[i as int],
    {
        if i < self.transfers.len() {
            Some(&self.transfers[i])
        } else {
            None
        }
    }

    /// The stored snapshot at position `i`, if there is one.
    pub fn snapshot(&self, i: usize) -> (r: Option<&NetflowSnapshot>)
        ensures
            r is Some <==> i < self.snapshots().len(),
            r matches Some(s) ==> s@ == self.snapshots()[i as int],
    {
        if i < self.snapshots.len() {
            Some(&self.snapshots[i])
        } else {
            None
        }
    }

    /// The highest block number of a stored transfer, if any is stored.
    pub fn highest_block(&self) -> (r: Option<u64>)
        ensures
            r == highest_block(self.transfers()),
    {
        let ghost all = self.transfers();
        let mut best: Option<u64> = None;
        let mut i: usize = 0;
        proof {
            assert(all.take(0).len() == 0);
        }
        while i < self.transfers.len()
            invariant
                all == self.transfers(),
                i <= all.len(),
                best == highest_block(all.take(i as int)),
            decreases all.len() - i,
        {
            let block: u64 = self.transfers[i].block_number;
            proof {
                let next = all.take(i + 1);
                assert(next.last().block_number == block);
                assert(next.drop_last() =~= all.take(i as int));
            }
            best = match best {
                Some(b) => if b >= block {
                    Some(b)
                } else {
                    Some(block)
                },
                None => Some(block),
            };
            i = i + 1;
        }
        proof {
            assert(all.take(i as int) =~= all);
        }
        best
    }

    /// Tests whether a transfer with the identity of `rec` is stored.
    pub fn contains_key_of(&self, rec: &TransferRecord) -> (b: bool)
        ensures
            b == has_key(self.transfers(), rec@),
    {
        let mut i: usize = 0;
        while i < self.transfers.len()
            invariant
                i <= self.transfers@.len(),
                forall|j: int| 0 <= j < i ==> !(#[trigger] self.transfers()[j]).same_key(rec@),
            decreases self.transfers@.len() - i,
        {
            if self.transfers[i].has_key_of(rec) {
                proof {
                    assert(self.transfers()[i as int].same_key(rec@));
                }
                return true;
            }
            i = i + 1;
        }
        false
    }

    /// Sums the raw amounts of the stored transfers of a token: first those
    /// whose receiver is in the watch-set, then those whose sender is.
    pub fn cumulative_flows(&self, token_address: &str, watch: &WatchSet) -> (flows: (
        Amount,
        Amount,
    ))
        requires
            self.wf(),
        ensures
            flows.0@ == inflow_sum(self.transfers(), token_address@, watch@),
            flows.1@ == outflow_sum(self.transfers(), token_address@, watch@),
    {
        let token = to_lowercase(token_address);
        let ghost all = self.transfers();
        let ghost tk = token_address@;
        let ghost set = watch@;
        let mut inflow = Amount::zero();
        let mut outflow = Amount::zero();
        let mut i: usize = 0;
        proof {
            assert(all.take(0).len() == 0);
        }
        while i < self.transfers.len()
            invariant
                all == self.transfers(),
                store_wf(all),
                tk == token_address@,
                set == watch@,
                token@ == lowercase_of(tk),
                i <= all.len(),
                inflow@ == inflow_sum(all.take(i as int), tk, set),
                outflow@ == outflow_sum(all.take(i as int), tk, set),
            decreases all.len() - i,
        {
            let rec = &self.transfers[i];
            proof {
                let next = all.take(i + 1);
                assert(next.last() == rec@);
                assert(next.drop_last() =~= all.take(i as int));
                assert(all[i as int].wf());
            }
            if to_lowercase(rec.token_address.as_str()) == token {
                let amount = Amount::parse(rec.amount_raw.as_str()).unwrap();
                if watch.contains(rec.to_addr.as_str()) {
                    inflow = inflow.plus(&amount);
                }
                if watch.contains(rec.from_addr.as_str()) {
                    outflow = outflow.plus(&amount);
                }
            }
            i = i + 1;
        }
        proof {
            assert(all.take(i as int) =~= all);
        }
        (inflow, outflow)
    }

    /// The snapshot stored last for a token and an exchange, if there is one.
    ///
    /// Token and exchange are compared as they are written.
    pub fn latest_netflow(&self, token_address: &str, exchange_name: &str) -> (r: Option<
        &NetflowSnapshot,
    >)
        ensures
            r is Some <==> latest_for(self.snapshots(), token_address@, exchange_name@) is Some,
            r matches Some(s) ==> latest_for(self.snapshots(), token_address@, exchange_name@)
                == Some(s@),
    {
        let token = token_address.to_owned();
        let exchange = exchange_name.to_owned();
        let ghost all = self.snapshots();
        let mut i: usize = self.snapshots.len();
        proof {
            assert(all.take(i as int) =~= all);
        }
        while i > 0
            invariant
                all == self.snapshots(),
                token@ == token_address@,
                exchange@ == exchange_name@,
                i <= all.len(),
                latest_for(all, token@, exchange@) == latest_for(
                    all.take(i as int),
                    token@,
                    exchange@,
                ),
            decreases i,
        {
            let s = &self.snapshots[i - 1];
            proof {
                let prefix = all.take(i as int);
                assert(prefix.last() == s@);
                assert(prefix.drop_last() =~= all.take(i - 1));
            }
            if s.token_address == token && s.exchange_name == exchange {
                return Some(s);
            }
            i = i - 1;
        }
        proof {
            assert(all.take(0).len() == 0);
        }
        None
    }
}

/// Stores a transfer unless one with the same identity is stored already.
///
/// A repeated identity is not an error: the store is left as it was, and the
/// outcome says so.
pub fn insert_transfer(db: &mut Database, rec: &TransferRecord) -> (outcome: InsertOutcome)
    requires
        old(db).wf(),
        rec.wf(),
    ensures
        final(db).wf(),
        final(db).transfers() == inserted(old(db).transfers(), rec@),
        final(db).snapshots() == old(db).snapshots(),
        outcome == outcome_of(old(db).transfers(), rec@),
{
    if db.contains_key_of(rec) {
        InsertOutcome::Duplicate
    } else {
        let ghost before = db.transfers();
        db.transfers.push(rec.clone());
        proof {
            assert(db.transfers() =~= before.push(rec@));
            assert(db.snapshots() =~= old(db).snapshots());
        }
        InsertOutcome::Inserted
    }
}

/// Recomputes the cumulative flows of a token through a watch-set from all
/// stored transfers, and appends the result as a new snapshot.
///
/// The inflow is the sum over the transfers of the token whose receiver is in
/// the watch-set, the outflow the sum over those whose sender is, and the net
/// flow their exact difference. Nothing stored before is changed.
pub fn compute_and_store_cumulative(
    db: &mut Database,
    token_address: &str,
    exchange_name: &str,
    watch: &WatchSet,
    as_of_block: u64,
    now: i64,
) -> (snapshot: NetflowSnapshot)
    requires
        old(db).wf(),
    ensures
        final(db).wf(),
        final(db).transfers() == old(db).transfers(),
        final(db).snapshots() == old(db).snapshots().push(snapshot@),
        snapshot@ == snapshot_of(
            old(db).transfers(),
            token_address@,
            exchange_name@,
            watch@,
            as_of_block,
            now,
        ),
{
    let (inflow, outflow) = db.cumulative_flows(token_address, watch);
    let snapshot = NetflowSnapshot {
        token_address: token_address.to_owned(),
        exchange_name: exchange_name.to_owned(),
        as_of_block,
        cumulative_inflow_raw: inflow.to_decimal(),
        cumulative_outflow_raw: outflow.to_decimal(),
        cumulative_netflow_raw: Amount::net_decimal(&inflow, &outflow),
        updated_at: now,
    };
    let ghost before = db.snapshots();
    db.snapshots.push(snapshot.clone());
    proof {
        lemma_snapshot_of_wf(
            old(db).transfers(),
            token_address@,
            exchange_name@,
            watch@,
            as_of_block,
            now,
        );
        assert(db.snapshots() =~= before.push(snapshot@));
        assert(db.transfers() =~= old(db).transfers());
    }
    snapshot
}

} // verus!
