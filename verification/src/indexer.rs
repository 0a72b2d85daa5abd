//! The indexing pipeline: decode a log entry, store the transfer, and where
//! the transfer touches the watch-set, recompute the net flow and append a
//! snapshot.

use vstd::prelude::*;
use crate::db::{
    compute_and_store_cumulative, counts_in, counts_out, has_key, inflow_sum, insert_transfer,
    inserted, is_for, lemma_inserted_wf, lemma_snapshot_of_wf, outcome_of, outflow_sum, snapshot_of,
    store_wf, Database, InsertOutcome,
};
use crate::decoder::{decodable, decode_log, decoded, DecodeError, RawLog};
use crate::models::{NetflowSnapshot, NetflowView, TransferRecord, TransferView};
use crate::watch::{same_address, touches, watched, WatchSet};

verus! {

/// The address of the POL token contract on Polygon.
pub const POL_CONTRACT: &'static str = "0x455e53CBB86018Ac2B8092FdCd39d8444aFFC3F6";

/// The name under which the flows of the watched exchange are kept.
pub const DEFAULT_EXCHANGE: &'static str = "Binance";

/// What processing one transfer did.
pub struct Processed {
    /// The decoded transfer.
    pub record: TransferRecord,
    /// Whether the transfer was new to the store.
    pub outcome: InsertOutcome,
    /// The snapshot that was appended, if the transfer touches the watch-set.
    pub snapshot: Option<NetflowSnapshot>,
}

/// The inflow that the latest of `snapshots` reports, zero where there is none.
pub open spec fn reported_inflow(snapshots: Seq<NetflowView>) -> nat {
    if snapshots.len() == 0 {
        0
    } else {
        snapshots.last().inflow()
    }
}

/// The outflow that the latest of `snapshots` reports, zero where there is none.
pub open spec fn reported_outflow(snapshots: Seq<NetflowView>) -> nat {
    if snapshots.len() == 0 {
        0
    } else {
        snapshots.last().outflow()
    }
}

/// Whether the latest snapshot reports the flows of the stored transfers.
pub open spec fn in_sync(
    records: Seq<TransferView>,
    snapshots: Seq<NetflowView>,
    token: Seq<char>,
    set: Seq<Seq<char>>,
) -> bool {
    &&& reported_inflow(snapshots) == inflow_sum(records, token, set)
    &&& reported_outflow(snapshots) == outflow_sum(records, token, set)
}

/// What inserting `r` adds to the inflow: its raw amount where it is new to
/// the store, of the token, and received in the watch-set; nothing otherwise.
pub open spec fn inflow_gain(
    records: Seq<TransferView>,
    r: TransferView,
    token: Seq<char>,
    set: Seq<Seq<char>>,
) -> nat {
    if !has_key(records, r) && counts_in(r, token, set) {
        r.amount()
    } else {
        0
    }
}

/// What inserting `r` adds to the outflow: its raw amount where it is new to
/// the store, of the token, and sent from the watch-set; nothing otherwise.
pub open spec fn outflow_gain(
    records: Seq<TransferView>,
    r: TransferView,
    token: Seq<char>,
    set: Seq<Seq<char>>,
) -> nat {
    if !has_key(records, r) && counts_out(r, token, set) {
        r.amount()
    } else {
        0
    }
}

/// The snapshots after processing the transfer `r`: one more, recomputed
/// from all stored transfers, where `r` touches the watch-set, and the same
/// as before otherwise.
pub open spec fn snapshots_after(
    records: Seq<TransferView>,
    snapshots: Seq<NetflowView>,
    r: TransferView,
    token: Seq<char>,
    exchange: Seq<char>,
    set: Seq<Seq<char>>,
    now: i64,
) -> Seq<NetflowView> {
    if touches(set, r) {
        snapshots.push(
            snapshot_of(inserted(records, r), token, exchange, set, r.block_number, now),
        )
    } else {
        snapshots
    }
}

/// The stored transfers after processing the transfers of `batch` in order.
pub open spec fn transfers_after_all(records: Seq<TransferView>, batch: Seq<TransferView>) -> Seq<
    TransferView,
>
    decreases batch.len(),
{
    if batch.len() == 0 {
        records
    } else {
        inserted(transfers_after_all(records, batch.drop_last()), batch.last())
    }
}

/// The snapshots after processing the transfers of `batch` in order.
pub open spec fn snapshots_after_all(
    records: Seq<TransferView>,
    snapshots: Seq<NetflowView>,
    batch: Seq<TransferView>,
    token: Seq<char>,
    exchange: Seq<char>,
    set: Seq<Seq<char>>,
    now: i64,
) -> Seq<NetflowView>
    decreases batch.len(),
{
    if batch.len() == 0 {
        snapshots
    } else {
        snapshots_after(
            transfers_after_all(records, batch.drop_last()),
            snapshots_after_all(records, snapshots, batch.drop_last(), token, exchange, set, now),
            batch.last(),
            token,
            exchange,
            set,
            now,
        )
    }
}

/// Inserting a transfer raises each flow by what the transfer adds to it.
pub proof fn lemma_flows_after_insert(
    records: Seq<TransferView>,
    r: TransferView,
    token: Seq<char>,
    set: Seq<Seq<char>>,
)
    ensures
        inflow_sum(inserted(records, r), token, set) == inflow_sum(records, token, set)
            + inflow_gain(records, r, token, set),
        outflow_sum(inserted(records, r), token, set) == outflow_sum(records, token, set)
            + outflow_gain(records, r, token, set),
{
    if !has_key(records, r) {
        assert(records.push(r).drop_last() =~= records);
    }
}

/// A transfer whose sender and receiver are both outside the watch-set is
/// stored, adds no snapshot and changes neither flow.
pub proof fn lemma_unwatched_transfer(
    records: Seq<TransferView>,
    snapshots: Seq<NetflowView>,
    r: TransferView,
    token: Seq<char>,
    exchange: Seq<char>,
    set: Seq<Seq<char>>,
    now: i64,
)
    requires
        !watched(set, r.from_addr),
        !watched(set, r.to_addr),
    ensures
        has_key(inserted(records, r), r),
        snapshots_after(records, snapshots, r, token, exchange, set, now) == snapshots,
        inflow_sum(inserted(records, r), token, set) == inflow_sum(records, token, set),
        outflow_sum(inserted(records, r), token, set) == outflow_sum(records, token, set),
{
    lemma_flows_after_insert(records, r, token, set);
    if !has_key(records, r) {
        assert(records.push(r)[records.len() as int].same_key(r));
    }
}

/// A new transfer of the token into the watch-set, from a sender outside it,
/// adds exactly one snapshot. Where the latest snapshot before reported the
/// flows of the stored transfers, the new one reports an inflow that is
/// larger by the raw amount, and the same outflow.
pub proof fn lemma_incoming_transfer(
    records: Seq<TransferView>,
    snapshots: Seq<NetflowView>,
    r: TransferView,
    token: Seq<char>,
    exchange: Seq<char>,
    set: Seq<Seq<char>>,
    now: i64,
)
    requires
        in_sync(records, snapshots, token, set),
        !has_key(records, r),
        same_address(r.token_address, token),
        watched(set, r.to_addr),
        !watched(set, r.from_addr),
    ensures
        snapshots_after(records, snapshots, r, token, exchange, set, now).len() == snapshots.len()
            + 1,
        reported_inflow(snapshots_after(records, snapshots, r, token, exchange, set, now))
            == reported_inflow(snapshots) + r.amount(),
        reported_outflow(snapshots_after(records, snapshots, r, token, exchange, set, now))
            == reported_outflow(snapshots),
{
    lemma_flows_after_insert(records, r, token, set);
    lemma_snapshot_of_wf(inserted(records, r), token, exchange, set, r.block_number, now);
}

/// A new transfer of the token out of the watch-set, to a receiver outside
/// it, adds exactly one snapshot. Where the latest snapshot before reported
/// the flows of the stored transfers, the new one reports an outflow that is
/// larger by the raw amount, and the same inflow.
pub proof fn lemma_outgoing_transfer(
    records: Seq<TransferView>,
    snapshots: Seq<NetflowView>,
    r: TransferView,
    token: Seq<char>,
    exchange: Seq<char>,
    set: Seq<Seq<char>>,
    now: i64,
)
    requires
        in_sync(records, snapshots, token, set),
        !has_key(records, r),
        same_address(r.token_address, token),
        watched(set, r.from_addr),
        !watched(set, r.to_addr),
    ensures
        snapshots_after(records, snapshots, r, token, exchange, set, now).len() == snapshots.len()
            + 1,
        reported_outflow(snapshots_after(records, snapshots, r, token, exchange, set, now))
            == reported_outflow(snapshots) + r.amount(),
        reported_inflow(snapshots_after(records, snapshots, r, token, exchange, set, now))
            == reported_inflow(snapshots),
{
    lemma_flows_after_insert(records, r, token, set);
    lemma_snapshot_of_wf(inserted(records, r), token, exchange, set, r.block_number, now);
}

/// Processing a transfer only ever appends to the snapshots: those stored
/// before stay where they were and as they were.
pub proof fn lemma_step_keeps_snapshots(
    records: Seq<TransferView>,
    snapshots: Seq<NetflowView>,
    r: TransferView,
    token: Seq<char>,
    exchange: Seq<char>,
    set: Seq<Seq<char>>,
    now: i64,
)
    ensures
        snapshots_after(records, snapshots, r, token, exchange, set, now).take(
            snapshots.len() as int,
        ) == snapshots,
{
    assert(snapshots_after(records, snapshots, r, token, exchange, set, now).take(
        snapshots.len() as int,
    ) =~= snapshots);
}

/// Processing a transfer keeps the latest snapshot in step with the stored
/// transfers.
pub proof fn lemma_step_keeps_sync(
    records: Seq<TransferView>,
    snapshots: Seq<NetflowView>,
    r: TransferView,
    token: Seq<char>,
    exchange: Seq<char>,
    set: Seq<Seq<char>>,
    now: i64,
)
    requires
        in_sync(records, snapshots, token, set),
    ensures
        in_sync(
            inserted(records, r),
            snapshots_after(records, snapshots, r, token, exchange, set, now),
            token,
            set,
        ),
{
    lemma_flows_after_insert(records, r, token, set);
    lemma_snapshot_of_wf(inserted(records, r), token, exchange, set, r.block_number, now);
}

/// The pipeline for one token and one watched exchange, with its store.
pub struct Indexer {
    token_address: String,
    exchange_name: String,
    watch: WatchSet,
    db: Database,
}

impl Indexer {
    /// The address of the token whose flows are aggregated.
    pub closed spec fn token(&self) -> Seq<char> {
        self.token_address@
    }

    /// The name of the watched exchange.
    pub closed spec fn exchange(&self) -> Seq<char> {
        self.exchange_name@
    }

    /// The watch-set, as its view.
    pub closed spec fn watch(&self) -> Seq<Seq<char>> {
        self.watch@
    }

    /// The stored transfers, in the order of their insertion.
    pub closed spec fn transfers(&self) -> Seq<TransferView> {
        self.db.transfers()
    }

    /// The stored snapshots, in the order of their insertion.
    pub closed spec fn snapshots(&self) -> Seq<NetflowView> {
        self.db.snapshots()
    }

    /// Whether the indexer is in order: the store is, every snapshot is
    /// consistent and belongs to the token and the exchange, and the latest
    /// snapshot reports the flows of the stored transfers.
    pub open spec fn wf(&self) -> bool {
        &&& store_wf(self.transfers())
        &&& forall|i: int|
            0 <= i < self.snapshots().len() ==> {
                &&& (#[trigger] self.snapshots()[i]).wf()
                &&& is_for(self.snapshots()[i], self.token(), self.exchange())
            }
        &&& in_sync(self.transfers(), self.snapshots(), self.token(), self.watch())
    }

    /// Whether `other` has the token, exchange and watch-set of `self`.
    pub open spec fn same_config(&self, other: &Indexer) -> bool {
        &&& self.token() == other.token()
        &&& self.exchange() == other.exchange()
        &&& self.watch() == other.watch()
    }

    /// An indexer with an empty store.
    pub fn new(token_address: &str, exchange_name: &str, watch: WatchSet) -> (ix: Indexer)
        ensures
            ix.wf(),
            ix.token() == token_address@,
            ix.exchange() == exchange_name@,
            ix.watch() == watch@,
            ix.transfers() == Seq::<TransferView>::empty(),
            ix.snapshots() == Seq::<NetflowView>::empty(),
    {
        Indexer {
            token_address: token_address.to_owned(),
            exchange_name: exchange_name.to_owned(),
            watch,
            db: Database::new(),
        }
    }

    /// The store.
    pub fn database(&self) -> (db: &Database)
        ensures
            db.transfers() == self.transfers(),
            db.snapshots() == self.snapshots(),
    {
        &self.db
    }

    /// The watch-set.
    pub fn watch_set(&self) -> (w: &WatchSet)
        ensures
            w@ == self.watch(),
    {
        &self.watch
    }

    /// Stores a transfer and, where its sender or receiver is in the
    /// watch-set, appends a snapshot recomputed from all stored transfers.
    ///
    /// The snapshot is appended for a transfer that was stored before as
    /// well; it then repeats the flows of the latest one.
    pub fn ingest(&mut self, record: TransferRecord, now: i64) -> (p: Processed)
        requires
            old(self).wf(),
            record.wf(),
        ensures
            final(self).wf(),
            final(self).same_config(old(self)),
            p.record@ == record@,
            p.outcome == outcome_of(old(self).transfers(), record@),
            final(self).transfers() == inserted(old(self).transfers(), record@),
            has_key(final(self).transfers(), record@),
            final(self).snapshots() == snapshots_after(
                old(self).transfers(),
                old(self).snapshots(),
                record@,
                old(self).token(),
                old(self).exchange(),
                old(self).watch(),
                now,
            ),
            p.snapshot is Some <==> touches(old(self).watch(), record@),
            p.snapshot matches Some(s) ==> s@ == final(self).snapshots().last(),
            reported_inflow(final(self).snapshots()) == reported_inflow(old(self).snapshots())
                + inflow_gain(old(self).transfers(), record@, old(self).token(), old(self).watch()),
            reported_outflow(final(self).snapshots()) == reported_outflow(old(self).snapshots())
                + outflow_gain(
                old(self).transfers(),
                record@,
                old(self).token(),
                old(self).watch(),
            ),
    {
        proof {
            lemma_step_keeps_sync(
                self.transfers(),
                self.snapshots(),
                record@,
                self.token(),
                self.exchange(),
                self.watch(),
                now,
            );
            lemma_flows_after_insert(self.transfers(), record@, self.token(), self.watch());
            lemma_inserted_wf(self.transfers(), record@);
        }
        let outcome = insert_transfer(&mut self.db, &record);
        let hit = self.watch.contains(record.from_addr.as_str()) || self.watch.contains(
            record.to_addr.as_str(),
        );
        if hit {
            let snapshot = compute_and_store_cumulative(
                &mut self.db,
                self.token_address.as_str(),
                self.exchange_name.as_str(),
                &self.watch,
                record.block_number,
                now,
            );
            proof {
                lemma_snapshot_of_wf(
                    self.transfers(),
                    self.token(),
                    self.exchange(),
                    self.watch(),
                    record.block_number,
                    now,
                );
            }
            Processed { record, outcome, snapshot: Some(snapshot) }
        } else {
            Processed { record, outcome, snapshot: None }
        }
    }

    /// Processes transfers in the order given, each as [`Indexer::ingest`]
    /// does.
    pub fn ingest_all(&mut self, batch: &Vec<TransferRecord>, now: i64)
        requires
            old(self).wf(),
            forall|i: int| 0 <= i < batch@.len() ==> (#[trigger] batch@[i]).wf(),
        ensures
            final(self).wf(),
            final(self).same_config(old(self)),
            final(self).transfers() == transfers_after_all(
                old(self).transfers(),
                batch@.map_values(|r: TransferRecord| r@),
            ),
            final(self).snapshots() == snapshots_after_all(
                old(self).transfers(),
                old(self).snapshots(),
                batch@.map_values(|r: TransferRecord| r@),
                old(self).token(),
                old(self).exchange(),
                old(self).watch(),
                now,
            ),
    {
        let ghost views = batch@.map_values(|r: TransferRecord| r@);
        let mut i: usize = 0;
        while i < batch.len()
            invariant
                i <= batch@.len(),
                views == batch@.map_values(|r: TransferRecord| r@),
                forall|j: int| 0 <= j < batch@.len() ==> (#[trigger] batch@[j]).wf(),
                self.wf(),
                self.same_config(old(self)),
                self.transfers() == transfers_after_all(old(self).transfers(), views.take(i as int)),
                self.snapshots() == snapshots_after_all(
                    old(self).transfers(),
                    old(self).snapshots(),
                    views.take(i as int),
                    old(self).token(),
                    old(self).exchange(),
                    old(self).watch(),
                    now,
                ),
            decreases batch@.len() - i,
        {
            proof {
                let next = views.take(i + 1);
                assert(next.drop_last() =~= views.take(i as int));
                assert(next.last() == batch@[i as int]@);
            }
            let _ = self.ingest(batch[i].clone(), now);
            i = i + 1;
        }
        proof {
            assert(views.take(i as int) =~= views);
        }
    }

    /// Processes one log entry: decodes it, stores the transfer, and appends
    /// a snapshot where the transfer touches the watch-set.
    ///
    /// An entry that cannot be decoded changes nothing.
    pub fn process_log(&mut self, log: &RawLog, block_timestamp: Option<u64>, now: i64) -> (r:
        Result<Processed, DecodeError>)
        requires
            old(self).wf(),
        ensures
            final(self).wf(),
            final(self).same_config(old(self)),
            r is Ok <==> decodable(*log),
            r matches Err(e) ==> {
                &&& e == DecodeError::AmountTooWide
                &&& final(self).transfers() == old(self).transfers()
                &&& final(self).snapshots() == old(self).snapshots()
            },
            r matches Ok(p) ==> {
                &&& p.record@ == decoded(*log, block_timestamp, now)
                &&& p.outcome == outcome_of(old(self).transfers(), p.record@)
                &&& final(self).transfers() == inserted(old(self).transfers(), p.record@)
                &&& has_key(final(self).transfers(), p.record@)
                &&& final(self).snapshots() == snapshots_after(
                    old(self).transfers(),
                    old(self).snapshots(),
                    p.record@,
                    old(self).token(),
                    old(self).exchange(),
                    old(self).watch(),
                    now,
                )
                &&& p.snapshot is Some <==> touches(old(self).watch(), p.record@)
                &&& p.snapshot matches Some(s) ==> s@ == final(self).snapshots().last()
                &&& reported_inflow(final(self).snapshots()) == reported_inflow(
                    old(self).snapshots(),
                ) + inflow_gain(
                    old(self).transfers(),
                    p.record@,
                    old(self).token(),
                    old(self).watch(),
                )
                &&& reported_outflow(final(self).snapshots()) == reported_outflow(
                    old(self).snapshots(),
                ) + outflow_gain(
                    old(self).transfers(),
                    p.record@,
                    old(self).token(),
                    old(self).watch(),
                )
            },
    {
        match decode_log(log, block_timestamp, now) {
            Ok(record) => Ok(self.ingest(record, now)),
            Err(e) => Err(e),
        }
    }
}

} // verus!
