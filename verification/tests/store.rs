use pol_indexer::db::{compute_and_store_cumulative, insert_transfer, Database, InsertOutcome};
use pol_indexer::models::TransferRecord;
use pol_indexer::watch::WatchSet;

const TOKEN: &str = "0x455e53CBB86018Ac2B8092FdCd39d8444aFFC3F6";
const WALLET: &str = "0xF977814e90dA44bFA03b6295A0616a897441aceC";
const OTHER: &str = "0x00000000000000000000000000000000000000ff";

fn record(tx: &str, index: u64, from: &str, to: &str, amount: &str) -> TransferRecord {
    TransferRecord {
        tx_hash: tx.to_string(),
        block_number: 10,
        log_index: index,
        token_address: TOKEN.to_lowercase(),
        from_addr: from.to_string(),
        to_addr: to.to_string(),
        amount_raw: amount.to_string(),
        timestamp: 1,
        processed_at: 2,
    }
}

fn watch() -> WatchSet {
    WatchSet::new(&vec![WALLET.to_string()])
}

#[test]
fn insert_stores_a_new_record() {
    let mut db = Database::new();
    assert_eq!(db.transfer_count(), 0);
    let rec = record("0x01", 0, OTHER, WALLET, "5");
    assert_eq!(insert_transfer(&mut db, &rec), InsertOutcome::Inserted);
    assert_eq!(db.transfer_count(), 1);
    assert_eq!(db.transfer(0).expect("a stored transfer").tx_hash, "0x01");
    assert_eq!(db.transfer(0).expect("a stored transfer").amount_raw, "5");
    assert!(db.contains_key_of(&rec));
}

#[test]
fn insert_twice_keeps_one_record() {
    let mut db = Database::new();
    let rec = record("0x01", 3, OTHER, WALLET, "5");
    assert_eq!(insert_transfer(&mut db, &rec), InsertOutcome::Inserted);
    assert_eq!(insert_transfer(&mut db, &rec), InsertOutcome::Duplicate);
    assert_eq!(insert_transfer(&mut db, &rec), InsertOutcome::Duplicate);
    assert_eq!(db.transfer_count(), 1);
}

#[test]
fn insert_of_a_taken_identity_keeps_the_first_record() {
    let mut db = Database::new();
    let first = record("0x01", 3, OTHER, WALLET, "5");
    let second = record("0x01", 3, WALLET, OTHER, "999");
    insert_transfer(&mut db, &first);
    assert_eq!(insert_transfer(&mut db, &second), InsertOutcome::Duplicate);
    assert_eq!(db.transfer_count(), 1);
    assert_eq!(db.transfer(0).expect("a stored transfer").amount_raw, "5");
    assert_eq!(db.transfer(0).expect("a stored transfer").to_addr, WALLET);
}

#[test]
fn identity_is_hash_together_with_log_index() {
    let mut db = Database::new();
    assert_eq!(
        insert_transfer(&mut db, &record("0x01", 0, OTHER, WALLET, "5")),
        InsertOutcome::Inserted
    );
    assert_eq!(
        insert_transfer(&mut db, &record("0x01", 1, OTHER, WALLET, "5")),
        InsertOutcome::Inserted
    );
    assert_eq!(
        insert_transfer(&mut db, &record("0x02", 0, OTHER, WALLET, "5")),
        InsertOutcome::Inserted
    );
    assert_eq!(db.transfer_count(), 3);
    assert!(!db.contains_key_of(&record("0x02", 1, OTHER, WALLET, "5")));
}

#[test]
fn record_validity_is_that_of_its_amount() {
    assert!(record("0x01", 0, OTHER, WALLET, "0").is_valid());
    assert!(record("0x01", 0, OTHER, WALLET, "0012").is_valid());
    assert!(!record("0x01", 0, OTHER, WALLET, "").is_valid());
    assert!(!record("0x01", 0, OTHER, WALLET, "-5").is_valid());
    assert!(!record("0x01", 0, OTHER, WALLET, "1e18").is_valid());
}

#[test]
fn flows_of_an_empty_store_are_zero() {
    let mut db = Database::new();
    let snap = compute_and_store_cumulative(&mut db, TOKEN, "Binance", &watch(), 77, 1234);
    assert_eq!(snap.token_address, TOKEN);
    assert_eq!(snap.exchange_name, "Binance");
    assert_eq!(snap.as_of_block, 77);
    assert_eq!(snap.updated_at, 1234);
    assert_eq!(snap.cumulative_inflow_raw, "0");
    assert_eq!(snap.cumulative_outflow_raw, "0");
    assert_eq!(snap.cumulative_netflow_raw, "0");
    assert_eq!(db.snapshot_count(), 1);
    assert_eq!(db.transfer_count(), 0);
}

#[test]
fn flows_sum_by_direction() {
    let mut db = Database::new();
    let wallet = WALLET.to_lowercase();
    insert_transfer(&mut db, &record("0x01", 0, OTHER, &wallet, "500"));
    insert_transfer(&mut db, &record("0x02", 0, OTHER, &wallet, "300"));
    insert_transfer(&mut db, &record("0x03", 0, &wallet, OTHER, "1000"));
    insert_transfer(&mut db, &record("0x04", 0, OTHER, OTHER, "7777"));
    let snap = compute_and_store_cumulative(&mut db, TOKEN, "Binance", &watch(), 1, 2);
    assert_eq!(snap.cumulative_inflow_raw, "800");
    assert_eq!(snap.cumulative_outflow_raw, "1000");
    assert_eq!(snap.cumulative_netflow_raw, "-200");
    let (inflow, outflow) = db.cumulative_flows(TOKEN, &watch());
    assert_eq!(inflow.to_decimal(), "800");
    assert_eq!(outflow.to_decimal(), "1000");
}

#[test]
fn transfer_within_the_watch_set_counts_both_ways() {
    let mut db = Database::new();
    let wallet = WALLET.to_lowercase();
    insert_transfer(&mut db, &record("0x01", 0, &wallet, &wallet, "40"));
    let snap = compute_and_store_cumulative(&mut db, TOKEN, "Binance", &watch(), 1, 2);
    assert_eq!(snap.cumulative_inflow_raw, "40");
    assert_eq!(snap.cumulative_outflow_raw, "40");
    assert_eq!(snap.cumulative_netflow_raw, "0");
}

#[test]
fn flows_count_only_the_token() {
    let mut db = Database::new();
    let wallet = WALLET.to_lowercase();
    let mut foreign = record("0x01", 0, OTHER, &wallet, "500");
    foreign.token_address = OTHER.to_string();
    insert_transfer(&mut db, &foreign);
    insert_transfer(&mut db, &record("0x02", 0, OTHER, &wallet, "3"));
    let snap = compute_and_store_cumulative(&mut db, TOKEN, "Binance", &watch(), 1, 2);
    assert_eq!(snap.cumulative_inflow_raw, "3");
    assert_eq!(snap.cumulative_outflow_raw, "0");
}

#[test]
fn token_is_matched_without_regard_to_letter_case() {
    let mut db = Database::new();
    let wallet = WALLET.to_lowercase();
    let mut upper = record("0x01", 0, OTHER, &wallet, "11");
    upper.token_address = TOKEN.to_uppercase().replace("0X", "0x");
    insert_transfer(&mut db, &upper);
    insert_transfer(&mut db, &record("0x02", 0, OTHER, &wallet, "22"));
    let snap = compute_and_store_cumulative(&mut db, &TOKEN.to_lowercase(), "Binance", &watch(), 1, 2);
    assert_eq!(snap.cumulative_inflow_raw, "33");
}

#[test]
fn flows_are_exact_beyond_256_bits() {
    let max = "115792089237316195423570985008687907853269984665640564039457584007913129639935";
    let mut db = Database::new();
    let wallet = WALLET.to_lowercase();
    insert_transfer(&mut db, &record("0x01", 0, OTHER, &wallet, max));
    insert_transfer(&mut db, &record("0x02", 0, OTHER, &wallet, max));
    insert_transfer(&mut db, &record("0x03", 0, OTHER, &wallet, max));
    insert_transfer(&mut db, &record("0x04", 0, &wallet, OTHER, max));
    let snap = compute_and_store_cumulative(&mut db, TOKEN, "Binance", &watch(), 1, 2);
    assert_eq!(
        snap.cumulative_inflow_raw,
        "347376267711948586270712955026063723559809953996921692118372752023739388919805"
    );
    assert_eq!(snap.cumulative_outflow_raw, max);
    assert_eq!(
        snap.cumulative_netflow_raw,
        "231584178474632390847141970017375815706539969331281128078915168015826259279870"
    );
}

#[test]
fn net_flow_is_negative_where_outflow_is_larger() {
    let max = "115792089237316195423570985008687907853269984665640564039457584007913129639935";
    let mut db = Database::new();
    let wallet = WALLET.to_lowercase();
    insert_transfer(&mut db, &record("0x01", 0, &wallet, OTHER, max));
    insert_transfer(&mut db, &record("0x02", 0, OTHER, &wallet, "35"));
    let snap = compute_and_store_cumulative(&mut db, TOKEN, "Binance", &watch(), 1, 2);
    assert_eq!(
        snap.cumulative_netflow_raw,
        "-115792089237316195423570985008687907853269984665640564039457584007913129639900"
    );
}

#[test]
fn snapshots_are_appended_in_order() {
    let mut db = Database::new();
    let wallet = WALLET.to_lowercase();
    compute_and_store_cumulative(&mut db, TOKEN, "Binance", &watch(), 1, 100);
    insert_transfer(&mut db, &record("0x01", 0, OTHER, &wallet, "9"));
    compute_and_store_cumulative(&mut db, TOKEN, "Binance", &watch(), 2, 200);
    assert_eq!(db.snapshot_count(), 2);
    assert_eq!(db.snapshot(0).expect("a stored snapshot").cumulative_inflow_raw, "0");
    assert_eq!(db.snapshot(0).expect("a stored snapshot").as_of_block, 1);
    assert_eq!(db.snapshot(1).expect("a stored snapshot").cumulative_inflow_raw, "9");
    assert_eq!(db.snapshot(1).expect("a stored snapshot").as_of_block, 2);
}

#[test]
fn latest_netflow_is_the_one_appended_last() {
    let mut db = Database::new();
    let wallet = WALLET.to_lowercase();
    assert!(db.latest_netflow(TOKEN, "Binance").is_none());
    compute_and_store_cumulative(&mut db, TOKEN, "Binance", &watch(), 1, 100);
    insert_transfer(&mut db, &record("0x01", 0, OTHER, &wallet, "9"));
    compute_and_store_cumulative(&mut db, TOKEN, "Binance", &watch(), 2, 200);
    compute_and_store_cumulative(&mut db, TOKEN, "Kraken", &watch(), 3, 300);
    compute_and_store_cumulative(&mut db, OTHER, "Binance", &watch(), 4, 400);

    let latest = db.latest_netflow(TOKEN, "Binance").expect("two snapshots");
    assert_eq!(latest.as_of_block, 2);
    assert_eq!(latest.cumulative_inflow_raw, "9");
    assert_eq!(db.latest_netflow(TOKEN, "Kraken").expect("one snapshot").as_of_block, 3);
    assert_eq!(db.latest_netflow(OTHER, "Binance").expect("one snapshot").as_of_block, 4);
    assert!(db.latest_netflow(OTHER, "Kraken").is_none());
    assert!(db.latest_netflow(TOKEN, "binance").is_none());
}

#[test]
fn positions_beyond_the_end_hold_nothing() {
    let mut db = Database::new();
    assert!(db.transfer(0).is_none());
    assert!(db.snapshot(0).is_none());
    insert_transfer(&mut db, &record("0x01", 0, OTHER, WALLET, "5"));
    compute_and_store_cumulative(&mut db, TOKEN, "Binance", &watch(), 1, 2);
    assert!(db.transfer(0).is_some());
    assert!(db.transfer(1).is_none());
    assert!(db.snapshot(0).is_some());
    assert!(db.snapshot(1).is_none());
}

#[test]
fn highest_block_is_the_largest_stored() {
    let mut db = Database::new();
    assert_eq!(db.highest_block(), None);
    let mut rec = record("0x01", 0, OTHER, WALLET, "5");
    rec.block_number = 40;
    insert_transfer(&mut db, &rec);
    assert_eq!(db.highest_block(), Some(40));
    let mut rec = record("0x02", 0, OTHER, WALLET, "5");
    rec.block_number = 90;
    insert_transfer(&mut db, &rec);
    let mut rec = record("0x03", 0, OTHER, WALLET, "5");
    rec.block_number = 60;
    insert_transfer(&mut db, &rec);
    assert_eq!(db.highest_block(), Some(90));
    let mut rec = record("0x03", 0, OTHER, WALLET, "5");
    rec.block_number = 1000;
    assert_eq!(insert_transfer(&mut db, &rec), InsertOutcome::Duplicate);
    assert_eq!(db.highest_block(), Some(90));
}
