use pol_indexer::db::InsertOutcome;
use pol_indexer::decoder::{DecodeError, RawLog};
use pol_indexer::indexer::{Indexer, DEFAULT_EXCHANGE, POL_CONTRACT};
use pol_indexer::models::TransferRecord;
use pol_indexer::subscription::transfer_topic;
use pol_indexer::watch::WatchSet;

const AAA: [u8; 20] = [0xaa; 20];
const BBB: [u8; 20] = [0xbb; 20];
const CCC: [u8; 20] = [0xcc; 20];

const POL: [u8; 20] = [
    0x45, 0x5e, 0x53, 0xcb, 0xb8, 0x60, 0x18, 0xac, 0x2b, 0x80, 0x92, 0xfd, 0xcd, 0x39, 0xd8,
    0x44, 0x4a, 0xff, 0xc3, 0xf6,
];

fn hex_of(address: [u8; 20]) -> String {
    let mut s = String::from("0x");
    for b in address {
        s.push_str(&format!("{:02x}", b));
    }
    s
}

fn topic_of(address: [u8; 20]) -> [u8; 32] {
    let mut word = [0u8; 32];
    word[12..].copy_from_slice(&address);
    word
}

fn transfer(tx: u8, from: [u8; 20], to: [u8; 20], amount: u128) -> RawLog {
    let mut data = vec![0u8; 32];
    data[16..].copy_from_slice(&amount.to_be_bytes());
    RawLog {
        address: POL,
        topics: vec![transfer_topic(), topic_of(from), topic_of(to)],
        data,
        transaction_hash: Some([tx; 32]),
        block_number: Some(100 + tx as u64),
        log_index: Some(0),
    }
}

fn indexer_watching(addresses: &[&str]) -> Indexer {
    let list: Vec<String> = addresses.iter().map(|a| a.to_string()).collect();
    Indexer::new(POL_CONTRACT, DEFAULT_EXCHANGE, WatchSet::new(&list))
}

#[test]
fn transfer_out_of_the_watch_set_gives_negative_net_flow() {
    let mut ix = indexer_watching(&["0xAAAAAAAAAAAAAAAAAAAAAAAAAAAAAAAAAAAAAAAA"]);
    let p = ix.process_log(&transfer(1, AAA, BBB, 1000), Some(1_700_000_000), 1_700_000_005)
        .expect("decodable");

    assert_eq!(p.outcome, InsertOutcome::Inserted);
    assert_eq!(p.record.amount_raw, "1000");
    assert_eq!(p.record.from_addr, hex_of(AAA));
    assert_eq!(p.record.to_addr, hex_of(BBB));
    let decimals = 18;
    let normalized = p.record.amount_raw.parse::<f64>().expect("digits") / 10f64.powi(decimals);
    assert!((normalized - 0.000000000000001).abs() < 1e-24);

    let db = ix.database();
    assert_eq!(db.transfer_count(), 1);
    assert_eq!(db.transfer(0).expect("a stored transfer").amount_raw, "1000");
    assert_eq!(db.snapshot_count(), 1);
    let snap = p.snapshot.expect("the sender is watched");
    assert_eq!(snap.cumulative_outflow_raw, "1000");
    assert_eq!(snap.cumulative_inflow_raw, "0");
    assert_eq!(snap.cumulative_netflow_raw, "-1000");
    assert_eq!(snap.token_address, POL_CONTRACT);
    assert_eq!(snap.exchange_name, "Binance");
    assert_eq!(snap.as_of_block, 101);
    assert_eq!(snap.updated_at, 1_700_000_005);
    assert_eq!(db.snapshot(0).expect("a stored snapshot").cumulative_netflow_raw, "-1000");
}

#[test]
fn second_transfer_in_is_summed_with_the_first() {
    let mut ix = indexer_watching(&["0xAAAAAAAAAAAAAAAAAAAAAAAAAAAAAAAAAAAAAAAA"]);
    ix.process_log(&transfer(9, AAA, CCC, 123_456), None, 1).expect("decodable");

    let first = ix.process_log(&transfer(1, BBB, AAA, 500), None, 2).expect("decodable");
    let second = ix.process_log(&transfer(2, BBB, AAA, 300), None, 3).expect("decodable");

    assert_eq!(first.snapshot.expect("watched").cumulative_inflow_raw, "500");
    let snap = second.snapshot.expect("watched");
    assert_eq!(snap.cumulative_inflow_raw, "800");
    assert_eq!(snap.cumulative_outflow_raw, "123456");
    assert_eq!(snap.cumulative_netflow_raw, "-122656");
    assert_eq!(ix.database().snapshot_count(), 3);
}

#[test]
fn two_transfers_in_give_their_sum() {
    let mut ix = indexer_watching(&["0xAAAAAAAAAAAAAAAAAAAAAAAAAAAAAAAAAAAAAAAA"]);
    ix.process_log(&transfer(1, BBB, AAA, 500), None, 2).expect("decodable");
    let second = ix.process_log(&transfer(2, BBB, AAA, 300), None, 3).expect("decodable");
    let snap = second.snapshot.expect("watched");
    assert_eq!(snap.cumulative_inflow_raw, "800");
    assert_eq!(snap.cumulative_outflow_raw, "0");
    assert_eq!(snap.cumulative_netflow_raw, "800");
}

#[test]
fn transfer_outside_the_watch_set_adds_no_snapshot() {
    let mut ix = indexer_watching(&["0xAAAAAAAAAAAAAAAAAAAAAAAAAAAAAAAAAAAAAAAA"]);
    let p = ix.process_log(&transfer(1, BBB, CCC, 77), None, 2).expect("decodable");
    assert_eq!(p.outcome, InsertOutcome::Inserted);
    assert!(p.snapshot.is_none());
    assert_eq!(ix.database().transfer_count(), 1);
    assert_eq!(ix.database().snapshot_count(), 0);
    assert_eq!(ix.database().transfer(0).expect("a stored transfer").amount_raw, "77");
}

#[test]
fn transfer_into_the_watch_set_raises_inflow_only() {
    let mut ix = indexer_watching(&["0xAAAAAAAAAAAAAAAAAAAAAAAAAAAAAAAAAAAAAAAA"]);
    ix.process_log(&transfer(1, AAA, BBB, 40), None, 1).expect("decodable");
    ix.process_log(&transfer(2, CCC, AAA, 10), None, 2).expect("decodable");
    ix.process_log(&transfer(3, BBB, CCC, 5000), None, 3).expect("decodable");
    let before = ix.database().snapshot_count();
    let previous = ix.database().latest_netflow(POL_CONTRACT, "Binance").expect("two").clone();
    assert_eq!(previous.cumulative_inflow_raw, "10");
    assert_eq!(previous.cumulative_outflow_raw, "40");

    let p = ix.process_log(&transfer(4, BBB, AAA, 25), None, 4).expect("decodable");

    assert_eq!(ix.database().snapshot_count(), before + 1);
    let snap = p.snapshot.expect("watched");
    assert_eq!(snap.cumulative_inflow_raw, "35");
    assert_eq!(snap.cumulative_outflow_raw, "40");
    assert_eq!(snap.cumulative_netflow_raw, "-5");
}

#[test]
fn log_delivered_twice_is_stored_once() {
    let mut ix = indexer_watching(&["0xAAAAAAAAAAAAAAAAAAAAAAAAAAAAAAAAAAAAAAAA"]);
    let log = transfer(1, BBB, AAA, 500);
    let first = ix.process_log(&log, None, 2).expect("decodable");
    let again = ix.process_log(&log, None, 3).expect("decodable");
    assert_eq!(first.outcome, InsertOutcome::Inserted);
    assert_eq!(again.outcome, InsertOutcome::Duplicate);
    assert_eq!(ix.database().transfer_count(), 1);
    assert_eq!(again.snapshot.expect("watched").cumulative_inflow_raw, "500");
    assert_eq!(ix.database().snapshot_count(), 2);
}

#[test]
fn same_transaction_with_another_log_index_is_another_transfer() {
    let mut ix = indexer_watching(&["0xAAAAAAAAAAAAAAAAAAAAAAAAAAAAAAAAAAAAAAAA"]);
    let mut log = transfer(1, BBB, AAA, 500);
    ix.process_log(&log, None, 2).expect("decodable");
    log.log_index = Some(1);
    let p = ix.process_log(&log, None, 3).expect("decodable");
    assert_eq!(p.outcome, InsertOutcome::Inserted);
    assert_eq!(p.snapshot.expect("watched").cumulative_inflow_raw, "1000");
}

#[test]
fn watch_set_ignores_letter_case() {
    let address = "0xabcdefabcdefabcdefabcdefabcdefabcdefabcd";
    let bytes: [u8; 20] = [
        0xab, 0xcd, 0xef, 0xab, 0xcd, 0xef, 0xab, 0xcd, 0xef, 0xab, 0xcd, 0xef, 0xab, 0xcd,
        0xef, 0xab, 0xcd, 0xef, 0xab, 0xcd,
    ];
    for listed in [
        address.to_string(),
        address.to_uppercase().replace("0X", "0x"),
        address.to_uppercase(),
        "0xAbCdEfaBcDeFABCDEFabcdefAbcdefABCDEFabcD".to_string(),
    ] {
        let set = WatchSet::new(&vec![listed.clone()]);
        assert_eq!(set.len(), 1);
        assert!(set.contains(address));
        assert!(set.contains(&address.to_uppercase()));
        assert!(set.contains("0xABCDEFabcdefABCDEFabcdefABCDEFabcdefABCD"));
        assert!(!set.contains("0xabcdefabcdefabcdefabcdefabcdefabcdefabce"));
        assert!(!set.contains(""));

        let mut ix = Indexer::new(POL_CONTRACT, DEFAULT_EXCHANGE, set);
        let p = ix.process_log(&transfer(1, BBB, bytes, 12), None, 2).expect("decodable");
        assert_eq!(p.snapshot.expect("watched").cumulative_inflow_raw, "12");
    }
}

#[test]
fn empty_watch_set_holds_nothing() {
    let set = WatchSet::new(&Vec::new());
    assert_eq!(set.len(), 0);
    assert!(!set.contains("0xaaaaaaaaaaaaaaaaaaaaaaaaaaaaaaaaaaaaaaaa"));
    assert!(!set.contains(""));
}

#[test]
fn built_in_token_address_matches_decoded_logs() {
    let mut ix = indexer_watching(&["0xbbbbbbbbbbbbbbbbbbbbbbbbbbbbbbbbbbbbbbbb"]);
    let p = ix.process_log(&transfer(1, AAA, BBB, 9), None, 2).expect("decodable");
    assert_eq!(p.record.token_address, POL_CONTRACT.to_lowercase());
    assert_eq!(p.snapshot.expect("watched").cumulative_inflow_raw, "9");
}

#[test]
fn log_with_few_topics_is_stored_with_placeholders() {
    let mut ix = indexer_watching(&["0xAAAAAAAAAAAAAAAAAAAAAAAAAAAAAAAAAAAAAAAA"]);
    let mut log = transfer(1, AAA, BBB, 64);
    log.topics.truncate(1);
    let p = ix.process_log(&log, None, 2).expect("decodable");
    assert_eq!(p.outcome, InsertOutcome::Inserted);
    assert_eq!(p.record.from_addr, "<unknown>");
    assert_eq!(p.record.to_addr, "<unknown>");
    assert!(p.snapshot.is_none());
    let db = ix.database();
    assert_eq!(db.transfer_count(), 1);
    assert_eq!(db.transfer(0).expect("a stored transfer").from_addr, "<unknown>");
    assert_eq!(db.transfer(0).expect("a stored transfer").amount_raw, "64");

    let mut log = transfer(2, AAA, BBB, 64);
    log.topics.truncate(2);
    let p = ix.process_log(&log, None, 3).expect("decodable");
    assert_eq!(p.record.to_addr, "<unknown>");
    assert_eq!(p.snapshot.expect("the sender is watched").cumulative_outflow_raw, "64");
    assert_eq!(ix.database().transfer_count(), 2);
}

#[test]
fn placeholder_can_be_watched() {
    let mut ix = indexer_watching(&["<UNKNOWN>"]);
    let mut log = transfer(1, AAA, BBB, 64);
    log.topics.truncate(2);
    let p = ix.process_log(&log, None, 2).expect("decodable");
    assert_eq!(p.snapshot.expect("watched").cumulative_inflow_raw, "64");
}

#[test]
fn undecodable_log_changes_nothing() {
    let mut ix = indexer_watching(&["0xAAAAAAAAAAAAAAAAAAAAAAAAAAAAAAAAAAAAAAAA"]);
    ix.process_log(&transfer(1, BBB, AAA, 500), None, 2).expect("decodable");
    let mut log = transfer(2, BBB, AAA, 1);
    log.data = vec![0u8; 40];
    assert_eq!(ix.process_log(&log, None, 3).err(), Some(DecodeError::AmountTooWide));
    assert_eq!(ix.database().transfer_count(), 1);
    assert_eq!(ix.database().snapshot_count(), 1);
    let p = ix.process_log(&transfer(3, BBB, AAA, 1), None, 4).expect("decodable");
    assert_eq!(p.snapshot.expect("watched").cumulative_inflow_raw, "501");
}

#[test]
fn amounts_of_256_bits_add_up_exactly() {
    let mut ix = indexer_watching(&["0xAAAAAAAAAAAAAAAAAAAAAAAAAAAAAAAAAAAAAAAA"]);
    let mut log = transfer(1, BBB, AAA, 0);
    log.data = vec![0xff; 32];
    ix.process_log(&log, None, 2).expect("decodable");
    let mut log = transfer(2, BBB, AAA, 0);
    log.data = vec![0xff; 32];
    let p = ix.process_log(&log, None, 3).expect("decodable");
    let snap = p.snapshot.expect("watched");
    assert_eq!(
        snap.cumulative_inflow_raw,
        "231584178474632390847141970017375815706539969331281128078915168015826259279870"
    );
    assert_eq!(snap.cumulative_netflow_raw, snap.cumulative_inflow_raw);
}

#[test]
fn ingest_all_replays_transfers_in_order() {
    let aaa = hex_of(AAA);
    let bbb = hex_of(BBB);
    let record = |tx: &str, from: &str, to: &str, amount: &str, block: u64| TransferRecord {
        tx_hash: tx.to_string(),
        block_number: block,
        log_index: 0,
        token_address: POL_CONTRACT.to_lowercase(),
        from_addr: from.to_string(),
        to_addr: to.to_string(),
        amount_raw: amount.to_string(),
        timestamp: 0,
        processed_at: 0,
    };
    let history = vec![
        record("0x01", &bbb, &aaa, "500", 1),
        record("0x02", &bbb, &bbb, "9", 2),
        record("0x01", &bbb, &aaa, "500", 1),
        record("0x03", &aaa, &bbb, "200", 3),
    ];
    let mut ix = indexer_watching(&[&aaa.to_uppercase()]);
    ix.ingest_all(&history, 50);
    let db = ix.database();
    assert_eq!(db.transfer_count(), 3);
    assert_eq!(db.snapshot_count(), 3);
    assert_eq!(db.snapshot(0).expect("a stored snapshot").cumulative_inflow_raw, "500");
    assert_eq!(db.snapshot(1).expect("a stored snapshot").cumulative_inflow_raw, "500");
    assert_eq!(db.snapshot(2).expect("a stored snapshot").cumulative_inflow_raw, "500");
    assert_eq!(db.snapshot(2).expect("a stored snapshot").cumulative_outflow_raw, "200");
    assert_eq!(db.snapshot(2).expect("a stored snapshot").cumulative_netflow_raw, "300");
    assert_eq!(db.snapshot(2).expect("a stored snapshot").as_of_block, 3);
    assert_eq!(db.snapshot(2).expect("a stored snapshot").updated_at, 50);
    assert_eq!(ix.watch_set().len(), 1);
}
