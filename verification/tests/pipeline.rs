use sla_client::client::apply_probe;
use sla_client::client::apply_timeout;
use sla_client::client::sender_handle_reply;
use sla_client::client::sender_step;
use sla_client::client::validator_decide;
use sla_client::config::ChainSender;
use sla_client::record::Resp;
use sla_client::sledb::SledStorage;
use sla_client::time::unix_now;

fn test_store(name: &str) -> SledStorage {
    let path = format!("/tmp/sla_probe_test_{}_{}", name, unix_now());
    SledStorage::init(&path).expect("store must open")
}

fn chain(name: &str) -> ChainSender {
    ChainSender {
        chain_name: name.to_string(),
        sender_url: "http://127.0.0.1:3000/api/sendTx".to_string(),
        data_for_send: "{}".to_string(),
        user_code: "tenant".to_string(),
    }
}

fn ok_resp(hash: &str) -> Resp {
    Resp { code: 200, data: Some(hash.to_string()), message: "OK".to_string() }
}

const BASE: u64 = 1_700_000_000_000;
const TIMEOUT: u64 = 300;

#[test]
fn timeout_boundary() {
    // timeout = 20 time units, tick = 5: not before now - 0 > 20_000.
    assert!(!validator_decide(5_000, 0, 20));
    assert!(!validator_decide(10_000, 0, 20));
    assert!(!validator_decide(15_000, 0, 20));
    assert!(!validator_decide(20_000, 0, 20));
    assert!(validator_decide(25_000, 0, 20));
}

#[test]
fn submission_response_creates_pending() {
    let (record, utx) = sender_handle_reply(&chain("c1"), BASE, Some(ok_resp("0xabc")));
    assert_eq!(record.status, 200);
    let utx = utx.expect("success must create a pending entry");
    assert_eq!(utx.tx_hash, "0xabc");
    assert_eq!(utx.chain_name, "c1");
    assert_eq!(utx.sent_timestamp, BASE);

    let (record, utx) = sender_handle_reply(
        &chain("c1"),
        BASE,
        Some(Resp { code: 500, data: None, message: String::new() }),
    );
    assert_eq!(record.status, 500);
    assert!(utx.is_none());
}

#[test]
fn failed_submission_counts_send_failure() {
    let mut store = test_store("send_failed");
    let mut mark: u64 = u64::MAX;
    let c = chain("c2");
    let report = sender_step(&mut store, &mut mark, &c, BASE, None, TIMEOUT);
    assert!(report.utx.is_none());
    assert!(report.bucket_stored);
    let vr = store.get_vr("c2", BASE / 60_000).expect("bucket must exist");
    assert_eq!(vr.sent_num, 0);
    assert_eq!(vr.sent_failed_num, 1);
}

#[test]
fn same_minute_two_submissions() {
    // One failing transport and one succeeding, in the same minute.
    let mut store = test_store("same_minute");
    let mut mark: u64 = u64::MAX;
    let c = chain("c3");
    sender_step(&mut store, &mut mark, &c, BASE, None, TIMEOUT);
    sender_step(&mut store, &mut mark, &c, BASE + 1_000, Some(ok_resp("0xh1")), TIMEOUT);
    let vr = store.get_vr("c3", BASE / 60_000).expect("bucket must exist");
    assert_eq!(vr.sent_num, 1);
    assert_eq!(vr.sent_failed_num, 1);
    assert_eq!(vr.failed_num, 0);
    assert_eq!(vr.succeed_num, 0);
    assert_eq!(store.all_utx().1.len(), 1);
}

#[test]
fn pending_resolved_by_timeout() {
    let mut store = test_store("timeout");
    let mut mark: u64 = u64::MAX;
    let c = chain("c4");
    let report = sender_step(&mut store, &mut mark, &c, BASE, Some(ok_resp("0xdead")), TIMEOUT);
    assert!(report.utx_stored);
    let (scan_ok, pending) = store.all_utx();
    assert!(scan_ok);
    assert_eq!(pending.len(), 1);
    let utx = &pending[0];

    let now = BASE + TIMEOUT * 1_000 + 1;
    assert!(validator_decide(now, utx.sent_timestamp, TIMEOUT));
    let (removed, stored) = apply_timeout(&mut store, utx);
    assert!(removed && stored);
    assert_eq!(store.all_utx().1.len(), 0);
    let vr = store.get_vr("c4", BASE / 60_000).expect("bucket must exist");
    assert_eq!(vr.failed_num, 1);
    assert_eq!(vr.succeed_num, 0);
}

#[test]
fn pending_resolved_by_confirmation() {
    let mut store = test_store("confirm");
    let mut mark: u64 = u64::MAX;
    let c = chain("c5");
    sender_step(&mut store, &mut mark, &c, BASE, Some(ok_resp("0xbeef")), TIMEOUT);
    let (_, pending) = store.all_utx();
    let utx = &pending[0];

    // A not-yet-confirmed probe keeps the entry pending.
    let now = BASE + 5_000;
    assert!(!validator_decide(now, utx.sent_timestamp, TIMEOUT));
    let report = apply_probe(
        &mut store,
        utx,
        Some(Resp { code: 102, data: None, message: "pending".to_string() }),
        "http://127.0.0.1:3000/verify",
        now,
    );
    assert!(!report.confirmed);
    assert_eq!(store.all_utx().1.len(), 1);

    // A confirming probe deletes it and counts the success.
    let report = apply_probe(
        &mut store,
        utx,
        Some(Resp { code: 200, data: None, message: "OK".to_string() }),
        "http://127.0.0.1:3000/verify",
        now + 5_000,
    );
    assert!(report.confirmed && report.removed);
    assert_eq!(store.all_utx().1.len(), 0);
    let vr = store.get_vr("c5", BASE / 60_000).expect("bucket must exist");
    assert_eq!(vr.succeed_num, 1);
    assert_eq!(vr.failed_num, 0);
    assert_eq!(vr.sent_num, 1);
}

#[test]
fn finalized_bucket_forwarded_once() {
    let mut store = test_store("forward");
    let mut mark: u64 = 0;
    let c = chain("c6");
    // Populate the bucket of the minute that is finalized at BASE.
    let fin = (BASE - TIMEOUT * 1_000) / 60_000 - 1;
    let mut old =
        sla_client::record::VerifiedResult::new(fin, "c6".to_string());
    old.sent_num = 1;
    assert!(store.insert_vr("c6", fin, &old));

    // The first attempt in a fresh minute hands the finalized bucket out.
    let report = sender_step(&mut store, &mut mark, &c, BASE, None, TIMEOUT);
    let forwarded = report.forwarded.expect("finalized bucket must be forwarded");
    assert_eq!(forwarded.timestamp, fin);
    assert_eq!(mark, fin);

    // A later attempt in the same minute must not forward it again.
    let report = sender_step(&mut store, &mut mark, &c, BASE + 1_000, None, TIMEOUT);
    assert!(report.forwarded.is_none());
    assert_eq!(mark, fin);
}
