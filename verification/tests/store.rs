use sla_client::record::decode_utx;
use sla_client::record::decode_vr;
use sla_client::record::encode_utx;
use sla_client::record::encode_vr;
use sla_client::record::Record;
use sla_client::record::StorageData;
use sla_client::record::UnverifiedTX;
use sla_client::record::VerifiedResult;
use sla_client::sledb::SledStorage;
use sla_client::time::unix_now;

fn test_store(name: &str) -> SledStorage {
    let path = format!("/tmp/sla_probe_test_{}_{}", name, unix_now());
    SledStorage::init(&path).expect("store must open")
}

#[test]
fn utx_round_trip() {
    let u = UnverifiedTX {
        tx_hash: "0x12af".to_string(),
        chain_name: "chain-α".to_string(),
        sent_timestamp: 1_700_000_123_456,
        user_code: "tenant/7".to_string(),
    };
    let bytes = encode_utx(&u);
    let back = decode_utx(&bytes).expect("a full encoding must decode");
    assert_eq!(back.tx_hash, u.tx_hash);
    assert_eq!(back.chain_name, u.chain_name);
    assert_eq!(back.sent_timestamp, u.sent_timestamp);
    assert_eq!(back.user_code, u.user_code);
    // A truncated buffer must not decode.
    let cut = bytes[..bytes.len() - 1].to_vec();
    assert!(decode_utx(&cut).is_none());
}

#[test]
fn vr_round_trip() {
    let v = VerifiedResult {
        timestamp: 28_333_335,
        chain_name: "main".to_string(),
        sent_num: 3,
        sent_failed_num: 1,
        failed_num: 2,
        succeed_num: 1,
    };
    let bytes = encode_vr(&v);
    let back = decode_vr(&bytes).expect("a full encoding must decode");
    assert_eq!(back.timestamp, v.timestamp);
    assert_eq!(back.chain_name, v.chain_name);
    assert_eq!(back.sent_num, 3);
    assert_eq!(back.sent_failed_num, 1);
    assert_eq!(back.failed_num, 2);
    assert_eq!(back.succeed_num, 1);
}

#[test]
fn pending_key_shape() {
    let u = UnverifiedTX {
        tx_hash: "0xff".to_string(),
        chain_name: "main".to_string(),
        sent_timestamp: 42,
        user_code: "acme".to_string(),
    };
    assert_eq!(u.key(), "main-acme-42");
    let u2 = UnverifiedTX {
        tx_hash: "0x00".to_string(),
        chain_name: "net".to_string(),
        sent_timestamp: 1_700_000_123_456,
        user_code: "t0".to_string(),
    };
    assert_eq!(u2.key(), "net-t0-1700000123456");
}

#[test]
fn tree_names() {
    assert_eq!(Record::name(), "Record");
    assert_eq!(UnverifiedTX::name(), "UnverifiedTX");
    assert_eq!(VerifiedResult::name(), "VerifiedResult");
}

#[test]
fn bucket_persistence() {
    let mut store = test_store("bucket");
    assert!(store.get_vr("main", 100).is_none());
    let mut v = VerifiedResult::new(100, "main".to_string());
    v.sent_num = 2;
    assert!(store.insert_vr("main", 100, &v));
    let back = store.get_vr("main", 100).expect("stored bucket must read back");
    assert_eq!(back.sent_num, 2);
    assert_eq!(back.timestamp, 100);
    // Distinct targets do not collide on the same minute.
    assert!(store.get_vr("other", 100).is_none());
}

#[test]
fn pending_insert_scan_remove() {
    let mut store = test_store("pending");
    let u = UnverifiedTX {
        tx_hash: "0xaa".to_string(),
        chain_name: "main".to_string(),
        sent_timestamp: 7,
        user_code: "acme".to_string(),
    };
    assert!(store.insert_utx(&u));
    let (_, all) = store.all_utx();
    assert_eq!(all.len(), 1);
    assert_eq!(all[0].tx_hash, "0xaa");
    assert!(store.remove_utx(&u));
    assert_eq!(store.all_utx().1.len(), 0);
}

#[test]
fn sequence_counter() {
    let mut store = test_store("sequence");
    assert_eq!(store.current("test"), 0);
    for i in 1..=10u32 {
        assert_eq!(store.next("test"), i);
    }
    assert_eq!(store.current("test"), 10);
}
