use sla_client::config::calculate_md5;
use sla_client::config::hot_update;
use sla_client::config::Config;
use sla_client::metrics::observe_result;
use sla_client::metrics::recover_data;
use sla_client::metrics::serve_route;
use sla_client::metrics::ChainCounter;
use sla_client::record::VerifiedResult;
use sla_client::sledb::SledStorage;
use sla_client::time::get_latest_finalized_minute;
use sla_client::time::get_readable_time_from_millisecond;
use sla_client::time::get_readable_time_from_minute;
use sla_client::time::ms_to_minute_scale;
use sla_client::time::unix_now;

fn bucket(chain: &str, minute: u64, sent_failed: u8, failed: u8) -> VerifiedResult {
    let mut v = VerifiedResult::new(minute, chain.to_string());
    v.sent_num = 1;
    v.sent_failed_num = sent_failed;
    v.failed_num = failed;
    v
}

#[test]
fn minute_scale() {
    assert_eq!(ms_to_minute_scale(0), 0);
    assert_eq!(ms_to_minute_scale(59_999), 0);
    assert_eq!(ms_to_minute_scale(60_000), 1);
    assert_eq!(ms_to_minute_scale(125_999), 2);
}

#[test]
fn finalized_minute() {
    // (1_000_000_000 - 300 * 1000) / 60_000 - 1
    assert_eq!(get_latest_finalized_minute(1_000_000_000, 300), 16_660);
    assert_eq!(get_latest_finalized_minute(120_000, 0), 1);
}

#[test]
fn readable_time() {
    assert_eq!(get_readable_time_from_millisecond(0), "1970-01-01 08:00:00");
    assert_eq!(get_readable_time_from_millisecond(90_061_000), "1970-01-02 09:01:01");
    assert_eq!(get_readable_time_from_minute(0), "1970-01-01 08:00");
    assert_eq!(get_readable_time_from_minute(60 * 24), "1970-01-02 08:00");
}

#[test]
fn counter_rules() {
    let mut c = ChainCounter::new();
    observe_result(&mut c, &bucket("m", 1, 0, 0));
    assert_eq!((c.sent_failed, c.unavailable, c.observed), (0, 0, 1));
    observe_result(&mut c, &bucket("m", 2, 0, 3));
    assert_eq!((c.sent_failed, c.unavailable, c.observed), (0, 1, 2));
    observe_result(&mut c, &bucket("m", 3, 2, 0));
    assert_eq!((c.sent_failed, c.unavailable, c.observed), (1, 2, 3));
    // Send-failure precedence: a bucket with both counts once apiece.
    observe_result(&mut c, &bucket("m", 4, 1, 1));
    assert_eq!((c.sent_failed, c.unavailable, c.observed), (2, 3, 4));
}

#[test]
fn restart_recovery_counts() {
    // A store with three finalized buckets and one not yet finalized:
    // observed recovers exactly the finalized ones.
    let path = format!("/tmp/sla_probe_test_recover_{}", unix_now());
    let mut store = SledStorage::init(&path).expect("store must open");
    let cutoff: u64 = 1_000;
    assert!(store.insert_vr("main", 997, &bucket("main", 997, 0, 0)));
    assert!(store.insert_vr("main", 998, &bucket("main", 998, 1, 0)));
    assert!(store.insert_vr("main", 999, &bucket("main", 999, 0, 1)));
    assert!(store.insert_vr("main", 1_001, &bucket("main", 1_001, 1, 1)));
    // Another target's buckets do not leak into this one's counters.
    assert!(store.insert_vr("other", 999, &bucket("other", 999, 1, 0)));
    let (scan_ok, items) = store.all_vr();
    assert!(scan_ok);
    let (sent_failed, unavailable, observed) = recover_data(&items, &"main".to_string(), cutoff);
    assert_eq!(observed, 3);
    assert_eq!(unavailable, 2);
    assert_eq!(sent_failed, 1);
}

#[test]
fn metrics_route() {
    assert!(serve_route(&"GET".to_string(), &"/metrics".to_string()));
    assert!(!serve_route(&"POST".to_string(), &"/metrics".to_string()));
    assert!(!serve_route(&"GET".to_string(), &"/".to_string()));
}

#[test]
fn md5_digest() {
    let d = calculate_md5("");
    assert_eq!(
        d,
        vec![
            0xd4, 0x1d, 0x8c, 0xd9, 0x8f, 0x00, 0xb2, 0x04, 0xe9, 0x80, 0x09, 0x98, 0xec, 0xf8,
            0x42, 0x7e
        ]
    );
    let d = calculate_md5("abc");
    assert_eq!(
        d,
        vec![
            0x90, 0x01, 0x50, 0x98, 0x3c, 0xd2, 0x4f, 0xb0, 0xd6, 0x96, 0x3f, 0x7d, 0x28, 0xe1,
            0x7f, 0x72
        ]
    );
}

#[test]
fn hot_reload_rules() {
    let mut config = Config::default();
    let mut md5 = calculate_md5("a = 1");
    let same = md5.clone();

    // Unchanged digest: nothing happens.
    assert!(!hot_update(&mut config, &mut md5, same, None));
    assert_eq!(config.sender_interval, 30);

    // Changed digest with a parsed snapshot: the snapshot is replaced.
    let mut newer = Config::default();
    newer.sender_interval = 99;
    assert!(hot_update(&mut config, &mut md5, calculate_md5("a = 2"), Some(newer)));
    assert_eq!(config.sender_interval, 99);
    assert_eq!(md5, calculate_md5("a = 2"));

    // Changed digest but a malformed reload: previous snapshot retained.
    assert!(!hot_update(&mut config, &mut md5, calculate_md5("a = 3"), None));
    assert_eq!(config.sender_interval, 99);
    assert_eq!(md5, calculate_md5("a = 3"));
}

#[test]
fn default_config() {
    let c = Config::default();
    assert_eq!(c.sender_interval, 30);
    assert_eq!(c.validator_interval, 10);
    assert_eq!(c.validator_timeout, 300);
    assert_eq!(c.storage_path, "default_db");
    assert_eq!(c.metrics_port, 61616);
    assert!(c.chain_sender_vec.is_empty());
}
