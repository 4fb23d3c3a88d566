//! Sender and validator logic: the decisions and store effects of one
//! submission attempt and of resolving one pending entry. The transport is
//! outside; every function here takes the decoded reply as an argument.

use crate::config::ChainSender;
use crate::record::enc_record;
use crate::record::enc_utx;
use crate::record::enc_vr;
use crate::record::Record;
use crate::record::Resp;
use crate::record::UnverifiedTX;
use crate::record::VerifiedResult;
use crate::sledb::spec_record_key;
use crate::sledb::spec_utx_key;
use crate::sledb::spec_vr_key;
use crate::sledb::SledStorage;
use crate::time::get_latest_finalized_minute;
use crate::time::ms_to_minute_scale;
use crate::time::spec_finalized_minute;
use crate::time::MS_PER_MINUTE;
use vstd::prelude::*;

verus! {

/// A counter bump that sticks at the top instead of wrapping.
pub open spec fn spec_bump(c: u8) -> u8 {
    if c == 255 {
        255
    } else {
        (c + 1) as u8
    }
}

pub fn bump(c: u8) -> (r: u8)
    ensures
        r == spec_bump(c),
{
    if c == 255 {
        255
    } else {
        c + 1
    }
}

/// A submission reply is a success exactly when it decoded, its code is 200
/// and it carries a transaction handle.
pub open spec fn spec_reply_success(reply: Option<Resp>) -> bool {
    reply matches Some(p) && p.code == 200 && p.data is Some
}

/// The bucket after recording one send outcome.
pub open spec fn spec_send_bump(v: VerifiedResult, ok: bool) -> VerifiedResult {
    if ok {
        VerifiedResult { sent_num: spec_bump(v.sent_num), ..v }
    } else {
        VerifiedResult { sent_failed_num: spec_bump(v.sent_failed_num), ..v }
    }
}

/// The bucket after recording one verification timeout.
pub open spec fn spec_fail_bump(v: VerifiedResult) -> VerifiedResult {
    VerifiedResult { failed_num: spec_bump(v.failed_num), ..v }
}

/// The bucket after recording one confirmation.
pub open spec fn spec_succeed_bump(v: VerifiedResult) -> VerifiedResult {
    VerifiedResult { succeed_num: spec_bump(v.succeed_num), ..v }
}

/// A bucket with every counter zero, for the given minute and target.
pub open spec fn spec_fresh_vr(v: VerifiedResult, minute: u64, chain: Seq<char>) -> bool {
    v.timestamp == minute && v.chain_name@ == chain && v.sent_num == 0 && v.sent_failed_num == 0
        && v.failed_num == 0 && v.succeed_num == 0
}

/// What a bucket read-modify-write started from: the stored bucket under
/// `key`, or a fresh zero bucket when the key is absent or unreadable.
pub open spec fn spec_vr_base(
    tree: Map<Seq<u8>, Seq<u8>>,
    key: Seq<u8>,
    b: VerifiedResult,
    minute: u64,
    chain: Seq<char>,
) -> bool {
    (tree.dom().contains(key) && tree[key] == enc_vr(b)) || spec_fresh_vr(b, minute, chain)
}

/// Builds the audit record for one submission attempt and, on success, the
/// pending entry that registers the returned transaction handle.
pub fn sender_handle_reply(chain: &ChainSender, now: u64, reply: Option<Resp>) -> (r: (
    Record,
    Option<UnverifiedTX>,
))
    ensures
        r.0.timestamp == now,
        r.0.api == chain.sender_url,
        r.0.data == chain.data_for_send,
        r.0.user_code == chain.user_code,
        r.0.status == (match reply {
            Some(p) => p.code % 0x10000,
            None => 0,
        }),
        r.1 is Some <==> spec_reply_success(reply),
        r.1 matches Some(u) ==> reply matches Some(p) && p.data matches Some(h) && u.tx_hash == h
            && u.chain_name == chain.chain_name && u.user_code == chain.user_code
            && u.sent_timestamp == now,
{
    let mut record = Record {
        timestamp: now,
        api: chain.sender_url.clone(),
        data: chain.data_for_send.clone(),
        user_code: chain.user_code.clone(),
        resp: None,
        status: 0,
    };
    match reply {
        Some(p) => {
            let code = p.code;
            let hash: Option<String> = match &p.data {
                Some(h) => Some(h.clone()),
                None => None,
            };
            record.add_resp(p);
            if code == 200 {
                match hash {
                    Some(h) => {
                        let utx = UnverifiedTX {
                            tx_hash: h,
                            chain_name: chain.chain_name.clone(),
                            sent_timestamp: now,
                            user_code: chain.user_code.clone(),
                        };
                        (record, Some(utx))
                    },
                    None => (record, None),
                }
            } else {
                (record, None)
            }
        },
        None => (record, None),
    }
}

/// Records one send outcome in a bucket, saturating.
pub fn record_send_outcome(vr: &mut VerifiedResult, ok: bool)
    ensures
        *final(vr) == spec_send_bump(*old(vr), ok),
{
    if ok {
        vr.sent_num = bump(vr.sent_num);
    } else {
        vr.sent_failed_num = bump(vr.sent_failed_num);
    }
}

/// Hands out the newest finalized bucket when it has not been forwarded
/// yet. The watermark only ever advances, and it advances exactly to the
/// minute of the bucket handed out, so no minute is handed out twice.
pub fn try_forward(store: &SledStorage, mark: &mut u64, chain_name: &str, now: u64, timeout: u64)
    -> (r: Option<VerifiedResult>)
    requires
        timeout <= u64::MAX / 1000,
        now >= timeout * 1000 + MS_PER_MINUTE,
    ensures
        r matches Some(f) ==> {
            &&& *old(mark) < spec_finalized_minute(now, timeout)
            &&& *final(mark) == spec_finalized_minute(now, timeout)
            &&& store.vrs().dom().contains(
                spec_vr_key(chain_name@, spec_finalized_minute(now, timeout)),
            )
            &&& store.vrs()[spec_vr_key(chain_name@, spec_finalized_minute(now, timeout))]
                == enc_vr(f)
        },
        r is None ==> *final(mark) == *old(mark),
        spec_finalized_minute(now, timeout) <= *old(mark) ==> r is None,
{
    let fin = get_latest_finalized_minute(now, timeout);
    if fin <= *mark {
        return None;
    }
    match store.get_vr(chain_name, fin) {
        Some(f) => {
            *mark = fin;
            Some(f)
        },
        None => None,
    }
}

/// What one submission attempt reports back: the audit record, the pending
/// entry created on success, which writes landed, and the finalized bucket
/// to hand to the metrics stage, if one became due.
pub struct SendReport {
    pub record: Record,
    pub utx: Option<UnverifiedTX>,
    pub utx_stored: bool,
    pub bucket_stored: bool,
    pub record_stored: bool,
    pub forwarded: Option<VerifiedResult>,
}

/// One submission attempt for one target, given the transport's decoded
/// reply: registers the pending entry on success, records the outcome in
/// the minute bucket (creating it if absent, and handing out a newly
/// finalized older bucket when one is due), and writes the audit record.
pub fn sender_step(
    store: &mut SledStorage,
    mark: &mut u64,
    chain: &ChainSender,
    now: u64,
    reply: Option<Resp>,
    timeout: u64,
) -> (r: SendReport)
    requires
        timeout <= u64::MAX / 1000,
        now >= timeout * 1000 + MS_PER_MINUTE,
    ensures
        r.record.timestamp == now && r.record.api == chain.sender_url && r.record.data
            == chain.data_for_send && r.record.user_code == chain.user_code,
        r.record.status == (match reply {
            Some(p) => p.code % 0x10000,
            None => 0,
        }),
        r.utx is Some <==> spec_reply_success(reply),
        r.utx matches Some(u) ==> reply matches Some(p) && p.data matches Some(h) && u.tx_hash == h
            && u.chain_name == chain.chain_name && u.user_code == chain.user_code
            && u.sent_timestamp == now,
        (match r.utx {
            Some(u) => if r.utx_stored {
                final(store).utxs() == old(store).utxs().insert(spec_utx_key(u), enc_utx(u))
            } else {
                final(store).utxs() == old(store).utxs()
            },
            None => final(store).utxs() == old(store).utxs(),
        }),
        ({
            let minute = now / MS_PER_MINUTE;
            let key = spec_vr_key(chain.chain_name@, minute);
            let ok = spec_reply_success(reply);
            if r.bucket_stored {
                exists|b: VerifiedResult|
                    #[trigger] spec_vr_base(old(store).vrs(), key, b, minute, chain.chain_name@)
                        && final(store).vrs() == old(store).vrs().insert(
                        key,
                        enc_vr(spec_send_bump(b, ok)),
                    )
            } else {
                final(store).vrs() == old(store).vrs()
            }
        }),
        (if r.record_stored {
            final(store).records() == old(store).records().insert(
                spec_record_key(now),
                enc_record(r.record),
            )
        } else {
            final(store).records() == old(store).records()
        }),
        r.forwarded matches Some(f) ==> {
            &&& *old(mark) < spec_finalized_minute(now, timeout)
            &&& *final(mark) == spec_finalized_minute(now, timeout)
            &&& old(store).vrs().dom().contains(
                spec_vr_key(chain.chain_name@, spec_finalized_minute(now, timeout)),
            )
            &&& old(store).vrs()[spec_vr_key(chain.chain_name@, spec_finalized_minute(now, timeout))]
                == enc_vr(f)
        },
        r.forwarded is None ==> *final(mark) == *old(mark),
        spec_finalized_minute(now, timeout) <= *old(mark) ==> r.forwarded is None,
        final(store).seqs() == old(store).seqs(),
{
    let (record, utx) = sender_handle_reply(chain, now, reply);
    let ok = utx.is_some();
    let mut utx_stored = false;
    match &utx {
        Some(u) => {
            utx_stored = store.insert_utx(u);
        },
        None => {},
    }
    let minute = ms_to_minute_scale(now);
    let mut forwarded: Option<VerifiedResult> = None;
    let mut vr = match store.get_vr(chain.chain_name.as_str(), minute) {
        Some(v) => v,
        None => {
            forwarded = try_forward(&*store, mark, chain.chain_name.as_str(), now, timeout);
            VerifiedResult::new(minute, chain.chain_name.clone())
        },
    };
    let ghost base = vr;
    record_send_outcome(&mut vr, ok);
    let bucket_stored = store.insert_vr(chain.chain_name.as_str(), minute, &vr);
    proof {
        if bucket_stored {
            assert(spec_vr_base(
                old(store).vrs(),
                spec_vr_key(chain.chain_name@, minute),
                base,
                minute,
                chain.chain_name@,
            ));
        }
    }
    let record_stored = store.insert_record(&record);
    SendReport { record, utx, utx_stored, bucket_stored, record_stored, forwarded }
}

/// A pending entry has outlived its deadline exactly when `now` is past its
/// send time plus the timeout window (in seconds).
pub open spec fn spec_timed_out(now: u64, sent: u64, timeout: u64) -> bool {
    now > sent + timeout * 1000
}

/// Decides timeout for one pending entry. This is evaluated before any
/// probe, so a timed-out entry is never probed.
pub fn validator_decide(now: u64, sent_timestamp: u64, timeout: u64) -> (r: bool)
    requires
        timeout <= u64::MAX / 1000,
    ensures
        r == spec_timed_out(now, sent_timestamp, timeout),
{
    let window = timeout * 1000;
    if now <= sent_timestamp {
        false
    } else {
        now - sent_timestamp > window
    }
}

/// Declares one pending entry timed out: deletes it and counts the failure
/// in the bucket of its send minute. Terminal for this handle.
pub fn apply_timeout(store: &mut SledStorage, utx: &UnverifiedTX) -> (r: (bool, bool))
    ensures
        r.0 ==> final(store).utxs() == old(store).utxs().remove(spec_utx_key(*utx)),
        !r.0 ==> final(store).utxs() == old(store).utxs(),
        ({
            let minute = utx.sent_timestamp / MS_PER_MINUTE;
            let key = spec_vr_key(utx.chain_name@, minute);
            if r.1 {
                exists|b: VerifiedResult|
                    #[trigger] spec_vr_base(old(store).vrs(), key, b, minute, utx.chain_name@)
                        && final(store).vrs() == old(store).vrs().insert(
                        key,
                        enc_vr(spec_fail_bump(b)),
                    )
            } else {
                final(store).vrs() == old(store).vrs()
            }
        }),
        final(store).records() == old(store).records(),
        final(store).seqs() == old(store).seqs(),
{
    let removed = store.remove_utx(utx);
    let minute = ms_to_minute_scale(utx.sent_timestamp);
    let mut vr = match store.get_vr(utx.chain_name.as_str(), minute) {
        Some(v) => v,
        None => VerifiedResult::new(minute, utx.chain_name.clone()),
    };
    let ghost base = vr;
    vr.failed_num = bump(vr.failed_num);
    let stored = store.insert_vr(utx.chain_name.as_str(), minute, &vr);
    proof {
        if stored {
            assert(spec_vr_base(
                old(store).vrs(),
                spec_vr_key(utx.chain_name@, minute),
                base,
                minute,
                utx.chain_name@,
            ));
            assert(vr == spec_fail_bump(base));
        }
    }
    (removed, stored)
}

/// A probe reply confirms the transaction exactly when it decoded with
/// code 200.
pub open spec fn spec_probe_confirms(reply: Option<Resp>) -> bool {
    reply matches Some(p) && p.code == 200
}

/// What resolving one pending entry by probe reports back.
pub struct ProbeReport {
    pub record: Record,
    pub confirmed: bool,
    pub removed: bool,
    pub bucket_stored: bool,
    pub record_stored: bool,
}

/// Applies one probe reply to a pending entry. Confirmation deletes the
/// entry and counts the success in the bucket of its send minute; any
/// other reply leaves the entry pending for the next tick.
pub fn apply_probe(
    store: &mut SledStorage,
    utx: &UnverifiedTX,
    reply: Option<Resp>,
    verify_api_url: &str,
    now: u64,
) -> (r: ProbeReport)
    ensures
        r.record.timestamp == now && r.record.api@ == verify_api_url@ && r.record.data@
            == Seq::<char>::empty() && r.record.user_code == utx.user_code,
        r.record.status == (match reply {
            Some(p) => p.code % 0x10000,
            None => 0,
        }),
        r.confirmed == spec_probe_confirms(reply),
        r.confirmed && r.removed ==> final(store).utxs() == old(store).utxs().remove(
            spec_utx_key(*utx),
        ),
        !(r.confirmed && r.removed) ==> final(store).utxs() == old(store).utxs(),
        ({
            let minute = utx.sent_timestamp / MS_PER_MINUTE;
            let key = spec_vr_key(utx.chain_name@, minute);
            if r.confirmed && r.bucket_stored {
                exists|b: VerifiedResult|
                    #[trigger] spec_vr_base(old(store).vrs(), key, b, minute, utx.chain_name@)
                        && final(store).vrs() == old(store).vrs().insert(
                        key,
                        enc_vr(spec_succeed_bump(b)),
                    )
            } else {
                final(store).vrs() == old(store).vrs()
            }
        }),
        !r.confirmed ==> !r.removed && !r.bucket_stored,
        (if r.record_stored {
            final(store).records() == old(store).records().insert(
                spec_record_key(now),
                enc_record(r.record),
            )
        } else {
            final(store).records() == old(store).records()
        }),
        final(store).seqs() == old(store).seqs(),
{
    let mut record = Record {
        timestamp: now,
        api: str_to_string(verify_api_url),
        data: String::new(),
        user_code: utx.user_code.clone(),
        resp: None,
        status: 0,
    };
    let confirmed = match reply {
        Some(p) => {
            let code = p.code;
            record.add_resp(p);
            code == 200
        },
        None => false,
    };
    let mut removed = false;
    let mut bucket_stored = false;
    if confirmed {
        removed = store.remove_utx(utx);
        let minute = ms_to_minute_scale(utx.sent_timestamp);
        let mut vr = match store.get_vr(utx.chain_name.as_str(), minute) {
            Some(v) => v,
            None => VerifiedResult::new(minute, utx.chain_name.clone()),
        };
        let ghost base = vr;
        vr.succeed_num = bump(vr.succeed_num);
        bucket_stored = store.insert_vr(utx.chain_name.as_str(), minute, &vr);
        proof {
            if bucket_stored {
                assert(spec_vr_base(
                    old(store).vrs(),
                    spec_vr_key(utx.chain_name@, minute),
                    base,
                    minute,
                    utx.chain_name@,
                ));
                assert(vr == spec_succeed_bump(base));
            }
        }
    }
    let record_stored = store.insert_record(&record);
    ProbeReport { record, confirmed, removed, bucket_stored, record_stored }
}

/// `str` to owned `String`, view-preserving.
fn str_to_string(s: &str) -> (r: String)
    ensures
        r@ == s@,
{
    s.to_owned()
}

} // verus!
