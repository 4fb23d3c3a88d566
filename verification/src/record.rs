//! The three persisted record types and their byte encodings.

use crate::codec::enc_str;
use crate::codec::get_string;
use crate::codec::lemma_consume_str;
use crate::codec::lemma_consume_u64;
use crate::codec::get_u64;
use crate::codec::put_str;
use crate::codec::put_u64;
use crate::codec::u64_le;
use vstd::prelude::*;
use vstd::string::StringExecFns;

verus! {

/// Typed shape of a remote reply: a status code, an optional payload
/// (the transaction handle on a successful submission), and a message.
#[derive(Debug, Clone)]
pub struct Resp {
    pub code: u64,
    pub data: Option<String>,
    pub message: String,
}

/// One probe attempt (send or status check), kept for audit only.
#[derive(Debug)]
pub struct Record {
    /// Units in ms.
    pub timestamp: u64,
    pub api: String,
    pub data: String,
    pub user_code: String,
    pub resp: Option<Resp>,
    pub status: u16,
}

impl Record {
    /// Stores a decoded reply and mirrors its code into `status`
    /// (reduced modulo 2^16, as a 16-bit status field).
    pub fn add_resp(&mut self, resp: Resp)
        ensures
            final(self).status == resp.code % 0x10000,
            final(self).resp == Some(resp),
            final(self).timestamp == old(self).timestamp,
            final(self).api == old(self).api,
            final(self).data == old(self).data,
            final(self).user_code == old(self).user_code,
    {
        self.status = (resp.code % 0x10000) as u16;
        self.resp = Some(resp);
    }
}

/// A transaction awaiting confirmation: present in the store exactly while
/// it is sent but neither confirmed nor timed out.
#[derive(Debug, Clone)]
pub struct UnverifiedTX {
    pub tx_hash: String,
    pub chain_name: String,
    /// Units in ms.
    pub sent_timestamp: u64,
    pub user_code: String,
}

/// The decimal digit character for `d` (valid for `d < 10`).
pub open spec fn digit_char(d: u64) -> char {
    if d == 0 {
        '0'
    } else if d == 1 {
        '1'
    } else if d == 2 {
        '2'
    } else if d == 3 {
        '3'
    } else if d == 4 {
        '4'
    } else if d == 5 {
        '5'
    } else if d == 6 {
        '6'
    } else if d == 7 {
        '7'
    } else if d == 8 {
        '8'
    } else {
        '9'
    }
}

/// The decimal rendering of `n`, most significant digit first.
pub open spec fn dec_digits(n: u64) -> Seq<char>
    decreases n,
{
    if n < 10 {
        seq![digit_char(n)]
    } else {
        dec_digits(n / 10) + seq![digit_char(n % 10)]
    }
}

/// Relies on `u64::to_string`: the decimal digits of `n`, no sign,
/// no leading zeros.
#[verifier::external_body]
pub(crate) fn u64_to_dec(n: u64) -> (r: String)
    ensures
        r@ == dec_digits(n),
{
    n.to_string()
}

impl UnverifiedTX {
    /// The store key of this entry: target, tenant and send timestamp,
    /// so duplicate handles from the remote service cannot collide.
    pub open spec fn spec_key(self) -> Seq<char> {
        self.chain_name@ + "-"@ + self.user_code@ + "-"@ + dec_digits(self.sent_timestamp)
    }

    pub fn key(&self) -> (r: String)
        ensures
            r@ == self.spec_key(),
    {
        let mut r = String::new();
        r.append(self.chain_name.as_str());
        r.append("-");
        r.append(self.user_code.as_str());
        r.append("-");
        let ts = u64_to_dec(self.sent_timestamp);
        r.append(ts.as_str());
        r
    }
}

/// Aggregate outcome counters for one (target, minute) pair.
#[derive(Debug, Clone)]
pub struct VerifiedResult {
    /// Units in minutes.
    pub timestamp: u64,
    pub chain_name: String,
    pub sent_num: u8,
    pub sent_failed_num: u8,
    pub failed_num: u8,
    pub succeed_num: u8,
}

impl VerifiedResult {
    /// A fresh bucket for a minute and target, with every counter zero.
    pub fn new(timestamp: u64, chain_name: String) -> (r: Self)
        ensures
            r.timestamp == timestamp,
            r.chain_name == chain_name,
            r.sent_num == 0,
            r.sent_failed_num == 0,
            r.failed_num == 0,
            r.succeed_num == 0,
    {
        Self { timestamp, sent_num: 0, sent_failed_num: 0, failed_num: 0, succeed_num: 0, chain_name }
    }
}

/// A persisted record type knows the name of the store tree that holds it.
pub trait StorageData {
    fn name() -> (r: String);
}

impl StorageData for Record {
    fn name() -> (r: String) {
        String::from_str("Record")
    }
}

impl StorageData for UnverifiedTX {
    fn name() -> (r: String) {
        String::from_str("UnverifiedTX")
    }
}

impl StorageData for VerifiedResult {
    fn name() -> (r: String) {
        String::from_str("VerifiedResult")
    }
}

/// Byte image of an `UnverifiedTX`.
pub open spec fn enc_utx(u: UnverifiedTX) -> Seq<u8> {
    enc_str(u.tx_hash@) + enc_str(u.chain_name@) + u64_le(u.sent_timestamp) + enc_str(u.user_code@)
}

pub fn encode_utx(u: &UnverifiedTX) -> (r: Vec<u8>)
    ensures
        r@ == enc_utx(*u),
{
    let mut out: Vec<u8> = Vec::new();
    put_str(&mut out, self_str(&u.tx_hash));
    put_str(&mut out, self_str(&u.chain_name));
    put_u64(&mut out, u.sent_timestamp);
    put_str(&mut out, self_str(&u.user_code));
    proof {
        assert(out@ =~= enc_utx(*u));
    }
    out
}

/// `String::as_str`, named so encoder bodies read uniformly.
fn self_str(s: &String) -> (r: &str)
    ensures
        r@ == s@,
{
    s.as_str()
}

/// Decodes a full buffer written by `encode_utx`: any value returned
/// re-encodes to exactly the input bytes, and every buffer that is an
/// encoding decodes.
pub fn decode_utx(buf: &Vec<u8>) -> (r: Option<UnverifiedTX>)
    ensures
        r matches Some(u) ==> enc_utx(u) == buf@,
        (exists|u0: UnverifiedTX| #[trigger] enc_utx(u0) == buf@) ==> r is Some,
{
    let total = buf.len();
    let ghost u0 = choose|u: UnverifiedTX| enc_utx(u) == buf@;
    let ghost good = enc_utx(u0) == buf@;
    let ghost tail1 = enc_str(u0.chain_name@) + u64_le(u0.sent_timestamp) + enc_str(u0.user_code@);
    let ghost tail2 = u64_le(u0.sent_timestamp) + enc_str(u0.user_code@);
    let ghost tail3 = enc_str(u0.user_code@);
    proof {
        if good {
            assert(buf@.subrange(0, buf@.len() as int) =~= buf@);
            assert(buf@.subrange(0, buf@.len() as int) == enc_str(u0.tx_hash@) + tail1) by {
                assert(enc_utx(u0) =~= enc_str(u0.tx_hash@) + tail1);
            }
        }
    }
    let (tx_hash, p1) = match get_string(buf, 0) {
        Some(x) => x,
        None => {
            proof {
                if exists|u: UnverifiedTX| #[trigger] enc_utx(u) == buf@ {
                    assert(good);
                    assert(false);
                }
            }
            return None;
        },
    };
    proof {
        if good {
            lemma_consume_str(buf@, 0, p1 as int, tx_hash@, u0.tx_hash@, tail1);
            assert(buf@.subrange(p1 as int, buf@.len() as int) == enc_str(u0.chain_name@) + tail2)
                by {
                assert(tail1 =~= enc_str(u0.chain_name@) + tail2);
            }
        }
    }
    let (chain_name, p2) = match get_string(buf, p1) {
        Some(x) => x,
        None => {
            proof {
                if exists|u: UnverifiedTX| #[trigger] enc_utx(u) == buf@ {
                    assert(good);
                    assert(false);
                }
            }
            return None;
        },
    };
    proof {
        if good {
            lemma_consume_str(buf@, p1 as int, p2 as int, chain_name@, u0.chain_name@, tail2);
            assert(buf@.subrange(p2 as int, buf@.len() as int) == u64_le(u0.sent_timestamp)
                + tail3) by {
                assert(tail2 =~= u64_le(u0.sent_timestamp) + tail3);
            }
        }
    }
    let (sent_timestamp, p3) = match get_u64(buf, p2) {
        Some(x) => x,
        None => {
            proof {
                if exists|u: UnverifiedTX| #[trigger] enc_utx(u) == buf@ {
                    assert(good);
                    assert(buf@.subrange(p2 as int, buf@.len() as int).len() == buf@.len() - p2);
                    assert((u64_le(u0.sent_timestamp) + tail3).len() == 8 + tail3.len());
                    assert(false);
                }
            }
            return None;
        },
    };
    proof {
        if good {
            lemma_consume_u64(buf@, p2 as int, p3 as int, sent_timestamp, u0.sent_timestamp, tail3);
            assert(buf@.subrange(p3 as int, buf@.len() as int) == enc_str(u0.user_code@)
                + Seq::<u8>::empty()) by {
                assert(tail3 =~= enc_str(u0.user_code@) + Seq::<u8>::empty());
            }
        }
    }
    let (user_code, p4) = match get_string(buf, p3) {
        Some(x) => x,
        None => {
            proof {
                if exists|u: UnverifiedTX| #[trigger] enc_utx(u) == buf@ {
                    assert(good);
                    assert(false);
                }
            }
            return None;
        },
    };
    if p4 != total {
        proof {
            if exists|u: UnverifiedTX| #[trigger] enc_utx(u) == buf@ {
                assert(good);
                lemma_consume_str(
                    buf@,
                    p3 as int,
                    p4 as int,
                    user_code@,
                    u0.user_code@,
                    Seq::<u8>::empty(),
                );
                assert(buf@.subrange(p4 as int, buf@.len() as int).len() == 0);
                assert(false);
            }
        }
        return None;
    }
    let u = UnverifiedTX { tx_hash, chain_name, sent_timestamp, user_code };
    proof {
        assert(enc_utx(u) =~= buf@);
    }
    Some(u)
}

/// Byte image of a `VerifiedResult`.
pub open spec fn enc_vr(v: VerifiedResult) -> Seq<u8> {
    u64_le(v.timestamp) + enc_str(v.chain_name@) + seq![
        v.sent_num,
        v.sent_failed_num,
        v.failed_num,
        v.succeed_num,
    ]
}

pub fn encode_vr(v: &VerifiedResult) -> (r: Vec<u8>)
    ensures
        r@ == enc_vr(*v),
{
    let mut out: Vec<u8> = Vec::new();
    put_u64(&mut out, v.timestamp);
    put_str(&mut out, self_str(&v.chain_name));
    out.push(v.sent_num);
    out.push(v.sent_failed_num);
    out.push(v.failed_num);
    out.push(v.succeed_num);
    proof {
        assert(out@ =~= enc_vr(*v));
    }
    out
}

/// Decodes a full buffer written by `encode_vr`: any value returned
/// re-encodes to exactly the input bytes, and every buffer that is an
/// encoding decodes.
pub fn decode_vr(buf: &Vec<u8>) -> (r: Option<VerifiedResult>)
    ensures
        r matches Some(v) ==> enc_vr(v) == buf@,
        (exists|v0: VerifiedResult| #[trigger] enc_vr(v0) == buf@) ==> r is Some,
{
    let total = buf.len();
    let ghost v0 = choose|v: VerifiedResult| enc_vr(v) == buf@;
    let ghost good = enc_vr(v0) == buf@;
    let ghost counters = seq![v0.sent_num, v0.sent_failed_num, v0.failed_num, v0.succeed_num];
    let ghost tail1 = enc_str(v0.chain_name@) + counters;
    proof {
        if good {
            assert(buf@.subrange(0, buf@.len() as int) =~= buf@);
            assert(buf@.subrange(0, buf@.len() as int) == u64_le(v0.timestamp) + tail1) by {
                assert(enc_vr(v0) =~= u64_le(v0.timestamp) + tail1);
            }
        }
    }
    let (timestamp, p1) = match get_u64(buf, 0) {
        Some(x) => x,
        None => {
            proof {
                if exists|v: VerifiedResult| #[trigger] enc_vr(v) == buf@ {
                    assert(good);
                    assert(buf@.subrange(0, buf@.len() as int).len() == buf@.len());
                    assert((u64_le(v0.timestamp) + tail1).len() == 8 + tail1.len());
                    assert(false);
                }
            }
            return None;
        },
    };
    proof {
        if good {
            lemma_consume_u64(buf@, 0, p1 as int, timestamp, v0.timestamp, tail1);
            assert(buf@.subrange(p1 as int, buf@.len() as int) == enc_str(v0.chain_name@)
                + counters) by {
                assert(tail1 =~= enc_str(v0.chain_name@) + counters);
            }
        }
    }
    let (chain_name, p2) = match get_string(buf, p1) {
        Some(x) => x,
        None => {
            proof {
                if exists|v: VerifiedResult| #[trigger] enc_vr(v) == buf@ {
                    assert(good);
                    assert(false);
                }
            }
            return None;
        },
    };
    proof {
        if good {
            lemma_consume_str(buf@, p1 as int, p2 as int, chain_name@, v0.chain_name@, counters);
            assert(buf@.subrange(p2 as int, buf@.len() as int).len() == 4);
        }
    }
    if p2 > buf.len() - 4 || p2 + 4 != buf.len() {
        proof {
            if exists|v: VerifiedResult| #[trigger] enc_vr(v) == buf@ {
                assert(good);
                assert(false);
            }
        }
        return None;
    }
    let v = VerifiedResult {
        timestamp,
        chain_name,
        sent_num: buf[p2],
        sent_failed_num: buf[p2 + 1],
        failed_num: buf[p2 + 2],
        succeed_num: buf[p2 + 3],
    };
    proof {
        assert(enc_vr(v) =~= buf@);
    }
    Some(v)
}

/// Byte image of an optional string: a presence tag, then the string.
pub open spec fn enc_opt_str(s: Option<String>) -> Seq<u8> {
    match s {
        Some(v) => seq![1u8] + enc_str(v@),
        None => seq![0u8],
    }
}

fn put_opt_str(out: &mut Vec<u8>, s: &Option<String>)
    ensures
        final(out)@ == old(out)@ + enc_opt_str(*s),
{
    match s {
        Some(v) => {
            out.push(1u8);
            put_str(out, self_str(v));
        },
        None => {
            out.push(0u8);
        },
    }
    proof {
        assert(out@ =~= old(out)@ + enc_opt_str(*s));
    }
}

/// Byte image of an optional reply.
pub open spec fn enc_opt_resp(r: Option<Resp>) -> Seq<u8> {
    match r {
        Some(v) => seq![1u8] + u64_le(v.code) + enc_opt_str(v.data) + enc_str(v.message@),
        None => seq![0u8],
    }
}

fn put_opt_resp(out: &mut Vec<u8>, r: &Option<Resp>)
    ensures
        final(out)@ == old(out)@ + enc_opt_resp(*r),
{
    match r {
        Some(v) => {
            out.push(1u8);
            put_u64(out, v.code);
            put_opt_str(out, &v.data);
            put_str(out, self_str(&v.message));
        },
        None => {
            out.push(0u8);
        },
    }
    proof {
        assert(out@ =~= old(out)@ + enc_opt_resp(*r));
    }
}

/// Byte image of a `Record`. Records are audit-only and never read back,
/// so only the encoder exists.
pub open spec fn enc_record(rec: Record) -> Seq<u8> {
    u64_le(rec.timestamp) + enc_str(rec.api@) + enc_str(rec.data@) + enc_str(rec.user_code@)
        + u64_le(rec.status as u64) + enc_opt_resp(rec.resp)
}

pub fn encode_record(rec: &Record) -> (r: Vec<u8>)
    ensures
        r@ == enc_record(*rec),
{
    let mut out: Vec<u8> = Vec::new();
    put_u64(&mut out, rec.timestamp);
    put_str(&mut out, self_str(&rec.api));
    put_str(&mut out, self_str(&rec.data));
    put_str(&mut out, self_str(&rec.user_code));
    put_u64(&mut out, rec.status as u64);
    put_opt_resp(&mut out, &rec.resp);
    proof {
        assert(out@ =~= enc_record(*rec));
    }
    out
}

} // verus!
