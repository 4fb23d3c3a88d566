//! Metrics folding: the three derived counters per target, the per-bucket
//! increment rule, and startup recovery over persisted buckets.

use crate::record::VerifiedResult;
use vstd::prelude::*;

verus! {

/// The three derived counters for one target. Always:
/// sent_failed <= unavailable <= observed.
#[derive(Debug, Clone, Copy, PartialEq, Eq, Structural)]
pub struct ChainCounter {
    pub sent_failed: u64,
    pub unavailable: u64,
    pub observed: u64,
}

impl ChainCounter {
    /// All three counters at zero.
    pub fn new() -> (r: Self)
        ensures
            r.sent_failed == 0 && r.unavailable == 0 && r.observed == 0,
    {
        ChainCounter { sent_failed: 0, unavailable: 0, observed: 0 }
    }
}

/// A counter bump that sticks at the top instead of wrapping.
pub open spec fn spec_inc64(c: u64) -> u64 {
    if c == u64::MAX {
        c
    } else {
        (c + 1) as u64
    }
}

fn inc64(c: u64) -> (r: u64)
    ensures
        r == spec_inc64(c),
{
    if c == u64::MAX {
        c
    } else {
        c + 1
    }
}

/// The counters after consuming one finalized bucket: observed always
/// rises; a bucket with a send failure counts as sent-failed and
/// unavailable; otherwise one with a timeout counts as unavailable only.
pub open spec fn spec_observe(c: ChainCounter, vr: VerifiedResult) -> ChainCounter {
    if vr.sent_failed_num != 0 {
        ChainCounter {
            sent_failed: spec_inc64(c.sent_failed),
            unavailable: spec_inc64(c.unavailable),
            observed: spec_inc64(c.observed),
        }
    } else if vr.failed_num != 0 {
        ChainCounter {
            sent_failed: c.sent_failed,
            unavailable: spec_inc64(c.unavailable),
            observed: spec_inc64(c.observed),
        }
    } else {
        ChainCounter {
            sent_failed: c.sent_failed,
            unavailable: c.unavailable,
            observed: spec_inc64(c.observed),
        }
    }
}

/// Consumes one forwarded bucket: each received bucket contributes once.
pub fn observe_result(c: &mut ChainCounter, vr: &VerifiedResult)
    ensures
        *final(c) == spec_observe(*old(c), *vr),
{
    c.observed = inc64(c.observed);
    if vr.sent_failed_num != 0 {
        c.sent_failed = inc64(c.sent_failed);
        c.unavailable = inc64(c.unavailable);
    } else if vr.failed_num != 0 {
        c.unavailable = inc64(c.unavailable);
    }
}

/// Whether a bucket belongs to `chain` and was finalized by `cutoff`.
pub open spec fn spec_counts_for(vr: VerifiedResult, chain: Seq<char>, cutoff: u64) -> bool {
    vr.chain_name@ == chain && vr.timestamp <= cutoff
}

/// How many of the buckets count toward `observed` for one target.
pub open spec fn spec_recover_observed(items: Seq<VerifiedResult>, chain: Seq<char>, cutoff: u64)
    -> int
    decreases items.len(),
{
    if items.len() == 0 {
        0
    } else {
        spec_recover_observed(items.drop_last(), chain, cutoff) + if spec_counts_for(
            items.last(),
            chain,
            cutoff,
        ) {
            1int
        } else {
            0int
        }
    }
}

/// How many count toward `unavailable`: a send failure or a timeout.
pub open spec fn spec_recover_unavailable(items: Seq<VerifiedResult>, chain: Seq<char>, cutoff: u64)
    -> int
    decreases items.len(),
{
    if items.len() == 0 {
        0
    } else {
        spec_recover_unavailable(items.drop_last(), chain, cutoff) + if spec_counts_for(
            items.last(),
            chain,
            cutoff,
        ) && (items.last().sent_failed_num != 0 || items.last().failed_num != 0) {
            1int
        } else {
            0int
        }
    }
}

/// How many count toward `sent_failed`.
pub open spec fn spec_recover_sent_failed(items: Seq<VerifiedResult>, chain: Seq<char>, cutoff: u64)
    -> int
    decreases items.len(),
{
    if items.len() == 0 {
        0
    } else {
        spec_recover_sent_failed(items.drop_last(), chain, cutoff) + if spec_counts_for(
            items.last(),
            chain,
            cutoff,
        ) && items.last().sent_failed_num != 0 {
            1int
        } else {
            0int
        }
    }
}

/// Startup recovery for one target: folds every persisted bucket whose
/// minute is at or before the finalized cutoff into the three counters,
/// each bucket exactly once, before any scrape is served. Returns
/// (sent_failed, unavailable, observed).
pub fn recover_data(items: &Vec<VerifiedResult>, chain_name: &String, finalized_minute: u64) -> (r:
    (u64, u64, u64))
    ensures
        r.0 == spec_recover_sent_failed(items@, chain_name@, finalized_minute),
        r.1 == spec_recover_unavailable(items@, chain_name@, finalized_minute),
        r.2 == spec_recover_observed(items@, chain_name@, finalized_minute),
{
    let mut sent_failed: u64 = 0;
    let mut unavailable: u64 = 0;
    let mut observed: u64 = 0;
    let n = items.len();
    let mut i: usize = 0;
    while i < n
        invariant
            n == items@.len(),
            i <= items@.len(),
            sent_failed == spec_recover_sent_failed(
                items@.subrange(0, i as int),
                chain_name@,
                finalized_minute,
            ),
            unavailable == spec_recover_unavailable(
                items@.subrange(0, i as int),
                chain_name@,
                finalized_minute,
            ),
            observed == spec_recover_observed(
                items@.subrange(0, i as int),
                chain_name@,
                finalized_minute,
            ),
            sent_failed <= i && unavailable <= i && observed <= i,
        decreases items@.len() - i,
    {
        let vr = &items[i];
        let is_chain = vr.chain_name.eq(chain_name);
        proof {
            assert(items@.subrange(0, i as int + 1).drop_last() =~= items@.subrange(0, i as int));
            assert(items@.subrange(0, i as int + 1).last() == items@[i as int]);
        }
        if is_chain && vr.timestamp <= finalized_minute {
            observed = observed + 1;
            if vr.sent_failed_num != 0 || vr.failed_num != 0 {
                unavailable = unavailable + 1;
                if vr.sent_failed_num != 0 {
                    sent_failed = sent_failed + 1;
                }
            }
        }
        i += 1;
    }
    proof {
        assert(items@.subrange(0, items@.len() as int) =~= items@);
    }
    (sent_failed, unavailable, observed)
}

/// The metrics endpoint serves exactly one route: `GET /metrics`.
pub fn serve_route(method: &String, path: &String) -> (r: bool)
    ensures
        r == (method@ == "GET"@ && path@ == "/metrics"@),
{
    let get = str_owned("GET");
    let metrics = str_owned("/metrics");
    method.eq(&get) && path.eq(&metrics)
}

/// `str` to owned `String`, view-preserving.
fn str_owned(s: &str) -> (r: String)
    ensures
        r@ == s@,
{
    s.to_owned()
}

} // verus!
