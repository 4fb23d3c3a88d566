//! Pure transition model of the verification pipeline for a single target,
//! and the laws that hold of every run: pending entries track successful
//! submissions and are resolved exactly once, bucket counters count
//! attempts, and the forwarding watermark never hands a bucket out twice.
//!
//! The executable pipeline mirrors these steps: `sender_step`'s contract
//! matches `send_step` on the persisted buckets and pending entries,
//! `apply_timeout` and `apply_probe` together match `probe_step`
//! (`lemma_exec_bumps_match_model` pins the counter updates to each
//! other), and `try_forward`'s contract yields exactly the watermark
//! traces that `valid_forward_trace` describes.

use crate::client::spec_bump;
use crate::client::spec_fail_bump;
use crate::client::spec_send_bump;
use crate::client::spec_succeed_bump;
use crate::client::spec_timed_out;
use crate::record::VerifiedResult;
use crate::time::MS_PER_MINUTE;
use vstd::prelude::*;

verus! {

/// The counters of one minute bucket.
#[derive(Debug, Clone, Copy, PartialEq, Eq, Structural)]
pub struct BucketCounts {
    pub sent: u8,
    pub sent_failed: u8,
    pub failed: u8,
    pub succeed: u8,
}

/// Model state for one target: pending entries by key (holding their send
/// timestamp) and one bucket per minute.
pub struct ModelState {
    pub pending: Map<Seq<char>, u64>,
    pub buckets: Map<u64, BucketCounts>,
}

/// The all-zero bucket.
pub open spec fn zero_bucket() -> BucketCounts {
    BucketCounts { sent: 0, sent_failed: 0, failed: 0, succeed: 0 }
}

/// The bucket for a minute, a fresh one when none exists yet.
pub open spec fn bucket_at(bs: Map<u64, BucketCounts>, m: u64) -> BucketCounts {
    if bs.dom().contains(m) {
        bs[m]
    } else {
        zero_bucket()
    }
}

/// The counters a persisted bucket holds, as a model bucket.
pub open spec fn counts_of(v: VerifiedResult) -> BucketCounts {
    BucketCounts {
        sent: v.sent_num,
        sent_failed: v.sent_failed_num,
        failed: v.failed_num,
        succeed: v.succeed_num,
    }
}

/// The executable bucket updates agree counter-for-counter with the
/// model's: what `sender_step`, `apply_timeout` and `apply_probe` write
/// is exactly what `send_step` and `probe_step` compute.
pub proof fn lemma_exec_bumps_match_model(v: VerifiedResult, ok: bool)
    ensures
        counts_of(spec_send_bump(v, ok)) == (if ok {
            BucketCounts { sent: spec_bump(counts_of(v).sent), ..counts_of(v) }
        } else {
            BucketCounts { sent_failed: spec_bump(counts_of(v).sent_failed), ..counts_of(v) }
        }),
        counts_of(spec_fail_bump(v)) == (BucketCounts {
            failed: spec_bump(counts_of(v).failed),
            ..counts_of(v)
        }),
        counts_of(spec_succeed_bump(v)) == (BucketCounts {
            succeed: spec_bump(counts_of(v).succeed),
            ..counts_of(v)
        }),
{
}

/// One submission attempt: its pending key, send timestamp, and whether
/// the submission succeeded.
pub struct SendEv {
    pub key: Seq<char>,
    pub ts: u64,
    pub ok: bool,
}

/// One sender attempt: a success registers the pending entry; either way
/// the attempt is counted in the bucket of its send minute.
pub open spec fn send_step(s: ModelState, e: SendEv) -> ModelState {
    let m = e.ts / MS_PER_MINUTE;
    let b = bucket_at(s.buckets, m);
    let b2 = if e.ok {
        BucketCounts { sent: spec_bump(b.sent), ..b }
    } else {
        BucketCounts { sent_failed: spec_bump(b.sent_failed), ..b }
    };
    ModelState {
        pending: if e.ok {
            s.pending.insert(e.key, e.ts)
        } else {
            s.pending
        },
        buckets: s.buckets.insert(m, b2),
    }
}

/// A whole sequence of sender attempts, in order.
pub open spec fn run_sends(s: ModelState, evs: Seq<SendEv>) -> ModelState
    decreases evs.len(),
{
    if evs.len() == 0 {
        s
    } else {
        send_step(run_sends(s, evs.drop_last()), evs.last())
    }
}

/// How many attempts succeeded.
pub open spec fn count_ok(evs: Seq<SendEv>) -> int
    decreases evs.len(),
{
    if evs.len() == 0 {
        0
    } else {
        count_ok(evs.drop_last()) + if evs.last().ok {
            1int
        } else {
            0int
        }
    }
}

/// One validator look at one pending entry: past the deadline the entry is
/// deleted and its minute counts a failure, the deadline being checked
/// before any probe; otherwise a confirmation deletes it and counts a
/// success, and anything else changes nothing.
pub open spec fn probe_step(s: ModelState, e: ProbeEv, timeout: u64) -> ModelState {
    if !s.pending.dom().contains(e.key) {
        s
    } else {
        let ts = s.pending[e.key];
        let m = ts / MS_PER_MINUTE;
        let b = bucket_at(s.buckets, m);
        if spec_timed_out(e.now, ts, timeout) {
            ModelState {
                pending: s.pending.remove(e.key),
                buckets: s.buckets.insert(m, BucketCounts { failed: spec_bump(b.failed), ..b }),
            }
        } else if e.confirmed {
            ModelState {
                pending: s.pending.remove(e.key),
                buckets: s.buckets.insert(m, BucketCounts { succeed: spec_bump(b.succeed), ..b }),
            }
        } else {
            s
        }
    }
}

/// One validator look: the entry looked at, the current time, and whether
/// the probe reply (if one was made) confirmed the transaction.
pub struct ProbeEv {
    pub key: Seq<char>,
    pub now: u64,
    pub confirmed: bool,
}

/// A whole sequence of validator looks, in order.
pub open spec fn run_probes(s: ModelState, evs: Seq<ProbeEv>, timeout: u64) -> ModelState
    decreases evs.len(),
{
    if evs.len() == 0 {
        s
    } else {
        probe_step(run_probes(s, evs.drop_last(), timeout), evs.last(), timeout)
    }
}

/// Keys of the attempts are pairwise distinct and none is already pending.
pub open spec fn fresh_distinct_keys(evs: Seq<SendEv>, pending0: Map<Seq<char>, u64>) -> bool {
    (forall|i: int, j: int| 0 <= i < j < evs.len() ==> evs[i].key != evs[j].key) && (forall|i: int|
        0 <= i < evs.len() ==> !pending0.dom().contains(#[trigger] evs[i].key))
}

/// After a run of sends, a key is pending exactly when it was pending
/// before or some successful attempt used it.
pub proof fn lemma_run_sends_pending_dom(s: ModelState, evs: Seq<SendEv>)
    ensures
        forall|k: Seq<char>|
            run_sends(s, evs).pending.dom().contains(k) <==> s.pending.dom().contains(k) || exists|
                i: int,
            | 0 <= i < evs.len() && (#[trigger] evs[i]).ok && evs[i].key == k,
    decreases evs.len(),
{
    if evs.len() > 0 {
        lemma_run_sends_pending_dom(s, evs.drop_last());
        assert forall|k: Seq<char>|
            run_sends(s, evs).pending.dom().contains(k) implies s.pending.dom().contains(k)
            || exists|i: int| 0 <= i < evs.len() && (#[trigger] evs[i]).ok && evs[i].key == k by {
            if run_sends(s, evs.drop_last()).pending.dom().contains(k) {
                if !s.pending.dom().contains(k) {
                    let i = choose|i: int|
                        0 <= i < evs.drop_last().len() && (#[trigger] evs.drop_last()[i]).ok
                            && evs.drop_last()[i].key == k;
                    assert(evs[i].ok && evs[i].key == k);
                }
            } else {
                assert(evs.last().ok && evs.last().key == k);
                assert(evs[evs.len() - 1].ok && evs[evs.len() - 1].key == k);
            }
        }
        assert forall|k: Seq<char>|
            s.pending.dom().contains(k) || exists|i: int|
                0 <= i < evs.len() && (#[trigger] evs[i]).ok && evs[i].key == k implies run_sends(
            s,
            evs,
        ).pending.dom().contains(k) by {
            if !s.pending.dom().contains(k) {
                let i = choose|i: int|
                    0 <= i < evs.len() && (#[trigger] evs[i]).ok && evs[i].key == k;
                if i < evs.len() - 1 {
                    assert(evs.drop_last()[i].ok && evs.drop_last()[i].key == k);
                }
            }
        }
    }
}

/// For every run of sends, the number of pending entries created equals
/// the number of successful submissions: starting from any pending set,
/// attempts with fresh, distinct keys grow it by exactly the success
/// count.
pub proof fn lemma_sends_create_pending(s: ModelState, evs: Seq<SendEv>)
    requires
        s.pending.dom().finite(),
        fresh_distinct_keys(evs, s.pending),
    ensures
        run_sends(s, evs).pending.dom().finite(),
        run_sends(s, evs).pending.dom().len() == s.pending.dom().len() + count_ok(evs),
    decreases evs.len(),
{
    if evs.len() > 0 {
        let prefix = evs.drop_last();
        assert(fresh_distinct_keys(prefix, s.pending)) by {
            assert(forall|i: int|
                0 <= i < prefix.len() ==> !s.pending.dom().contains(#[trigger] prefix[i].key));
        }
        lemma_sends_create_pending(s, prefix);
        let mid = run_sends(s, prefix);
        let e = evs.last();
        if e.ok {
            assert(!mid.pending.dom().contains(e.key)) by {
                lemma_run_sends_pending_dom(s, prefix);
                assert(!s.pending.dom().contains(e.key));
                if exists|i: int| 0 <= i < prefix.len() && (#[trigger] prefix[i]).ok && prefix[i].key == e.key {
                    let i = choose|i: int|
                        0 <= i < prefix.len() && (#[trigger] prefix[i]).ok && prefix[i].key == e.key;
                    assert(evs[i].key == evs[evs.len() - 1].key);
                    assert(false);
                }
            }
            assert(run_sends(s, evs).pending.dom() =~= mid.pending.dom().insert(e.key));
        }
    }
}

/// Timeout precedence (P5 boundary included): an entry strictly past its
/// deadline is deleted at the very next look, whatever the probe outcome,
/// and its minute records a failure, never a success.
pub proof fn lemma_overdue_resolved(s: ModelState, e: ProbeEv, timeout: u64)
    requires
        s.pending.dom().contains(e.key),
        spec_timed_out(e.now, s.pending[e.key], timeout),
    ensures
        !probe_step(s, e, timeout).pending.dom().contains(e.key),
        probe_step(s, e, timeout).pending == s.pending.remove(e.key),
        ({
            let m = s.pending[e.key] / MS_PER_MINUTE;
            let b = bucket_at(s.buckets, m);
            let b2 = bucket_at(probe_step(s, e, timeout).buckets, m);
            b2.failed == spec_bump(b.failed) && b2.succeed == b.succeed
        }),
{
}

/// Not before the deadline: at or under the timeout window, a look without
/// a confirmation changes nothing, so the entry stays pending.
pub proof fn lemma_not_overdue_pending(s: ModelState, e: ProbeEv, timeout: u64)
    requires
        s.pending.dom().contains(e.key),
        !spec_timed_out(e.now, s.pending[e.key], timeout),
        !e.confirmed,
    ensures
        probe_step(s, e, timeout) == s,
{
}

/// Exactly one of timeout and confirmation resolves an entry: the
/// resolving look deletes it and bumps exactly one of the failed and
/// succeed counters, never both.
pub proof fn lemma_outcome_exclusive(s: ModelState, e: ProbeEv, timeout: u64)
    requires
        s.pending.dom().contains(e.key),
    ensures
        ({
            let s2 = probe_step(s, e, timeout);
            let ts = s.pending[e.key];
            let m = ts / MS_PER_MINUTE;
            let b = bucket_at(s.buckets, m);
            let b2 = bucket_at(s2.buckets, m);
            &&& spec_timed_out(e.now, ts, timeout) ==> b2.failed == spec_bump(b.failed)
                && b2.succeed == b.succeed && !s2.pending.dom().contains(e.key)
            &&& !spec_timed_out(e.now, ts, timeout) && e.confirmed ==> b2.succeed == spec_bump(
                b.succeed,
            ) && b2.failed == b.failed && !s2.pending.dom().contains(e.key)
            &&& !spec_timed_out(e.now, ts, timeout) && !e.confirmed ==> s2 == s
        }),
{
}

/// A resolved entry is inert: once a key is no longer pending, every
/// further look at it changes nothing, so no second outcome is ever
/// recorded for it.
pub proof fn lemma_resolved_inert(s: ModelState, e: ProbeEv, timeout: u64)
    requires
        !s.pending.dom().contains(e.key),
    ensures
        probe_step(s, e, timeout) == s,
{
}

/// While an entry stays pending over a run, its send timestamp is
/// unchanged, and a run never creates pending entries.
pub proof fn lemma_run_probes_pending(s: ModelState, evs: Seq<ProbeEv>, timeout: u64, k: Seq<char>)
    ensures
        run_probes(s, evs, timeout).pending.dom().contains(k) ==> s.pending.dom().contains(k)
            && run_probes(s, evs, timeout).pending[k] == s.pending[k],
    decreases evs.len(),
{
    if evs.len() > 0 {
        lemma_run_probes_pending(s, evs.drop_last(), timeout, k);
    }
}

/// Every created entry is eventually deleted: once any look in the run
/// observes the entry past its deadline, the entry is gone at the end of
/// the run — no entry survives indefinitely.
pub proof fn lemma_pending_eventually_deleted(
    s: ModelState,
    evs: Seq<ProbeEv>,
    timeout: u64,
    k: Seq<char>,
)
    requires
        s.pending.dom().contains(k) ==> exists|i: int|
            0 <= i < evs.len() && (#[trigger] evs[i]).key == k && spec_timed_out(
                evs[i].now,
                s.pending[k],
                timeout,
            ),
    ensures
        !run_probes(s, evs, timeout).pending.dom().contains(k),
    decreases evs.len(),
{
    if !s.pending.dom().contains(k) {
        lemma_run_probes_pending(s, evs, timeout, k);
    } else {
        let i = choose|i: int|
            0 <= i < evs.len() && (#[trigger] evs[i]).key == k && spec_timed_out(
                evs[i].now,
                s.pending[k],
                timeout,
            );
        let prefix = evs.drop_last();
        if i < evs.len() - 1 {
            assert(prefix[i].key == k && spec_timed_out(prefix[i].now, s.pending[k], timeout));
            lemma_pending_eventually_deleted(s, prefix, timeout, k);
            let mid = run_probes(s, prefix, timeout);
            assert(probe_step(mid, evs.last(), timeout).pending.dom().contains(k)
                ==> mid.pending.dom().contains(k));
        } else {
            let mid = run_probes(s, prefix, timeout);
            if mid.pending.dom().contains(k) {
                lemma_run_probes_pending(s, prefix, timeout, k);
                lemma_overdue_resolved(mid, evs.last(), timeout);
            } else {
                lemma_resolved_inert(mid, evs.last(), timeout);
            }
        }
    }
}

/// The state after the first `i` of the looks have been applied.
pub open spec fn probes_state_at(s: ModelState, evs: Seq<ProbeEv>, timeout: u64, i: int)
    -> ModelState {
    run_probes(s, evs.take(i), timeout)
}

/// Whether the `i`-th look resolves its entry: the entry was pending
/// before the look and is gone after it.
pub open spec fn resolves_at(s: ModelState, evs: Seq<ProbeEv>, timeout: u64, i: int) -> bool {
    probes_state_at(s, evs, timeout, i).pending.dom().contains(evs[i].key) && !probes_state_at(
        s,
        evs,
        timeout,
        i + 1,
    ).pending.dom().contains(evs[i].key)
}

proof fn lemma_take_step(s: ModelState, evs: Seq<ProbeEv>, timeout: u64, i: int)
    requires
        0 <= i < evs.len(),
    ensures
        probes_state_at(s, evs, timeout, i + 1) == probe_step(
            probes_state_at(s, evs, timeout, i),
            evs[i],
            timeout,
        ),
{
    assert(evs.take(i + 1).drop_last() =~= evs.take(i));
    assert(evs.take(i + 1).last() == evs[i]);
}

proof fn lemma_absence_persists(
    s: ModelState,
    evs: Seq<ProbeEv>,
    timeout: u64,
    k: Seq<char>,
    m: int,
    j: int,
)
    requires
        0 <= m <= j <= evs.len(),
        !probes_state_at(s, evs, timeout, m).pending.dom().contains(k),
    ensures
        !probes_state_at(s, evs, timeout, j).pending.dom().contains(k),
    decreases j - m,
{
    if m < j {
        lemma_take_step(s, evs, timeout, m);
        lemma_absence_persists(s, evs, timeout, k, m + 1, j);
    }
}

/// P3 in run form: over any run of looks, each entry is resolved at most
/// once — after the look that resolves it, no later look on the same key
/// resolves it again, so only one terminal outcome is ever recorded per
/// entry.
pub proof fn lemma_single_resolution(
    s: ModelState,
    evs: Seq<ProbeEv>,
    timeout: u64,
    i: int,
    j: int,
)
    requires
        0 <= i < j < evs.len(),
        resolves_at(s, evs, timeout, i),
        evs[i].key == evs[j].key,
    ensures
        !resolves_at(s, evs, timeout, j),
{
    lemma_absence_persists(s, evs, timeout, evs[i].key, i + 1, j);
}

/// How many attempts fall in minute `m`.
pub open spec fn count_in_minute(evs: Seq<SendEv>, m: u64) -> int
    decreases evs.len(),
{
    if evs.len() == 0 {
        0
    } else {
        count_in_minute(evs.drop_last(), m) + if evs.last().ts / MS_PER_MINUTE == m {
            1int
        } else {
            0int
        }
    }
}

proof fn lemma_count_in_minute_bounds(evs: Seq<SendEv>, m: u64)
    ensures
        0 <= count_in_minute(evs, m) <= evs.len(),
    decreases evs.len(),
{
    if evs.len() > 0 {
        lemma_count_in_minute_bounds(evs.drop_last(), m);
    }
}

/// For every (target, minute), sent plus send-failed in the bucket equals
/// the number of sender attempts whose send timestamp falls in that
/// minute — exact as long as at most 255 attempts land in one bucket, the
/// point at which the saturating counters stop.
pub proof fn lemma_bucket_counts_attempts(s: ModelState, evs: Seq<SendEv>, m: u64)
    requires
        bucket_at(s.buckets, m).sent + bucket_at(s.buckets, m).sent_failed + count_in_minute(
            evs,
            m,
        ) <= 255,
    ensures
        ({
            let b0 = bucket_at(s.buckets, m);
            let b1 = bucket_at(run_sends(s, evs).buckets, m);
            &&& b1.sent + b1.sent_failed == b0.sent + b0.sent_failed + count_in_minute(evs, m)
            &&& b1.failed == b0.failed
            &&& b1.succeed == b0.succeed
        }),
    decreases evs.len(),
{
    if evs.len() > 0 {
        let prefix = evs.drop_last();
        lemma_count_in_minute_bounds(prefix, m);
        lemma_bucket_counts_attempts(s, prefix, m);
    }
}

/// One step of the forwarding watermark: a bucket minute is handed out
/// only when it lies strictly beyond the watermark, which then advances to
/// it; otherwise the watermark stays.
pub open spec fn forward_step_ok(marks: Seq<u64>, fwd: Seq<Option<u64>>, i: int) -> bool {
    match fwd[i] {
        Some(m) => m > marks[i] && marks[i + 1] == m,
        None => marks[i + 1] == marks[i],
    }
}

/// A run of the forwarding watermark, as `try_forward` produces it.
pub open spec fn valid_forward_trace(marks: Seq<u64>, fwd: Seq<Option<u64>>) -> bool {
    marks.len() == fwd.len() + 1 && forall|i: int|
        0 <= i < fwd.len() ==> #[trigger] forward_step_ok(marks, fwd, i)
}

/// The watermark never moves backwards.
pub proof fn lemma_marks_monotone(marks: Seq<u64>, fwd: Seq<Option<u64>>, i: int, j: int)
    requires
        valid_forward_trace(marks, fwd),
        0 <= i <= j < marks.len(),
    ensures
        marks[i] <= marks[j],
    decreases j - i,
{
    if i < j {
        assert(forward_step_ok(marks, fwd, j - 1));
        lemma_marks_monotone(marks, fwd, i, j - 1);
    }
}

/// Forwarding happens at most once per bucket: over any run of the
/// watermark rule, the minutes handed out are strictly increasing, so no
/// minute — and hence no bucket — is handed to the metrics stage twice.
pub proof fn lemma_forward_at_most_once(marks: Seq<u64>, fwd: Seq<Option<u64>>, i: int, j: int)
    requires
        valid_forward_trace(marks, fwd),
        0 <= i < j < fwd.len(),
        fwd[i] is Some,
        fwd[j] is Some,
    ensures
        fwd[i]->0 < fwd[j]->0,
{
    assert(forward_step_ok(marks, fwd, i));
    assert(forward_step_ok(marks, fwd, j));
    lemma_marks_monotone(marks, fwd, i + 1, j);
}

} // verus!
