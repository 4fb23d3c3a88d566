//! sled-backed persistence: one named tree per record type, each modelled
//! as a byte-string map, with typed accessors proved against that model.

use crate::codec::enc_str;
use crate::codec::get_u32;
use crate::codec::put_str;
use crate::codec::put_u32;
use crate::codec::put_u64;
use crate::codec::u32_le;
use crate::codec::u64_le;
use crate::record::enc_record;
use crate::record::enc_utx;
use crate::record::enc_vr;
use crate::record::decode_utx;
use crate::record::decode_vr;
use crate::record::encode_record;
use crate::record::encode_utx;
use crate::record::encode_vr;
use crate::record::Record;
use crate::record::UnverifiedTX;
use crate::record::VerifiedResult;
use vstd::prelude::*;
use vstd::utf8::encode_utf8;

verus! {

#[verifier::external_type_specification]
#[verifier::external_body]
pub struct ExDb(sled::Db);

/// Name for what one named tree of a sled database holds: the byte-string
/// map from keys to values.
pub uninterp spec fn tree_view(db: sled::Db, tree: Seq<char>) -> Map<Seq<u8>, Seq<u8>>;

/// Handle on one sled database holding the store's trees.
pub struct SledStorage {
    pub db: sled::Db,
}

/// Store key of an outcome bucket: target then minute.
pub open spec fn spec_vr_key(chain: Seq<char>, minute: u64) -> Seq<u8> {
    enc_str(chain) + u64_le(minute)
}

/// Store key of a pending entry: its disambiguated key string.
pub open spec fn spec_utx_key(u: UnverifiedTX) -> Seq<u8> {
    enc_str(u.spec_key())
}

/// Store key of an audit record: its timestamp.
pub open spec fn spec_record_key(ts: u64) -> Seq<u8> {
    u64_le(ts)
}

/// Store key of a named sequence counter: the name's UTF-8 bytes.
pub open spec fn spec_seq_key(name: Seq<char>) -> Seq<u8> {
    encode_utf8(name)
}

pub fn vr_key(chain: &str, minute: u64) -> (r: Vec<u8>)
    ensures
        r@ == spec_vr_key(chain@, minute),
{
    let mut out: Vec<u8> = Vec::new();
    put_str(&mut out, chain);
    put_u64(&mut out, minute);
    out
}

/// Whether some stored pending entry decodes back to exactly `u`.
pub open spec fn stored_utx(s: SledStorage, u: UnverifiedTX) -> bool {
    exists|k: Seq<u8>| #[trigger] s.utxs().dom().contains(k) && s.utxs()[k] == enc_utx(u)
}

/// Whether some stored outcome bucket decodes back to exactly `v`.
pub open spec fn stored_vr(s: SledStorage, v: VerifiedResult) -> bool {
    exists|k: Seq<u8>| #[trigger] s.vrs().dom().contains(k) && s.vrs()[k] == enc_vr(v)
}

/// Whether a byte string is the encoding of some pending entry.
pub open spec fn is_utx_encoding(bytes: Seq<u8>) -> bool {
    exists|u: UnverifiedTX| #[trigger] enc_utx(u) == bytes
}

/// Whether some listed pending entry encodes to the byte string.
pub open spec fn utx_listed(out: Seq<UnverifiedTX>, bytes: Seq<u8>) -> bool {
    exists|j: int| 0 <= j < out.len() && enc_utx(#[trigger] out[j]) == bytes
}

/// Whether a byte string is the encoding of some outcome bucket.
pub open spec fn is_vr_encoding(bytes: Seq<u8>) -> bool {
    exists|v: VerifiedResult| #[trigger] enc_vr(v) == bytes
}

/// Whether some listed outcome bucket encodes to the byte string.
pub open spec fn vr_listed(out: Seq<VerifiedResult>, bytes: Seq<u8>) -> bool {
    exists|j: int| 0 <= j < out.len() && enc_vr(#[trigger] out[j]) == bytes
}

/// The four tree names are pairwise distinct character sequences.
proof fn lemma_tree_names_distinct()
    ensures
        "UnverifiedTX"@ != "VerifiedResult"@,
        "UnverifiedTX"@ != "Record"@,
        "UnverifiedTX"@ != "sequence"@,
        "VerifiedResult"@ != "Record"@,
        "VerifiedResult"@ != "sequence"@,
        "Record"@ != "sequence"@,
{
    reveal_strlit("UnverifiedTX");
    reveal_strlit("VerifiedResult");
    reveal_strlit("Record");
    reveal_strlit("sequence");
    assert("UnverifiedTX"@.len() == 12);
    assert("VerifiedResult"@.len() == 14);
    assert("Record"@.len() == 6);
    assert("sequence"@.len() == 8);
}

impl SledStorage {
    /// The byte map held by the tree of the given name.
    pub open spec fn tree(self, name: Seq<char>) -> Map<Seq<u8>, Seq<u8>> {
        tree_view(self.db, name)
    }

    /// Pending-verification entries.
    pub open spec fn utxs(self) -> Map<Seq<u8>, Seq<u8>> {
        self.tree("UnverifiedTX"@)
    }

    /// Outcome buckets.
    pub open spec fn vrs(self) -> Map<Seq<u8>, Seq<u8>> {
        self.tree("VerifiedResult"@)
    }

    /// Audit records.
    pub open spec fn records(self) -> Map<Seq<u8>, Seq<u8>> {
        self.tree("Record"@)
    }

    /// Named sequence counters.
    pub open spec fn seqs(self) -> Map<Seq<u8>, Seq<u8>> {
        self.tree("sequence"@)
    }

    /// Relies on sled::open: opens (or creates) the database at `path`.
    /// What the trees hold comes from disk, so nothing is stated of it.
    #[verifier::external_body]
    pub fn init(path: &str) -> (r: Option<SledStorage>) {
        match sled::open(path) {
            Ok(db) => Some(SledStorage { db }),
            Err(_) => None,
        }
    }

    /// Relies on sled::Db::clone: a second handle onto the same database.
    /// The two handles alias one another, so nothing is stated of the copy;
    /// it is meant for hand-off to an independent consumer task.
    #[verifier::external_body]
    pub fn duplicate(&self) -> SledStorage {
        SledStorage { db: self.db.clone() }
    }

    /// Relies on sled::Tree::get: returns the stored value for a present
    /// key, `None` for an absent one; a read that fails is `None` too.
    #[verifier::external_body]
    fn raw_get(&self, tree: &str, key: &[u8]) -> (r: Option<Vec<u8>>)
        ensures
            r matches Some(v) ==> tree_view(self.db, tree@).dom().contains(key@) && tree_view(
                self.db,
                tree@,
            )[key@] == v@,
            !tree_view(self.db, tree@).dom().contains(key@) ==> r is None,
    {
        let t = match self.db.open_tree(tree) {
            Ok(t) => t,
            Err(_) => return None,
        };
        match t.get(key) {
            Ok(Some(v)) => Some(v.to_vec()),
            _ => None,
        }
    }

    /// Relies on sled::Tree::insert: on success the tree maps `key` to
    /// `value`; a failed write leaves the tree as it was; other trees are
    /// untouched either way.
    #[verifier::external_body]
    fn raw_insert(&mut self, tree: &str, key: &[u8], value: &[u8]) -> (r: bool)
        ensures
            r ==> tree_view(final(self).db, tree@) == tree_view(old(self).db, tree@).insert(
                key@,
                value@,
            ),
            !r ==> tree_view(final(self).db, tree@) == tree_view(old(self).db, tree@),
            forall|t: Seq<char>|
                t != tree@ ==> tree_view(final(self).db, t) == tree_view(old(self).db, t),
    {
        let t = match self.db.open_tree(tree) {
            Ok(t) => t,
            Err(_) => return false,
        };
        t.insert(key, value).is_ok()
    }

    /// Relies on sled::Tree::remove: on success the key is gone from the
    /// tree; a failed write leaves it as it was; other trees are untouched.
    #[verifier::external_body]
    fn raw_remove(&mut self, tree: &str, key: &[u8]) -> (r: bool)
        ensures
            r ==> tree_view(final(self).db, tree@) == tree_view(old(self).db, tree@).remove(key@),
            !r ==> tree_view(final(self).db, tree@) == tree_view(old(self).db, tree@),
            forall|t: Seq<char>|
                t != tree@ ==> tree_view(final(self).db, t) == tree_view(old(self).db, t),
    {
        let t = match self.db.open_tree(tree) {
            Ok(t) => t,
            Err(_) => return false,
        };
        t.remove(key).is_ok()
    }

    /// Relies on sled::Tree::iter: yields the tree's entries in key order.
    /// Every pair handed back is in the tree, keys are pairwise distinct,
    /// and when no step failed the flag is set and every entry appears.
    #[verifier::external_body]
    fn raw_scan(&self, tree: &str) -> (r: (bool, Vec<(Vec<u8>, Vec<u8>)>))
        ensures
            forall|i: int|
                0 <= i < r.1@.len() ==> tree_view(self.db, tree@).dom().contains(r.1@[i].0@)
                    && tree_view(self.db, tree@)[r.1@[i].0@] == r.1@[i].1@,
            forall|i: int, j: int| 0 <= i < j < r.1@.len() ==> r.1@[i].0@ != r.1@[j].0@,
            r.0 ==> forall|k: Seq<u8>|
                tree_view(self.db, tree@).dom().contains(k) ==> exists|i: int|
                    0 <= i < r.1@.len() && r.1@[i].0@ == k,
    {
        let t = match self.db.open_tree(tree) {
            Ok(t) => t,
            Err(_) => return (false, Vec::new()),
        };
        let mut ok = true;
        let mut out: Vec<(Vec<u8>, Vec<u8>)> = Vec::new();
        for item in t.iter() {
            match item {
                Ok((k, v)) => out.push((k.to_vec(), v.to_vec())),
                Err(_) => ok = false,
            }
        }
        (ok, out)
    }

    /// Relies on sled::Tree::compare_and_swap: succeeds exactly when the
    /// current value matches `old_v` (or the key is absent for `None`), in
    /// which case the key now maps to `new_v`; otherwise nothing changed.
    #[verifier::external_body]
    fn raw_cas(&mut self, tree: &str, key: &[u8], old_v: Option<&Vec<u8>>, new_v: &[u8]) -> (r:
        bool)
        ensures
            r ==> (match old_v {
                Some(o) => tree_view(old(self).db, tree@).dom().contains(key@) && tree_view(
                    old(self).db,
                    tree@,
                )[key@] == o@,
                None => !tree_view(old(self).db, tree@).dom().contains(key@),
            }) && tree_view(final(self).db, tree@) == tree_view(old(self).db, tree@).insert(
                key@,
                new_v@,
            ),
            !r ==> tree_view(final(self).db, tree@) == tree_view(old(self).db, tree@),
            forall|t: Seq<char>|
                t != tree@ ==> tree_view(final(self).db, t) == tree_view(old(self).db, t),
    {
        let t = match self.db.open_tree(tree) {
            Ok(t) => t,
            Err(_) => return false,
        };
        match t.compare_and_swap(key, old_v.map(|v| v.as_slice()), Some(new_v)) {
            Ok(Ok(())) => true,
            _ => false,
        }
    }

    /// Looks up the outcome bucket for a target and minute; whatever comes
    /// back re-encodes to the stored bytes, and an absent key yields `None`.
    pub fn get_vr(&self, chain: &str, minute: u64) -> (r: Option<VerifiedResult>)
        ensures
            r matches Some(v) ==> self.vrs().dom().contains(spec_vr_key(chain@, minute))
                && self.vrs()[spec_vr_key(chain@, minute)] == enc_vr(v),
            !self.vrs().dom().contains(spec_vr_key(chain@, minute)) ==> r is None,
    {
        let key = vr_key(chain, minute);
        match self.raw_get("VerifiedResult", key.as_slice()) {
            Some(bytes) => decode_vr(&bytes),
            None => None,
        }
    }

    /// Writes the outcome bucket under the explicit (target, minute) key.
    pub fn insert_vr(&mut self, chain: &str, minute: u64, v: &VerifiedResult) -> (r: bool)
        ensures
            r ==> final(self).vrs() == old(self).vrs().insert(
                spec_vr_key(chain@, minute),
                enc_vr(*v),
            ),
            !r ==> final(self).vrs() == old(self).vrs(),
            final(self).utxs() == old(self).utxs(),
            final(self).records() == old(self).records(),
            final(self).seqs() == old(self).seqs(),
    {
        proof {
            lemma_tree_names_distinct();
        }
        let key = vr_key(chain, minute);
        let value = encode_vr(v);
        self.raw_insert("VerifiedResult", key.as_slice(), value.as_slice())
    }

    /// Registers a pending entry under its disambiguated key.
    pub fn insert_utx(&mut self, u: &UnverifiedTX) -> (r: bool)
        ensures
            r ==> final(self).utxs() == old(self).utxs().insert(spec_utx_key(*u), enc_utx(*u)),
            !r ==> final(self).utxs() == old(self).utxs(),
            final(self).vrs() == old(self).vrs(),
            final(self).records() == old(self).records(),
            final(self).seqs() == old(self).seqs(),
    {
        proof {
            lemma_tree_names_distinct();
        }
        let ks = u.key();
        let mut key: Vec<u8> = Vec::new();
        put_str(&mut key, ks.as_str());
        let value = encode_utx(u);
        self.raw_insert("UnverifiedTX", key.as_slice(), value.as_slice())
    }

    /// Deletes a pending entry: the terminal transition for its handle.
    pub fn remove_utx(&mut self, u: &UnverifiedTX) -> (r: bool)
        ensures
            r ==> final(self).utxs() == old(self).utxs().remove(spec_utx_key(*u)),
            !r ==> final(self).utxs() == old(self).utxs(),
            final(self).vrs() == old(self).vrs(),
            final(self).records() == old(self).records(),
            final(self).seqs() == old(self).seqs(),
    {
        proof {
            lemma_tree_names_distinct();
        }
        let ks = u.key();
        let mut key: Vec<u8> = Vec::new();
        put_str(&mut key, ks.as_str());
        self.raw_remove("UnverifiedTX", key.as_slice())
    }

    /// Scans every pending entry; each value handed back re-encodes to a
    /// stored entry. Unreadable entries are skipped, as a failed read is
    /// treated as absence; when the scan completed, every stored entry
    /// that is an encoding at all is in the list.
    pub fn all_utx(&self) -> (r: (bool, Vec<UnverifiedTX>))
        ensures
            forall|i: int| 0 <= i < r.1@.len() ==> #[trigger] stored_utx(*self, r.1@[i]),
            r.0 ==> forall|k: Seq<u8>|
                #[trigger] self.utxs().dom().contains(k) && is_utx_encoding(self.utxs()[k])
                    ==> utx_listed(r.1@, self.utxs()[k]),
    {
        let (complete, raw) = self.raw_scan("UnverifiedTX");
        let mut out: Vec<UnverifiedTX> = Vec::new();
        let n = raw.len();
        let mut i: usize = 0;
        while i < n
            invariant
                n == raw@.len(),
                i <= raw@.len(),
                forall|j: int|
                    0 <= j < raw@.len() ==> self.utxs().dom().contains(raw@[j].0@)
                        && self.utxs()[raw@[j].0@] == raw@[j].1@,
                forall|j: int| 0 <= j < out@.len() ==> #[trigger] stored_utx(*self, out@[j]),
                forall|j: int|
                    0 <= j < i ==> is_utx_encoding(#[trigger] raw@[j].1@) ==> utx_listed(
                        out@,
                        raw@[j].1@,
                    ),
            decreases raw@.len() - i,
        {
            let ghost out_before = out@;
            match decode_utx(&raw[i].1) {
                Some(u) => {
                    proof {
                        let k = raw@[i as int].0@;
                        assert(self.utxs().dom().contains(k) && self.utxs()[k] == enc_utx(u));
                        assert(stored_utx(*self, u));
                    }
                    out.push(u);
                    proof {
                        assert forall|j: int|
                            0 <= j < i + 1 && is_utx_encoding(#[trigger] raw@[j].1@) implies
                        utx_listed(out@, raw@[j].1@) by {
                            if j < i {
                                let m = choose|m: int|
                                    0 <= m < out_before.len() && enc_utx(#[trigger] out_before[m])
                                        == raw@[j].1@;
                                assert(out@[m] == out_before[m]);
                            } else {
                                assert(enc_utx(out@[out@.len() - 1]) == raw@[j].1@);
                            }
                        }
                    }
                },
                None => {
                    proof {
                        assert(!is_utx_encoding(raw@[i as int].1@));
                    }
                },
            }
            i += 1;
        }
        proof {
            if complete {
                assert forall|k: Seq<u8>|
                    #[trigger] self.utxs().dom().contains(k) && is_utx_encoding(self.utxs()[k])
                        implies utx_listed(out@, self.utxs()[k]) by {
                    let j = choose|j: int| 0 <= j < raw@.len() && raw@[j].0@ == k;
                    assert(self.utxs()[k] == raw@[j].1@);
                }
            }
        }
        (complete, out)
    }

    /// Scans every outcome bucket; each value handed back re-encodes to a
    /// stored entry. Unreadable entries are skipped, as a failed read is
    /// treated as absence; when the scan completed, every stored bucket
    /// that is an encoding at all is in the list.
    pub fn all_vr(&self) -> (r: (bool, Vec<VerifiedResult>))
        ensures
            forall|i: int| 0 <= i < r.1@.len() ==> #[trigger] stored_vr(*self, r.1@[i]),
            r.0 ==> forall|k: Seq<u8>|
                #[trigger] self.vrs().dom().contains(k) && is_vr_encoding(self.vrs()[k])
                    ==> vr_listed(r.1@, self.vrs()[k]),
    {
        let (complete, raw) = self.raw_scan("VerifiedResult");
        let mut out: Vec<VerifiedResult> = Vec::new();
        let n = raw.len();
        let mut i: usize = 0;
        while i < n
            invariant
                n == raw@.len(),
                i <= raw@.len(),
                forall|j: int|
                    0 <= j < raw@.len() ==> self.vrs().dom().contains(raw@[j].0@)
                        && self.vrs()[raw@[j].0@] == raw@[j].1@,
                forall|j: int| 0 <= j < out@.len() ==> #[trigger] stored_vr(*self, out@[j]),
                forall|j: int|
                    0 <= j < i ==> is_vr_encoding(#[trigger] raw@[j].1@) ==> vr_listed(
                        out@,
                        raw@[j].1@,
                    ),
            decreases raw@.len() - i,
        {
            let ghost out_before = out@;
            match decode_vr(&raw[i].1) {
                Some(v) => {
                    proof {
                        let k = raw@[i as int].0@;
                        assert(self.vrs().dom().contains(k) && self.vrs()[k] == enc_vr(v));
                        assert(stored_vr(*self, v));
                    }
                    out.push(v);
                    proof {
                        assert forall|j: int|
                            0 <= j < i + 1 && is_vr_encoding(#[trigger] raw@[j].1@) implies
                        vr_listed(out@, raw@[j].1@) by {
                            if j < i {
                                let m = choose|m: int|
                                    0 <= m < out_before.len() && enc_vr(#[trigger] out_before[m])
                                        == raw@[j].1@;
                                assert(out@[m] == out_before[m]);
                            } else {
                                assert(enc_vr(out@[out@.len() - 1]) == raw@[j].1@);
                            }
                        }
                    }
                },
                None => {
                    proof {
                        assert(!is_vr_encoding(raw@[i as int].1@));
                    }
                },
            }
            i += 1;
        }
        proof {
            if complete {
                assert forall|k: Seq<u8>|
                    #[trigger] self.vrs().dom().contains(k) && is_vr_encoding(self.vrs()[k])
                        implies vr_listed(out@, self.vrs()[k]) by {
                    let j = choose|j: int| 0 <= j < raw@.len() && raw@[j].0@ == k;
                    assert(self.vrs()[k] == raw@[j].1@);
                }
            }
        }
        (complete, out)
    }

    /// Writes one audit record under its timestamp key.
    pub fn insert_record(&mut self, rec: &Record) -> (r: bool)
        ensures
            r ==> final(self).records() == old(self).records().insert(
                spec_record_key(rec.timestamp),
                enc_record(*rec),
            ),
            !r ==> final(self).records() == old(self).records(),
            final(self).utxs() == old(self).utxs(),
            final(self).vrs() == old(self).vrs(),
            final(self).seqs() == old(self).seqs(),
    {
        proof {
            lemma_tree_names_distinct();
        }
        let mut key: Vec<u8> = Vec::new();
        put_u64(&mut key, rec.timestamp);
        let value = encode_record(rec);
        self.raw_insert("Record", key.as_slice(), value.as_slice())
    }

    /// Current value of a named sequence, or zero when it is absent or
    /// cannot be read.
    pub fn current(&self, name: &str) -> (r: u32)
        ensures
            (self.seqs().dom().contains(spec_seq_key(name@)) && self.seqs()[spec_seq_key(name@)]
                == u32_le(r)) || r == 0,
    {
        match self.raw_get("sequence", name.as_bytes()) {
            Some(b) => {
                match get_u32(&b, 0) {
                    Some((v, p)) => {
                        if p == b.len() {
                            proof {
                                assert(b@.subrange(0, 4) =~= b@);
                            }
                            v
                        } else {
                            0
                        }
                    },
                    None => 0,
                }
            },
            None => 0,
        }
    }

    /// Advances a named sequence by one and returns the new value; zero
    /// reports failure (a lost race, an unreadable cell, or exhaustion),
    /// in which case nothing changed.
    pub fn next(&mut self, name: &str) -> (r: u32)
        ensures
            r != 0 ==> final(self).seqs() == old(self).seqs().insert(
                spec_seq_key(name@),
                u32_le(r),
            ),
            r > 1 ==> old(self).seqs().dom().contains(spec_seq_key(name@)) && old(self).seqs()[
                spec_seq_key(name@)] == u32_le((r - 1) as u32),
            r == 1 ==> !old(self).seqs().dom().contains(spec_seq_key(name@)) || old(self).seqs()[
                spec_seq_key(name@)] == u32_le(0),
            r == 0 ==> final(self).seqs() == old(self).seqs(),
            final(self).utxs() == old(self).utxs(),
            final(self).vrs() == old(self).vrs(),
            final(self).records() == old(self).records(),
    {
        proof {
            lemma_tree_names_distinct();
        }
        match self.raw_get("sequence", name.as_bytes()) {
            Some(b) => {
                let (v, p) = match get_u32(&b, 0) {
                    Some(x) => x,
                    None => { return 0; },
                };
                if p != b.len() || v == u32::MAX {
                    return 0;
                }
                proof {
                    assert(b@.subrange(0, 4) =~= b@);
                }
                let mut newb: Vec<u8> = Vec::new();
                put_u32(&mut newb, v + 1);
                if self.raw_cas("sequence", name.as_bytes(), Some(&b), newb.as_slice()) {
                    v + 1
                } else {
                    0
                }
            },
            None => {
                let mut newb: Vec<u8> = Vec::new();
                put_u32(&mut newb, 1);
                if self.raw_cas("sequence", name.as_bytes(), None, newb.as_slice()) {
                    1
                } else {
                    0
                }
            },
        }
    }
}

/// `String::as_str`, named so call sites inside contracts stay short.
fn self_str(s: &String) -> (r: &str)
    ensures
        r@ == s@,
{
    s.as_str()
}

} // verus!
