//! Byte encoding for the values the store persists: little-endian integers
//! and length-prefixed UTF-8 strings, with proved encoders and decoders.

use vstd::prelude::*;
use vstd::utf8::encode_utf8;
use vstd::utf8::valid_utf8;

verus! {

/// Little-endian image of a `u64`.
pub open spec fn u64_le(v: u64) -> Seq<u8> {
    seq![
        (v & 0xff) as u8,
        ((v >> 8) & 0xff) as u8,
        ((v >> 16) & 0xff) as u8,
        ((v >> 24) & 0xff) as u8,
        ((v >> 32) & 0xff) as u8,
        ((v >> 40) & 0xff) as u8,
        ((v >> 48) & 0xff) as u8,
        ((v >> 56) & 0xff) as u8,
    ]
}

/// Little-endian image of a `u32`.
pub open spec fn u32_le(v: u32) -> Seq<u8> {
    seq![
        (v & 0xff) as u8,
        ((v >> 8) & 0xff) as u8,
        ((v >> 16) & 0xff) as u8,
        ((v >> 24) & 0xff) as u8,
    ]
}

/// A byte string, prefixed by its length.
pub open spec fn enc_bytes(b: Seq<u8>) -> Seq<u8> {
    u64_le(b.len() as u64) + b
}

/// A string, as its length-prefixed UTF-8 bytes.
pub open spec fn enc_str(s: Seq<char>) -> Seq<u8> {
    enc_bytes(encode_utf8(s))
}

/// Two equal little-endian images come from the same value.
pub(crate) proof fn lemma_u64_le_injective(a: u64, b: u64)
    requires
        u64_le(a) == u64_le(b),
    ensures
        a == b,
{
    assert(u64_le(a)[0] == u64_le(b)[0]);
    assert(u64_le(a)[1] == u64_le(b)[1]);
    assert(u64_le(a)[2] == u64_le(b)[2]);
    assert(u64_le(a)[3] == u64_le(b)[3]);
    assert(u64_le(a)[4] == u64_le(b)[4]);
    assert(u64_le(a)[5] == u64_le(b)[5]);
    assert(u64_le(a)[6] == u64_le(b)[6]);
    assert(u64_le(a)[7] == u64_le(b)[7]);
    assert(a == b) by (bit_vector)
        requires
            (a & 0xff) as u8 == (b & 0xff) as u8,
            ((a >> 8) & 0xff) as u8 == ((b >> 8) & 0xff) as u8,
            ((a >> 16) & 0xff) as u8 == ((b >> 16) & 0xff) as u8,
            ((a >> 24) & 0xff) as u8 == ((b >> 24) & 0xff) as u8,
            ((a >> 32) & 0xff) as u8 == ((b >> 32) & 0xff) as u8,
            ((a >> 40) & 0xff) as u8 == ((b >> 40) & 0xff) as u8,
            ((a >> 48) & 0xff) as u8 == ((b >> 48) & 0xff) as u8,
            ((a >> 56) & 0xff) as u8 == ((b >> 56) & 0xff) as u8,
    ;
}

/// When two length-prefixed byte strings head the same sequence and both
/// lengths fit the prefix, they are the same byte string with the same
/// tail.
pub(crate) proof fn lemma_enc_bytes_prefix(x1: Seq<u8>, x2: Seq<u8>, r1: Seq<u8>, r2: Seq<u8>)
    requires
        enc_bytes(x1) + r1 == enc_bytes(x2) + r2,
        x1.len() <= u64::MAX,
        x2.len() <= u64::MAX,
    ensures
        x1 == x2,
        r1 == r2,
{
    let s = enc_bytes(x1) + r1;
    assert(u64_le(x1.len() as u64) =~= u64_le(x2.len() as u64)) by {
        assert forall|i: int| 0 <= i < 8 implies #[trigger] u64_le(x1.len() as u64)[i] == u64_le(
            x2.len() as u64,
        )[i] by {
            assert(u64_le(x1.len() as u64)[i] == s[i]);
            assert(u64_le(x2.len() as u64)[i] == (enc_bytes(x2) + r2)[i]);
        }
    }
    lemma_u64_le_injective(x1.len() as u64, x2.len() as u64);
    assert(x1.len() == x2.len());
    assert(x1 =~= x2) by {
        assert forall|i: int| 0 <= i < x1.len() implies #[trigger] x1[i] == x2[i] by {
            assert(x1[i] == s[8 + i]);
            assert(x2[i] == (enc_bytes(x2) + r2)[8 + i]);
        }
    }
    assert(enc_bytes(x1).len() == 8 + x1.len());
    assert(enc_bytes(x2).len() == 8 + x2.len());
    assert((enc_bytes(x1) + r1).len() == enc_bytes(x1).len() + r1.len());
    assert((enc_bytes(x2) + r2).len() == enc_bytes(x2).len() + r2.len());
    assert(r1.len() == r2.len());
    assert(r1 =~= r2) by {
        assert forall|i: int| 0 <= i < r1.len() implies #[trigger] r1[i] == r2[i] by {
            assert(r1[i] == s[8 + x1.len() + i]);
            assert(r2[i] == (enc_bytes(x2) + r2)[8 + x2.len() + i]);
        }
    }
}

/// Concatenations with equally long heads split identically.
pub(crate) proof fn lemma_concat_cancel(a1: Seq<u8>, b1: Seq<u8>, a2: Seq<u8>, b2: Seq<u8>)
    requires
        a1 + b1 == a2 + b2,
        a1.len() == a2.len(),
    ensures
        a1 == a2,
        b1 == b2,
{
    assert(a1 =~= a2) by {
        assert forall|i: int| 0 <= i < a1.len() implies #[trigger] a1[i] == a2[i] by {
            assert(a1[i] == (a1 + b1)[i]);
            assert(a2[i] == (a2 + b2)[i]);
        }
    }
    assert((a1 + b1).len() == a1.len() + b1.len());
    assert((a2 + b2).len() == a2.len() + b2.len());
    assert(b1 =~= b2) by {
        assert forall|i: int| 0 <= i < b1.len() implies #[trigger] b1[i] == b2[i] by {
            assert(b1[i] == (a1 + b1)[a1.len() + i]);
            assert(b2[i] == (a2 + b2)[a2.len() + i]);
        }
    }
}

/// When the slice `[a, b)` of a buffer is one encoded string and the whole
/// rest of the buffer from `a` is that same kind of encoding followed by a
/// tail, the decoded string accounts for exactly the encoding's bytes and
/// the buffer continues with exactly the tail.
pub(crate) proof fn lemma_consume_str(
    buf: Seq<u8>,
    a: int,
    b: int,
    sdec: Seq<char>,
    sw: Seq<char>,
    tail: Seq<u8>,
)
    requires
        0 <= a <= b <= buf.len(),
        buf.len() <= usize::MAX,
        buf.subrange(a, b) == enc_str(sdec),
        buf.subrange(a, buf.len() as int) == enc_str(sw) + tail,
    ensures
        buf.subrange(b, buf.len() as int) == tail,
        encode_utf8(sdec) == encode_utf8(sw),
{
    assert(buf.subrange(a, buf.len() as int) =~= buf.subrange(a, b) + buf.subrange(
        b,
        buf.len() as int,
    ));
    assert(enc_str(sdec).len() == 8 + encode_utf8(sdec).len());
    assert(encode_utf8(sdec).len() == b - a - 8);
    assert((enc_str(sw) + tail).len() == 8 + encode_utf8(sw).len() + tail.len());
    assert(encode_utf8(sw).len() <= buf.len() - a - 8);
    lemma_enc_bytes_prefix(
        encode_utf8(sdec),
        encode_utf8(sw),
        buf.subrange(b, buf.len() as int),
        tail,
    );
}

/// The `u64` analogue of `lemma_consume_str`: the decoded value is the
/// encoded one and the buffer continues with exactly the tail.
pub(crate) proof fn lemma_consume_u64(buf: Seq<u8>, a: int, b: int, vdec: u64, vw: u64, tail: Seq<u8>)
    requires
        0 <= a <= b <= buf.len(),
        buf.subrange(a, b) == u64_le(vdec),
        buf.subrange(a, buf.len() as int) == u64_le(vw) + tail,
    ensures
        buf.subrange(b, buf.len() as int) == tail,
        vdec == vw,
{
    assert(buf.subrange(a, buf.len() as int) =~= buf.subrange(a, b) + buf.subrange(
        b,
        buf.len() as int,
    ));
    lemma_concat_cancel(u64_le(vdec), buf.subrange(b, buf.len() as int), u64_le(vw), tail);
    lemma_u64_le_injective(vdec, vw);
}

pub fn put_u64(out: &mut Vec<u8>, v: u64)
    ensures
        final(out)@ == old(out)@ + u64_le(v),
{
    out.push((v & 0xff) as u8);
    out.push(((v >> 8) & 0xff) as u8);
    out.push(((v >> 16) & 0xff) as u8);
    out.push(((v >> 24) & 0xff) as u8);
    out.push(((v >> 32) & 0xff) as u8);
    out.push(((v >> 40) & 0xff) as u8);
    out.push(((v >> 48) & 0xff) as u8);
    out.push(((v >> 56) & 0xff) as u8);
    proof {
        assert(out@ =~= old(out)@ + u64_le(v));
    }
}

pub fn put_u32(out: &mut Vec<u8>, v: u32)
    ensures
        final(out)@ == old(out)@ + u32_le(v),
{
    out.push((v & 0xff) as u8);
    out.push(((v >> 8) & 0xff) as u8);
    out.push(((v >> 16) & 0xff) as u8);
    out.push(((v >> 24) & 0xff) as u8);
    proof {
        assert(out@ =~= old(out)@ + u32_le(v));
    }
}

/// Reads the eight bytes at `pos` as a little-endian `u64`.
pub fn get_u64(buf: &Vec<u8>, pos: usize) -> (r: Option<(u64, usize)>)
    ensures
        r matches Some(vp) ==> pos + 8 <= buf@.len() && vp.1 == pos + 8 && buf@.subrange(
            pos as int,
            pos as int + 8,
        ) == u64_le(vp.0),
        r is Some <==> pos + 8 <= buf@.len(),
{
    if buf.len() < 8 || pos > buf.len() - 8 {
        return None;
    }
    let b0 = buf[pos];
    let b1 = buf[pos + 1];
    let b2 = buf[pos + 2];
    let b3 = buf[pos + 3];
    let b4 = buf[pos + 4];
    let b5 = buf[pos + 5];
    let b6 = buf[pos + 6];
    let b7 = buf[pos + 7];
    let v: u64 = (b0 as u64) | ((b1 as u64) << 8) | ((b2 as u64) << 16) | ((b3 as u64) << 24) | (
    (b4 as u64) << 32) | ((b5 as u64) << 40) | ((b6 as u64) << 48) | ((b7 as u64) << 56);
    proof {
        assert((v & 0xff) as u8 == b0 && ((v >> 8) & 0xff) as u8 == b1 && ((v >> 16) & 0xff) as u8
            == b2 && ((v >> 24) & 0xff) as u8 == b3 && ((v >> 32) & 0xff) as u8 == b4 && ((v >> 40)
            & 0xff) as u8 == b5 && ((v >> 48) & 0xff) as u8 == b6 && ((v >> 56) & 0xff) as u8 == b7)
            by (bit_vector)
            requires
                v == (b0 as u64) | ((b1 as u64) << 8) | ((b2 as u64) << 16) | ((b3 as u64) << 24)
                    | ((b4 as u64) << 32) | ((b5 as u64) << 40) | ((b6 as u64) << 48) | ((
                b7 as u64) << 56),
        ;
        assert(buf@.subrange(pos as int, pos as int + 8) =~= u64_le(v));
    }
    Some((v, pos + 8))
}

/// Reads the four bytes at `pos` as a little-endian `u32`.
pub fn get_u32(buf: &Vec<u8>, pos: usize) -> (r: Option<(u32, usize)>)
    ensures
        r matches Some(vp) ==> pos + 4 <= buf@.len() && vp.1 == pos + 4 && buf@.subrange(
            pos as int,
            pos as int + 4,
        ) == u32_le(vp.0),
        r is Some <==> pos + 4 <= buf@.len(),
{
    if buf.len() < 4 || pos > buf.len() - 4 {
        return None;
    }
    let b0 = buf[pos];
    let b1 = buf[pos + 1];
    let b2 = buf[pos + 2];
    let b3 = buf[pos + 3];
    let v: u32 = (b0 as u32) | ((b1 as u32) << 8) | ((b2 as u32) << 16) | ((b3 as u32) << 24);
    proof {
        assert((v & 0xff) as u8 == b0 && ((v >> 8) & 0xff) as u8 == b1 && ((v >> 16) & 0xff) as u8
            == b2 && ((v >> 24) & 0xff) as u8 == b3) by (bit_vector)
            requires
                v == (b0 as u32) | ((b1 as u32) << 8) | ((b2 as u32) << 16) | ((b3 as u32) << 24),
        ;
        assert(buf@.subrange(pos as int, pos as int + 4) =~= u32_le(v));
    }
    Some((v, pos + 4))
}

pub fn put_bytes(out: &mut Vec<u8>, b: &[u8])
    ensures
        final(out)@ == old(out)@ + enc_bytes(b@),
{
    put_u64(out, b.len() as u64);
    out.extend_from_slice(b);
    proof {
        assert(out@ =~= old(out)@ + enc_bytes(b@));
    }
}

pub fn put_str(out: &mut Vec<u8>, s: &str)
    ensures
        final(out)@ == old(out)@ + enc_str(s@),
{
    put_bytes(out, s.as_bytes());
}

/// Reads a length-prefixed byte string starting at `pos`; one that heads
/// the rest of the buffer always decodes.
pub fn get_bytes(buf: &Vec<u8>, pos: usize) -> (r: Option<(Vec<u8>, usize)>)
    ensures
        r matches Some(bp) ==> pos <= bp.1 <= buf@.len() && buf@.subrange(pos as int, bp.1 as int)
            == enc_bytes(bp.0@),
        pos <= buf@.len() && (exists|x: Seq<u8>, rest: Seq<u8>|
            buf@.subrange(pos as int, buf@.len() as int) == #[trigger] (enc_bytes(x) + rest))
            ==> r is Some,
{
    let total = buf.len();
    let (n, p) = match get_u64(buf, pos) {
        Some(x) => x,
        None => {
            proof {
                if pos <= buf@.len() && exists|x: Seq<u8>, rest: Seq<u8>|
                    buf@.subrange(pos as int, buf@.len() as int) == #[trigger] (enc_bytes(x)
                        + rest) {
                    let (x, rest) = choose|x: Seq<u8>, rest: Seq<u8>|
                        buf@.subrange(pos as int, buf@.len() as int) == #[trigger] (enc_bytes(x)
                            + rest);
                    assert(buf@.subrange(pos as int, buf@.len() as int).len() == buf@.len() - pos);
                    assert((enc_bytes(x) + rest).len() >= 8);
                    assert(false);
                }
            }
            return None;
        },
    };
    let rem: u64 = (buf.len() - p) as u64;
    if n > rem {
        proof {
            if pos <= buf@.len() && exists|x: Seq<u8>, rest: Seq<u8>|
                buf@.subrange(pos as int, buf@.len() as int) == #[trigger] (enc_bytes(x) + rest) {
                let (x, rest) = choose|x: Seq<u8>, rest: Seq<u8>|
                    buf@.subrange(pos as int, buf@.len() as int) == #[trigger] (enc_bytes(x)
                        + rest);
                let s = buf@.subrange(pos as int, buf@.len() as int);
                assert(buf@.subrange(pos as int, pos as int + 8) =~= u64_le(x.len() as u64)) by {
                    assert forall|i: int|
                        0 <= i < 8 implies #[trigger] buf@.subrange(pos as int, pos as int + 8)[i]
                        == u64_le(x.len() as u64)[i] by {
                        assert(buf@.subrange(pos as int, pos as int + 8)[i] == s[i]);
                        assert(s[i] == (enc_bytes(x) + rest)[i]);
                    }
                }
                lemma_u64_le_injective(n, x.len() as u64);
                assert(s.len() == buf@.len() - pos);
                assert((enc_bytes(x) + rest).len() == 8 + x.len() + rest.len());
                assert(x.len() <= buf@.len() - pos - 8);
                assert(x.len() as u64 == x.len());
                assert(false);
            }
        }
        return None;
    }
    let n_us: usize = n as usize;
    let mut out: Vec<u8> = Vec::new();
    let mut i: usize = 0;
    while i < n_us
        invariant
            i <= n_us,
            p + n_us <= buf@.len(),
            p + n_us <= usize::MAX,
            out@ =~= buf@.subrange(p as int, p as int + i as int),
        decreases n_us - i,
    {
        out.push(buf[p + i]);
        i += 1;
        proof {
            assert(out@ =~= buf@.subrange(p as int, p as int + i as int));
        }
    }
    proof {
        assert(buf@.subrange(pos as int, p as int + n_us as int) =~= u64_le(n) + out@);
        assert(enc_bytes(out@) == u64_le(n) + out@);
    }
    Some((out, p + n_us))
}

/// Relies on `String::from_utf8`: it succeeds exactly on valid UTF-8 input
/// and the resulting string's bytes are the input bytes.
#[verifier::external_body]
pub(crate) fn string_from_utf8(bytes: Vec<u8>) -> (r: Option<String>)
    ensures
        r matches Some(s) ==> encode_utf8(s@) == bytes@,
        valid_utf8(bytes@) ==> r is Some,
{
    String::from_utf8(bytes).ok()
}

/// Reads a length-prefixed UTF-8 string starting at `pos`; one that heads
/// the rest of the buffer always decodes.
pub fn get_string(buf: &Vec<u8>, pos: usize) -> (r: Option<(String, usize)>)
    ensures
        r matches Some(sp) ==> pos <= sp.1 <= buf@.len() && buf@.subrange(pos as int, sp.1 as int)
            == enc_str(sp.0@),
        pos <= buf@.len() && (exists|sx: Seq<char>, rest: Seq<u8>|
            buf@.subrange(pos as int, buf@.len() as int) == #[trigger] (enc_str(sx) + rest))
            ==> r is Some,
{
    let total = buf.len();
    let (bytes, p) = match get_bytes(buf, pos) {
        Some(x) => x,
        None => {
            proof {
                if pos <= buf@.len() && exists|sx: Seq<char>, rest: Seq<u8>|
                    buf@.subrange(pos as int, buf@.len() as int) == #[trigger] (enc_str(sx)
                        + rest) {
                    let (sx, rest) = choose|sx: Seq<char>, rest: Seq<u8>|
                        buf@.subrange(pos as int, buf@.len() as int) == #[trigger] (enc_str(sx)
                            + rest);
                    assert(buf@.subrange(pos as int, buf@.len() as int) == enc_bytes(
                        encode_utf8(sx),
                    ) + rest);
                    assert(false);
                }
            }
            return None;
        },
    };
    let blen = bytes.len();
    let ghost bytes_view = bytes@;
    match string_from_utf8(bytes) {
        Some(s) => {
            proof {
                assert(enc_str(s@) == enc_bytes(bytes_view));
            }
            Some((s, p))
        },
        None => {
            proof {
                if pos <= buf@.len() && exists|sx: Seq<char>, rest: Seq<u8>|
                    buf@.subrange(pos as int, buf@.len() as int) == #[trigger] (enc_str(sx)
                        + rest) {
                    let (sx, rest) = choose|sx: Seq<char>, rest: Seq<u8>|
                        buf@.subrange(pos as int, buf@.len() as int) == #[trigger] (enc_str(sx)
                            + rest);
                    let s = buf@.subrange(pos as int, buf@.len() as int);
                    assert(s =~= buf@.subrange(pos as int, p as int) + buf@.subrange(
                        p as int,
                        buf@.len() as int,
                    ));
                    assert(enc_bytes(bytes_view) + buf@.subrange(p as int, buf@.len() as int)
                        == enc_bytes(encode_utf8(sx)) + rest);
                    assert(s.len() == buf@.len() - pos);
                    assert(encode_utf8(sx).len() <= buf@.len() - pos);
                    lemma_enc_bytes_prefix(
                        bytes_view,
                        encode_utf8(sx),
                        buf@.subrange(p as int, buf@.len() as int),
                        rest,
                    );
                    assert(valid_utf8(bytes_view)) by {
                        vstd::utf8::encode_utf8_valid_utf8(sx);
                    }
                    assert(false);
                }
            }
            None
        },
    }
}

} // verus!
