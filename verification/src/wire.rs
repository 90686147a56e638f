//! Wire-level primitives: base-128 varints, length-prefixed byte and string
//! fields, and the length-prefixed frame that carries one message.
//!
//! Every encoder has a matching spec-level parser, and a lemma shows that
//! parsing an encoding (followed by arbitrary trailing bytes) gives back the
//! encoded value.

use vstd::prelude::*;
use vstd::bytes::*;
use vstd::utf8::*;
use vstd::string::*;
use vstd::slice::slice_subrange;
use vstd::arithmetic::div_mod::{lemma_fundamental_div_mod, lemma_div_is_ordered};

verus! {

/// Largest payload one frame may carry: 16 MiB.
pub const MAX_FRAME_LEN: u32 = 16777216;

// ---------------------------------------------------------------------------
// varint: little-endian base-128, 7 value bits per byte, high bit = "more"
// ---------------------------------------------------------------------------

pub open spec fn spec_varint(v: u64) -> Seq<u8>
    decreases v,
{
    if v < 128 {
        seq![v as u8]
    } else {
        seq![(v % 128 + 128) as u8] + spec_varint(v / 128)
    }
}

/// Spec-level varint parser: value and number of bytes consumed.
pub open spec fn spec_parse_varint(s: Seq<u8>) -> Option<(u64, int)>
    decreases s.len(),
{
    if s.len() == 0 {
        None
    } else if s[0] < 128 {
        Some((s[0] as u64, 1))
    } else {
        match spec_parse_varint(s.drop_first()) {
            None => None,
            Some((v, n)) => {
                if v <= (0xffff_ffff_ffff_ffffu64 - ((s[0] - 128) as u64)) / 128 {
                    Some(((v * 128 + (s[0] - 128)) as u64, n + 1))
                } else {
                    None
                }
            },
        }
    }
}

/// Dropping an encoding's prefix from a concatenation leaves the tail.
pub proof fn lemma_drop_prefix(a: Seq<u8>, t: Seq<u8>)
    ensures
        (a + t).subrange(a.len() as int, (a + t).len() as int) == t,
{
    assert((a + t).subrange(a.len() as int, (a + t).len() as int) =~= t);
}

pub proof fn lemma_varint_roundtrip(v: u64, rest: Seq<u8>)
    ensures
        spec_parse_varint(spec_varint(v) + rest) == Some((v, spec_varint(v).len() as int)),
    decreases v,
{
    let s = spec_varint(v) + rest;
    if v < 128 {
        assert(s[0] == v as u8);
    } else {
        let b = (v % 128 + 128) as u8;
        assert(s[0] == b);
        assert(s.drop_first() =~= spec_varint(v / 128) + rest);
        lemma_varint_roundtrip(v / 128, rest);
        lemma_fundamental_div_mod(v as int, 128);
        assert((b - 128) as u64 == v % 128);
        let m = 0xffff_ffff_ffff_ffffu64;
        let q: int = (v / 128) as int;
        assert(q * 128 <= m - v % 128);
        lemma_div_is_ordered(q * 128, (m - v % 128) as int, 128);
        assert(q * 128 / 128 == q) by (nonlinear_arith);
        assert(v / 128 <= (m - ((b - 128) as u64)) / 128);
        assert((v / 128) * 128 + (b - 128) == v);
    }
}

/// Appends the varint encoding of `v` to `out`.
pub fn enc_varint(out: &mut Vec<u8>, v: u64)
    ensures
        final(out)@ == old(out)@ + spec_varint(v),
    decreases v,
{
    if v < 128 {
        out.push(v as u8);
        assert(final(out)@ =~= old(out)@ + spec_varint(v));
    } else {
        out.push((v % 128 + 128) as u8);
        enc_varint(out, v / 128);
        assert(final(out)@ =~= old(out)@ + spec_varint(v));
    }
}

/// Reads a varint from `buf` starting at `i`; returns the value and the
/// position just past it, or `None` on truncated input or 64-bit overflow.
pub fn dec_varint(buf: &Vec<u8>, i: usize) -> (r: Option<(u64, usize)>)
    requires
        i <= buf.len(),
    ensures
        ({
            let p = spec_parse_varint(buf@.subrange(i as int, buf@.len() as int));
            match r {
                None => p is None,
                Some((v, j)) => i < j <= buf.len() && p == Some((v, j - i)),
            }
        }),
    decreases buf.len() - i,
{
    let ghost tail = buf@.subrange(i as int, buf@.len() as int);
    if i == buf.len() {
        return None;
    }
    let b = buf[i];
    if b < 128 {
        Some((b as u64, i + 1))
    } else {
        assert(tail.drop_first() =~= buf@.subrange(i + 1 as int, buf@.len() as int));
        match dec_varint(buf, i + 1) {
            None => None,
            Some((v, j)) => {
                let limit = (0xffff_ffff_ffff_ffffu64 - ((b - 128) as u64)) / 128;
                if v <= limit {
                    proof {
                        let m = 0xffff_ffff_ffff_ffffu64;
                        let c = (b - 128) as u64;
                        assert(v * 128 <= ((m - c) / 128) * 128 <= m - c) by (nonlinear_arith)
                            requires v <= (m - c) / 128 && c <= m;
                    }
                    Some((v * 128 + ((b - 128) as u64), j))
                } else {
                    None
                }
            },
        }
    }
}

// ---------------------------------------------------------------------------
// length-prefixed byte fields
// ---------------------------------------------------------------------------

pub open spec fn spec_enc_bytes(b: Seq<u8>) -> Seq<u8> {
    spec_varint(b.len() as u64) + b
}

pub open spec fn spec_parse_bytes(s: Seq<u8>) -> Option<(Seq<u8>, int)> {
    match spec_parse_varint(s) {
        None => None,
        Some((n, c)) => {
            if n <= s.len() - c {
                Some((s.subrange(c, c + n), c + n))
            } else {
                None
            }
        },
    }
}

pub proof fn lemma_bytes_roundtrip(b: Seq<u8>, rest: Seq<u8>)
    requires
        b.len() <= 0xffff_ffff_ffff_ffffu64,
    ensures
        spec_parse_bytes(spec_enc_bytes(b) + rest) == Some(
            (b, spec_enc_bytes(b).len() as int),
        ),
{
    let s = spec_enc_bytes(b) + rest;
    assert(s =~= spec_varint(b.len() as u64) + (b + rest));
    lemma_varint_roundtrip(b.len() as u64, b + rest);
    let c = spec_varint(b.len() as u64).len() as int;
    assert(s.subrange(c, c + b.len() as int) =~= b);
}

/// Appends a varint length followed by the raw bytes of `data`.
pub fn enc_bytes(out: &mut Vec<u8>, data: &Vec<u8>)
    ensures
        final(out)@ == old(out)@ + spec_enc_bytes(data@),
{
    enc_varint(out, data.len() as u64);
    let mut k: usize = 0;
    while k < data.len()
        invariant
            k <= data.len(),
            out@ == old(out)@ + spec_varint(data@.len() as u64) + data@.subrange(0, k as int),
        decreases data.len() - k,
    {
        out.push(data[k]);
        assert(out@ =~= old(out)@ + spec_varint(data@.len() as u64) + data@.subrange(
            0,
            k + 1 as int,
        ));
        k = k + 1;
    }
    assert(data@.subrange(0, data@.len() as int) =~= data@);
    assert(final(out)@ =~= old(out)@ + spec_enc_bytes(data@));
}

/// Reads a length-prefixed byte field from `buf` starting at `i`.
pub fn dec_bytes(buf: &Vec<u8>, i: usize) -> (r: Option<(Vec<u8>, usize)>)
    requires
        i <= buf.len(),
    ensures
        ({
            let p = spec_parse_bytes(buf@.subrange(i as int, buf@.len() as int));
            match r {
                None => p is None,
                Some((v, j)) => i < j <= buf.len() && p == Some((v@, j - i)),
            }
        }),
{
    let ghost tail = buf@.subrange(i as int, buf@.len() as int);
    match dec_varint(buf, i) {
        None => None,
        Some((n, c)) => {
            if n <= (buf.len() - c) as u64 {
                let end: usize = c + (n as usize);
                let mut v: Vec<u8> = Vec::new();
                let mut k: usize = c;
                while k < end
                    invariant
                        c <= k <= end <= buf.len(),
                        v@ == buf@.subrange(c as int, k as int),
                    decreases end - k,
                {
                    v.push(buf[k]);
                    assert(v@ =~= buf@.subrange(c as int, k + 1 as int));
                    k = k + 1;
                }
                proof {
                    let pc = c - i;
                    assert(tail.subrange(pc, pc + n) =~= buf@.subrange(c as int, end as int));
                }
                Some((v, end))
            } else {
                None
            }
        },
    }
}

// ---------------------------------------------------------------------------
// strings: length-prefixed UTF-8 bytes
// ---------------------------------------------------------------------------

pub open spec fn spec_enc_str(s: Seq<char>) -> Seq<u8> {
    spec_enc_bytes(encode_utf8(s))
}

pub open spec fn spec_parse_str(s: Seq<u8>) -> Option<(Seq<char>, int)> {
    match spec_parse_bytes(s) {
        None => None,
        Some((b, c)) => {
            if valid_utf8(b) {
                Some((decode_utf8(b), c))
            } else {
                None
            }
        },
    }
}

pub proof fn lemma_str_roundtrip(s: Seq<char>, rest: Seq<u8>)
    requires
        encode_utf8(s).len() <= 0xffff_ffff_ffff_ffffu64,
    ensures
        spec_parse_str(spec_enc_str(s) + rest) == Some((s, spec_enc_str(s).len() as int)),
{
    lemma_bytes_roundtrip(encode_utf8(s), rest);
    encode_utf8_valid_utf8(s);
    encode_utf8_decode_utf8(s);
}

/// Relies on String::from_utf8: it succeeds exactly on valid UTF-8 input and
/// yields the character sequence the bytes encode.
#[verifier::external_body]
fn string_from_utf8(v: Vec<u8>) -> (r: Option<String>)
    ensures
        r is Some <==> valid_utf8(v@),
        r matches Some(s) ==> s@ == decode_utf8(v@),
{
    match std::string::String::from_utf8(v) {
        Ok(s) => Some(s),
        Err(_) => None,
    }
}

/// Appends a string field: varint byte length, then the UTF-8 bytes.
pub fn enc_str(out: &mut Vec<u8>, s: &String)
    ensures
        final(out)@ == old(out)@ + spec_enc_str(s@),
{
    let bv = s.as_str().as_bytes_vec();
    enc_bytes(out, &bv);
}

/// Reads a string field from `buf` starting at `i`.
pub fn dec_str(buf: &Vec<u8>, i: usize) -> (r: Option<(String, usize)>)
    requires
        i <= buf.len(),
    ensures
        ({
            let p = spec_parse_str(buf@.subrange(i as int, buf@.len() as int));
            match r {
                None => p is None,
                Some((v, j)) => i < j <= buf.len() && p == Some((v@, j - i)),
            }
        }),
{
    match dec_bytes(buf, i) {
        None => None,
        Some((v, j)) => {
            match string_from_utf8(v) {
                None => None,
                Some(s) => Some((s, j)),
            }
        },
    }
}

// ---------------------------------------------------------------------------
// bools: one byte, strictly 0 or 1
// ---------------------------------------------------------------------------

pub open spec fn spec_enc_bool(b: bool) -> Seq<u8> {
    seq![if b { 1u8 } else { 0u8 }]
}

pub open spec fn spec_parse_bool(s: Seq<u8>) -> Option<(bool, int)> {
    if s.len() == 0 {
        None
    } else if s[0] == 0 {
        Some((false, 1))
    } else if s[0] == 1 {
        Some((true, 1))
    } else {
        None
    }
}

pub proof fn lemma_bool_roundtrip(b: bool, rest: Seq<u8>)
    ensures
        spec_parse_bool(spec_enc_bool(b) + rest) == Some((b, 1int)),
{
    assert((spec_enc_bool(b) + rest)[0] == spec_enc_bool(b)[0]);
}

pub fn enc_bool(out: &mut Vec<u8>, b: bool)
    ensures
        final(out)@ == old(out)@ + spec_enc_bool(b),
{
    out.push(if b { 1u8 } else { 0u8 });
    assert(final(out)@ =~= old(out)@ + spec_enc_bool(b));
}

pub fn dec_bool(buf: &Vec<u8>, i: usize) -> (r: Option<(bool, usize)>)
    requires
        i <= buf.len(),
    ensures
        ({
            let p = spec_parse_bool(buf@.subrange(i as int, buf@.len() as int));
            match r {
                None => p is None,
                Some((v, j)) => i < j <= buf.len() && p == Some((v, j - i)),
            }
        }),
{
    if i == buf.len() {
        None
    } else if buf[i] == 0 {
        Some((false, i + 1))
    } else if buf[i] == 1 {
        Some((true, i + 1))
    } else {
        None
    }
}

// ---------------------------------------------------------------------------
// u32 fields: a varint whose value must fit in 32 bits
// ---------------------------------------------------------------------------

pub open spec fn spec_enc_u32(v: u32) -> Seq<u8> {
    spec_varint(v as u64)
}

pub open spec fn spec_parse_u32(s: Seq<u8>) -> Option<(u32, int)> {
    match spec_parse_varint(s) {
        None => None,
        Some((v, c)) => {
            if v <= 0xffff_ffffu64 {
                Some((v as u32, c))
            } else {
                None
            }
        },
    }
}

pub proof fn lemma_u32_roundtrip(v: u32, rest: Seq<u8>)
    ensures
        spec_parse_u32(spec_enc_u32(v) + rest) == Some((v, spec_enc_u32(v).len() as int)),
{
    lemma_varint_roundtrip(v as u64, rest);
}

pub fn enc_u32(out: &mut Vec<u8>, v: u32)
    ensures
        final(out)@ == old(out)@ + spec_enc_u32(v),
{
    enc_varint(out, v as u64);
}

pub fn dec_u32(buf: &Vec<u8>, i: usize) -> (r: Option<(u32, usize)>)
    requires
        i <= buf.len(),
    ensures
        ({
            let p = spec_parse_u32(buf@.subrange(i as int, buf@.len() as int));
            match r {
                None => p is None,
                Some((v, j)) => i < j <= buf.len() && p == Some((v, j - i)),
            }
        }),
{
    match dec_varint(buf, i) {
        None => None,
        Some((v, j)) => {
            if v <= 0xffff_ffffu64 {
                Some((v as u32, j))
            } else {
                None
            }
        },
    }
}

// ---------------------------------------------------------------------------
// framing: [4-byte little-endian payload length][payload], length <= 16 MiB
// ---------------------------------------------------------------------------

/// Why framing or deframing a payload was refused.
#[derive(Debug, Clone, Copy, PartialEq, Eq, Structural)]
pub enum FrameError {
    /// The payload (or the announced length) exceeds the 16 MiB cap.
    TooLarge,
    /// The buffer does not yet hold a complete frame.
    Incomplete,
}

pub open spec fn spec_frame(p: Seq<u8>) -> Seq<u8> {
    spec_u32_to_le_bytes(p.len() as u32) + p
}

/// Spec-level frame parser: payload and bytes consumed, or the error.
pub open spec fn spec_deframe(s: Seq<u8>) -> Result<(Seq<u8>, int), FrameError> {
    if s.len() < 4 {
        Err(FrameError::Incomplete)
    } else {
        let n = spec_u32_from_le_bytes(s.subrange(0, 4)) as int;
        if n > MAX_FRAME_LEN {
            Err(FrameError::TooLarge)
        } else if s.len() < 4 + n {
            Err(FrameError::Incomplete)
        } else {
            Ok((s.subrange(4, 4 + n), 4 + n))
        }
    }
}

pub proof fn lemma_frame_roundtrip(p: Seq<u8>, rest: Seq<u8>)
    requires
        p.len() <= MAX_FRAME_LEN,
    ensures
        spec_deframe(spec_frame(p) + rest) == Ok::<_, FrameError>((p, 4 + p.len() as int)),
{
    let s = spec_frame(p) + rest;
    lemma_auto_spec_u32_to_from_le_bytes();
    assert(s.subrange(0, 4) =~= spec_u32_to_le_bytes(p.len() as u32));
    assert(s.subrange(4, 4 + p.len() as int) =~= p);
}

/// Length-prefixed message framing: on the wire each message is carried as a
/// 4-byte little-endian payload length followed by the payload itself.
pub struct MessageFramer;

impl MessageFramer {
    /// Wraps a payload in a frame. Refused when the payload exceeds 16 MiB.
    pub fn frame_message(payload: &Vec<u8>) -> (r: Result<Vec<u8>, FrameError>)
        ensures
            payload@.len() <= MAX_FRAME_LEN ==> (r matches Ok(f) && f@ == spec_frame(payload@)),
            payload@.len() > MAX_FRAME_LEN ==> r == Err::<Vec<u8>, FrameError>(
                FrameError::TooLarge,
            ),
    {
        if payload.len() > MAX_FRAME_LEN as usize {
            return Err(FrameError::TooLarge);
        }
        let mut out = u32_to_le_bytes(payload.len() as u32);
        let mut k: usize = 0;
        while k < payload.len()
            invariant
                k <= payload.len(),
                payload@.len() <= MAX_FRAME_LEN,
                out@ == spec_u32_to_le_bytes(payload@.len() as u32) + payload@.subrange(
                    0,
                    k as int,
                ),
            decreases payload.len() - k,
        {
            out.push(payload[k]);
            assert(out@ =~= spec_u32_to_le_bytes(payload@.len() as u32) + payload@.subrange(
                0,
                k + 1 as int,
            ));
            k = k + 1;
        }
        assert(payload@.subrange(0, payload@.len() as int) =~= payload@);
        Ok(out)
    }

    /// Extracts the first complete frame from `buf`, returning the payload and
    /// the position just past the frame. An announced length over 16 MiB is
    /// fatal; a short buffer only means more bytes are needed.
    pub fn deframe_message(buf: &Vec<u8>) -> (r: Result<(Vec<u8>, usize), FrameError>)
        ensures
            ({
                let p = spec_deframe(buf@);
                match r {
                    Ok((payload, j)) => j <= buf.len() && p == Ok::<_, FrameError>(
                        (payload@, j as int),
                    ),
                    Err(e) => p == Err::<(Seq<u8>, int), _>(e),
                }
            }),
    {
        if buf.len() < 4 {
            return Err(FrameError::Incomplete);
        }
        let header = slice_subrange(buf.as_slice(), 0, 4);
        let n = u32_from_le_bytes(header);
        proof {
            assert(buf@.subrange(0, 4) == header@);
        }
        if n > MAX_FRAME_LEN {
            return Err(FrameError::TooLarge);
        }
        if buf.len() < 4 + n as usize {
            return Err(FrameError::Incomplete);
        }
        let end: usize = 4 + n as usize;
        let mut payload: Vec<u8> = Vec::new();
        let mut k: usize = 4;
        while k < end
            invariant
                4 <= k <= end <= buf.len(),
                payload@ == buf@.subrange(4, k as int),
            decreases end - k,
        {
            payload.push(buf[k]);
            assert(payload@ =~= buf@.subrange(4, k + 1 as int));
            k = k + 1;
        }
        Ok((payload, end))
    }
}

} // verus!
