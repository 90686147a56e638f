//! Post-copy verification: size, MD5 and SHA-256 comparison of two files'
//! contents, and checksum rendering. Every mode is deterministic and
//! symmetric in its two arguments.

use vstd::prelude::*;
use crate::protocol::VerifyMode;
use crate::util::{spec_dec, spec_hex_digit, u64_to_dec};
use vstd::string::StringExecFns;

verus! {

/// What sha2's SHA-256 returns for the given bytes: a digest that depends on
/// the bytes alone.
pub uninterp spec fn sha256_of(data: Seq<u8>) -> Seq<u8>;

/// What the md5 crate returns for the given bytes: a digest that depends on
/// the bytes alone.
pub uninterp spec fn md5_of(data: Seq<u8>) -> Seq<u8>;

/// Relies on sha2::Sha256 through Digest::digest: the digest is a function
/// of the input bytes alone, 32 bytes long.
#[verifier::external_body]
fn sha256_digest(data: &[u8]) -> (r: Vec<u8>)
    ensures
        r@ == sha256_of(data@),
        r@.len() == 32,
{
    <sha2::Sha256 as sha2::Digest>::digest(data).to_vec()
}

/// Relies on md5::compute: the digest is a function of the input bytes
/// alone, 16 bytes long.
#[verifier::external_body]
fn md5_digest(data: &[u8]) -> (r: Vec<u8>)
    ensures
        r@ == md5_of(data@),
        r@.len() == 16,
{
    md5::compute(data).0.to_vec()
}

/// Two lower-case hex digits per byte, in order.
pub open spec fn spec_hex_bytes(data: Seq<u8>) -> Seq<char>
    decreases data.len(),
{
    if data.len() == 0 {
        Seq::empty()
    } else {
        spec_hex_bytes(data.drop_last()) + seq![
            spec_hex_digit(data.last() as int / 16),
            spec_hex_digit(data.last() as int % 16),
        ]
    }
}

/// Renders a byte string as lower-case hex, two digits per byte.
pub fn hex_of_bytes(data: &Vec<u8>) -> (r: String)
    ensures
        r@ == spec_hex_bytes(data@),
{
    let mut out = String::new();
    let mut i: usize = 0;
    proof {
        assert(data@.subrange(0, 0) =~= Seq::<u8>::empty());
    }
    while i < data.len()
        invariant
            i <= data@.len(),
            out@ == spec_hex_bytes(data@.subrange(0, i as int)),
        decreases data@.len() - i,
    {
        let ghost pre = data@.subrange(0, i as int);
        let b = data[i];
        out.append(hex_digit_pair(b).as_str());
        proof {
            assert(data@.subrange(0, i + 1 as int).drop_last() =~= pre);
            assert(data@.subrange(0, i + 1 as int).last() == data@[i as int]);
            assert(out@ =~= spec_hex_bytes(data@.subrange(0, i + 1 as int)));
        }
        i = i + 1;
    }
    assert(data@.subrange(0, data@.len() as int) =~= data@);
    out
}

fn hex_digit_pair(b: u8) -> (r: String)
    ensures
        r@ == seq![spec_hex_digit(b as int / 16), spec_hex_digit(b as int % 16)],
{
    let hi = hex_digit_char(b / 16);
    let lo = hex_digit_char(b % 16);
    let r = hi.to_owned().concat(lo);
    assert(r@ =~= seq![spec_hex_digit(b as int / 16), spec_hex_digit(b as int % 16)]);
    r
}

fn hex_digit_char(d: u8) -> (r: &'static str)
    requires
        d <= 15,
    ensures
        r@ == seq![spec_hex_digit(d as int)],
{
    proof {
        reveal_strlit("0");
        reveal_strlit("1");
        reveal_strlit("2");
        reveal_strlit("3");
        reveal_strlit("4");
        reveal_strlit("5");
        reveal_strlit("6");
        reveal_strlit("7");
        reveal_strlit("8");
        reveal_strlit("9");
        reveal_strlit("a");
        reveal_strlit("b");
        reveal_strlit("c");
        reveal_strlit("d");
        reveal_strlit("e");
        reveal_strlit("f");
    }
    match d {
        0 => "0",
        1 => "1",
        2 => "2",
        3 => "3",
        4 => "4",
        5 => "5",
        6 => "6",
        7 => "7",
        8 => "8",
        9 => "9",
        10 => "a",
        11 => "b",
        12 => "c",
        13 => "d",
        14 => "e",
        _ => "f",
    }
}

/// What verification of two byte strings yields under each mode.
pub open spec fn spec_verify(a: Seq<u8>, b: Seq<u8>, mode: VerifyMode) -> bool {
    match mode {
        VerifyMode::Disabled => true,
        VerifyMode::Size => a.len() == b.len(),
        VerifyMode::Md5 => md5_of(a) == md5_of(b),
        VerifyMode::Sha256 => sha256_of(a) == sha256_of(b),
    }
}

/// Verification soundness: when SHA-256 verification passes, the two
/// contents have the same SHA-256 digest.
pub proof fn lemma_verification_sound(a: Seq<u8>, b: Seq<u8>)
    ensures
        spec_verify(a, b, VerifyMode::Sha256) ==> sha256_of(a) == sha256_of(b),
{
}

/// Every verification mode is symmetric in its two arguments.
pub proof fn lemma_verify_symmetric(a: Seq<u8>, b: Seq<u8>, mode: VerifyMode)
    ensures
        spec_verify(a, b, mode) == spec_verify(b, a, mode),
{
}

/// Compares two files' contents under a named mode.
pub struct FileVerifier;

impl FileVerifier {
    /// Verifies one copied file against its source, both given as their full
    /// contents: sizes must match under `Size`, digests under `Md5` and
    /// `Sha256`; `Disabled` always passes.
    pub fn verify_copy(source_data: &Vec<u8>, dest_data: &Vec<u8>, mode: VerifyMode) -> (r: bool)
        ensures
            r == spec_verify(source_data@, dest_data@, mode),
    {
        match mode {
            VerifyMode::Disabled => true,
            VerifyMode::Size => source_data.len() == dest_data.len(),
            VerifyMode::Md5 => {
                let a = md5_digest(source_data.as_slice());
                let b = md5_digest(dest_data.as_slice());
                bytes_eq(&a, &b)
            },
            VerifyMode::Sha256 => {
                let a = sha256_digest(source_data.as_slice());
                let b = sha256_digest(dest_data.as_slice());
                bytes_eq(&a, &b)
            },
        }
    }

    /// The checksum string of contents under a mode: the hex digest for
    /// `Md5` and `Sha256`, the decimal length for `Size`, empty otherwise.
    pub fn calculate_checksum(data: &Vec<u8>, mode: VerifyMode) -> (r: String)
        ensures
            mode == VerifyMode::Md5 ==> r@ == spec_hex_bytes(md5_of(data@)),
            mode == VerifyMode::Sha256 ==> r@ == spec_hex_bytes(sha256_of(data@)),
            mode == VerifyMode::Size ==> r@ == spec_dec(data@.len() as int),
            mode == VerifyMode::Disabled ==> r@.len() == 0,
    {
        match mode {
            VerifyMode::Md5 => hex_of_bytes(&md5_digest(data.as_slice())),
            VerifyMode::Sha256 => hex_of_bytes(&sha256_digest(data.as_slice())),
            VerifyMode::Size => u64_to_dec(data.len() as u64),
            VerifyMode::Disabled => String::new(),
        }
    }
}

/// Compares two byte strings for equality.
pub fn bytes_eq(a: &Vec<u8>, b: &Vec<u8>) -> (r: bool)
    ensures
        r == (a@ == b@),
{
    if a.len() != b.len() {
        return false;
    }
    let mut i: usize = 0;
    while i < a.len()
        invariant
            i <= a@.len(),
            a@.len() == b@.len(),
            forall|k: int| 0 <= k < i ==> a@[k] == b@[k],
        decreases a@.len() - i,
    {
        if a[i] != b[i] {
            return false;
        }
        i = i + 1;
    }
    assert(a@ =~= b@);
    true
}

} // verus!
