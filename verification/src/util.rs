//! Small shared helpers: decimal and hexadecimal rendering of integers, the
//! human-readable byte and duration formats, and path validation.

use vstd::prelude::*;
use vstd::string::StringExecFns;
use vstd::string::StringSliceAdditionalSpecFns;
use crate::error::{CopydError, CopydResult};

verus! {

pub open spec fn spec_dec_digit(d: int) -> char {
    if d == 0 {
        '0'
    } else if d == 1 {
        '1'
    } else if d == 2 {
        '2'
    } else if d == 3 {
        '3'
    } else if d == 4 {
        '4'
    } else if d == 5 {
        '5'
    } else if d == 6 {
        '6'
    } else if d == 7 {
        '7'
    } else if d == 8 {
        '8'
    } else {
        '9'
    }
}

/// The usual base-10 rendering of `n`, without leading zeros.
pub open spec fn spec_dec(n: int) -> Seq<char>
    decreases n,
{
    if n <= 9 {
        seq![spec_dec_digit(if n < 0 { 0 } else { n })]
    } else {
        spec_dec(n / 10) + seq![spec_dec_digit(n % 10)]
    }
}

fn dec_digit_str(d: u64) -> (r: &'static str)
    requires
        d <= 9,
    ensures
        r@ == seq![spec_dec_digit(d as int)],
{
    proof {
        reveal_strlit("0");
        reveal_strlit("1");
        reveal_strlit("2");
        reveal_strlit("3");
        reveal_strlit("4");
        reveal_strlit("5");
        reveal_strlit("6");
        reveal_strlit("7");
        reveal_strlit("8");
        reveal_strlit("9");
    }
    match d {
        0 => "0",
        1 => "1",
        2 => "2",
        3 => "3",
        4 => "4",
        5 => "5",
        6 => "6",
        7 => "7",
        8 => "8",
        _ => "9",
    }
}

/// Renders `n` in decimal.
pub fn u64_to_dec(n: u64) -> (r: String)
    ensures
        r@ == spec_dec(n as int),
    decreases n,
{
    if n <= 9 {
        dec_digit_str(n).to_owned()
    } else {
        let prefix = u64_to_dec(n / 10);
        let r = prefix.concat(dec_digit_str(n % 10));
        assert(r@ =~= spec_dec(n as int));
        r
    }
}

pub open spec fn spec_hex_digit(d: int) -> char {
    if d <= 9 {
        spec_dec_digit(d)
    } else if d == 10 {
        'a'
    } else if d == 11 {
        'b'
    } else if d == 12 {
        'c'
    } else if d == 13 {
        'd'
    } else if d == 14 {
        'e'
    } else {
        'f'
    }
}

/// The usual base-16 rendering of `n`, lower case, without leading zeros.
pub open spec fn spec_hex(n: int) -> Seq<char>
    decreases n,
{
    if n <= 15 {
        seq![spec_hex_digit(if n < 0 { 0 } else { n })]
    } else {
        spec_hex(n / 16) + seq![spec_hex_digit(n % 16)]
    }
}

fn hex_digit_str(d: u64) -> (r: &'static str)
    requires
        d <= 15,
    ensures
        r@ == seq![spec_hex_digit(d as int)],
{
    proof {
        reveal_strlit("a");
        reveal_strlit("b");
        reveal_strlit("c");
        reveal_strlit("d");
        reveal_strlit("e");
        reveal_strlit("f");
    }
    if d <= 9 {
        dec_digit_str(d)
    } else {
        match d {
            10 => "a",
            11 => "b",
            12 => "c",
            13 => "d",
            14 => "e",
            _ => "f",
        }
    }
}

/// Renders `n` in lower-case hexadecimal.
pub fn u64_to_hex(n: u64) -> (r: String)
    ensures
        r@ == spec_hex(n as int),
    decreases n,
{
    if n <= 15 {
        hex_digit_str(n).to_owned()
    } else {
        let prefix = u64_to_hex(n / 16);
        let r = prefix.concat(hex_digit_str(n % 16));
        assert(r@ =~= spec_hex(n as int));
        r
    }
}

// ---------------------------------------------------------------------------
// human-readable sizes and durations
// ---------------------------------------------------------------------------

/// Unit index for a byte count: 0 = B, 1 = KB, ... 5 = PB; the largest unit
/// not exceeding the value, capped at PB.
pub open spec fn spec_byte_unit(bytes: u64) -> int {
    if bytes < 1024 {
        0
    } else if bytes < 0x100000 {
        1
    } else if bytes < 0x40000000 {
        2
    } else if bytes < 0x10000000000 {
        3
    } else if bytes < 0x4000000000000 {
        4
    } else {
        5
    }
}

pub open spec fn spec_unit_suffix(unit: int) -> Seq<char> {
    if unit == 0 {
        " B"@
    } else if unit == 1 {
        " KB"@
    } else if unit == 2 {
        " MB"@
    } else if unit == 3 {
        " GB"@
    } else if unit == 4 {
        " TB"@
    } else {
        " PB"@
    }
}

/// The scaled value in hundredths, rounding half up.
pub open spec fn spec_byte_hundredths(bytes: u64, unit: int) -> int {
    ((bytes * 200) / pow1024(unit) + 1) / 2
}

pub open spec fn pow1024(k: int) -> int
    decreases k,
{
    if k <= 0 {
        1
    } else {
        1024 * pow1024(k - 1)
    }
}

pub open spec fn spec_format_bytes(bytes: u64) -> Seq<char> {
    let unit = spec_byte_unit(bytes);
    if unit == 0 {
        spec_dec(bytes as int) + " B"@
    } else {
        let h = spec_byte_hundredths(bytes, unit);
        let frac = h % 100;
        spec_dec(h / 100) + "."@ + (if frac <= 9 {
            "0"@ + spec_dec(frac)
        } else {
            spec_dec(frac)
        }) + spec_unit_suffix(unit)
    }
}

/// Formats a byte count with the largest fitting unit, two decimals for
/// scaled units ("512 B", "1.50 KB").
pub fn format_bytes(bytes: u64) -> (r: String)
    ensures
        r@ == spec_format_bytes(bytes),
{
    proof {
        reveal_strlit(" B");
        reveal_strlit(" KB");
        reveal_strlit(" MB");
        reveal_strlit(" GB");
        reveal_strlit(" TB");
        reveal_strlit(" PB");
        reveal_strlit(".");
        reveal_strlit("0");
    }
    let (unit, div): (u64, u64) = if bytes < 1024 {
        (0, 1)
    } else if bytes < 0x100000 {
        (1, 1024)
    } else if bytes < 0x40000000 {
        (2, 0x100000)
    } else if bytes < 0x10000000000 {
        (3, 0x40000000)
    } else if bytes < 0x4000000000000 {
        (4, 0x10000000000)
    } else {
        (5, 0x4000000000000)
    };
    proof {
        assert(pow1024(0) == 1);
        assert(pow1024(1) == 1024);
        assert(pow1024(2) == 0x100000);
        assert(pow1024(3) == 0x40000000);
        assert(pow1024(4) == 0x10000000000);
        assert(pow1024(5) == 0x4000000000000);
    }
    if unit == 0 {
        let r = u64_to_dec(bytes).concat(" B");
        assert(r@ =~= spec_format_bytes(bytes));
        r
    } else {
        proof {
            let b = bytes as int;
            let d = div as int;
            assert(b < 16384 * d);
            assert(b * 200 / d < 16384 * 200) by (nonlinear_arith)
                requires
                    b < 16384 * d,
                    d >= 1,
                    b >= 0,
            ;
        }
        let t: u128 = (bytes as u128) * 200 / (div as u128);
        let h: u64 = ((t + 1) / 2) as u64;
        let frac: u64 = h % 100;
        let whole = u64_to_dec(h / 100);
        let fr = if frac <= 9 {
            let z = "0".to_owned().concat(u64_to_dec(frac).as_str());
            z
        } else {
            u64_to_dec(frac)
        };
        let suffix = if unit == 1 {
            " KB"
        } else if unit == 2 {
            " MB"
        } else if unit == 3 {
            " GB"
        } else if unit == 4 {
            " TB"
        } else {
            " PB"
        };
        let r = whole.concat(".").concat(fr.as_str()).concat(suffix);
        assert(r@ =~= spec_format_bytes(bytes));
        r
    }
}

pub open spec fn spec_format_duration(seconds: int) -> Seq<char> {
    if seconds < 60 {
        spec_dec(seconds) + "s"@
    } else if seconds < 3600 {
        spec_dec(seconds / 60) + "m "@ + spec_dec(seconds % 60) + "s"@
    } else {
        spec_dec(seconds / 3600) + "h "@ + spec_dec((seconds % 3600) / 60) + "m "@ + spec_dec(
            seconds % 60,
        ) + "s"@
    }
}

/// Formats a non-negative duration as seconds, minutes and seconds, or
/// hours, minutes and seconds ("30s", "1m 30s", "1h 1m 1s").
pub fn format_duration(seconds: i64) -> (r: String)
    requires
        seconds >= 0,
    ensures
        r@ == spec_format_duration(seconds as int),
{
    proof {
        reveal_strlit("s");
        reveal_strlit("m ");
        reveal_strlit("h ");
    }
    let s = seconds as u64;
    if s < 60 {
        let r = u64_to_dec(s).concat("s");
        assert(r@ =~= spec_format_duration(seconds as int));
        r
    } else if s < 3600 {
        let r = u64_to_dec(s / 60).concat("m ").concat(u64_to_dec(s % 60).as_str()).concat("s");
        assert(r@ =~= spec_format_duration(seconds as int));
        r
    } else {
        let r = u64_to_dec(s / 3600).concat("h ").concat(
            u64_to_dec((s % 3600) / 60).as_str(),
        ).concat("m ").concat(u64_to_dec(s % 60).as_str()).concat("s");
        assert(r@ =~= spec_format_duration(seconds as int));
        r
    }
}

/// Accepts a path only when the caller has established that it exists on
/// disk; the boolean carries that observation.
pub fn validate_path(path: &str, path_exists: bool) -> (r: CopydResult<()>)
    ensures
        r is Ok <==> path_exists,
        r matches Err(e) && (e matches CopydError::FileNotFound { path: p } && p@ == path@)
            || r is Ok,
{
    if path_exists {
        Ok(())
    } else {
        Err(CopydError::FileNotFound { path: path.to_owned() })
    }
}

} // verus!

verus! {

/// Compares two strings for equality of their characters.
pub fn str_eq(a: &str, b: &str) -> (r: bool)
    ensures
        r == (a@ == b@),
{
    let ab = a.as_bytes();
    let bb = b.as_bytes();
    proof {
        vstd::utf8::encode_utf8_decode_utf8(a@);
        vstd::utf8::encode_utf8_decode_utf8(b@);
    }
    if ab.len() != bb.len() {
        return false;
    }
    let n = ab.len();
    let mut i: usize = 0;
    while i < n
        invariant
            i <= n,
            n == ab@.len() == bb@.len(),
            ab@ == a.spec_bytes(),
            bb@ == b.spec_bytes(),
            forall|k: int| 0 <= k < i ==> ab@[k] == bb@[k],
        decreases n - i,
    {
        if ab[i] != bb[i] {
            assert(ab@[i as int] != bb@[i as int]);
            assert(a@ != b@);
            return false;
        }
        i = i + 1;
    }
    assert(ab@ =~= bb@);
    proof {
        assert(vstd::utf8::decode_utf8(a.spec_bytes()) == vstd::utf8::decode_utf8(b.spec_bytes()));
    }
    true
}

} // verus!
