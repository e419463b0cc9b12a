use vstd::prelude::*;
use crate::numbers::{dec_digits, padded, digits_string, padded_string};

verus! {

/// `n` scaled by 100 against `unit` and rounded to the nearest integer,
/// half away from zero: the two-decimal rendering of `n / unit`.
pub open spec fn scaled_centi(n: nat, unit: nat) -> nat
    recommends
        unit >= 1,
{
    ((n * 200 + unit) / (2 * unit)) as nat
}

/// `n` divided by `unit` and rounded to the nearest integer, half up.
pub open spec fn scaled_whole(n: nat, unit: nat) -> nat
    recommends
        unit >= 1,
{
    ((n * 2 + unit) / (2 * unit)) as nat
}

/// A quantity with two decimals: the integer part, a dot, and exactly two
/// fraction digits.
pub open spec fn centi_text(v: nat) -> Seq<char> {
    dec_digits(v / 100) + seq!['.'] + padded(v % 100, 2)
}

/// The rendering `format_bytes` returns: the value scaled to gibibytes,
/// mebibytes or kibibytes with two decimals and the matching per-second
/// unit, or the raw byte count below one kibibyte.
pub open spec fn spec_format_bytes(bytes: nat) -> Seq<char> {
    if bytes >= 0x40000000 {
        centi_text(scaled_centi(bytes, 0x40000000)) + seq![' ', 'G', 'B', '/', 's']
    } else if bytes >= 0x100000 {
        centi_text(scaled_centi(bytes, 0x100000)) + seq![' ', 'M', 'B', '/', 's']
    } else if bytes >= 0x400 {
        centi_text(scaled_centi(bytes, 0x400)) + seq![' ', 'k', 'B', '/', 's']
    } else {
        dec_digits(bytes) + seq![' ', 'B', '/', 's']
    }
}

/// The rendering `format_memory` returns: the value rounded to whole
/// gibibytes, mebibytes or kibibytes, or the raw byte count below one
/// kibibyte.
pub open spec fn spec_format_memory(bytes: nat) -> Seq<char> {
    if bytes >= 0x40000000 {
        dec_digits(scaled_whole(bytes, 0x40000000)) + seq![' ', 'G', 'B']
    } else if bytes >= 0x100000 {
        dec_digits(scaled_whole(bytes, 0x100000)) + seq![' ', 'M', 'B']
    } else if bytes >= 0x400 {
        dec_digits(scaled_whole(bytes, 0x400)) + seq![' ', 'k', 'B']
    } else {
        dec_digits(bytes) + seq![' ', 'B']
    }
}

/// Renders a two-decimal quantity, as `centi_text` describes.
fn centi_string(v: u128) -> (r: String)
    ensures
        r@ == centi_text(v as nat),
{
    let mut out = digits_string(v / 100);
    out.append(".");
    let fs = padded_string((v % 100) as u64, 2);
    out.append(fs.as_str());
    proof {
        reveal_strlit(".");
        assert("."@ =~= seq!['.']);
        assert(out@ =~= centi_text(v as nat));
    }
    out
}

/// Computes the rounded centi-scaled value.
fn centi_of(bytes: u64, unit: u64) -> (r: u128)
    requires
        unit >= 1,
    ensures
        r == scaled_centi(bytes as nat, unit as nat),
{
    (bytes as u128 * 200 + unit as u128) / (2 * unit as u128)
}

/// Formats a byte rate for people, as `spec_format_bytes` describes.
pub fn format_bytes(bytes: u64) -> (r: String)
    ensures
        r@ == spec_format_bytes(bytes as nat),
{
    proof {
        reveal_strlit(" GB/s");
        reveal_strlit(" MB/s");
        reveal_strlit(" kB/s");
        reveal_strlit(" B/s");
        assert(" GB/s"@ =~= seq![' ', 'G', 'B', '/', 's']);
        assert(" MB/s"@ =~= seq![' ', 'M', 'B', '/', 's']);
        assert(" kB/s"@ =~= seq![' ', 'k', 'B', '/', 's']);
        assert(" B/s"@ =~= seq![' ', 'B', '/', 's']);
    }
    if bytes >= 0x40000000 {
        let mut out = centi_string(centi_of(bytes, 0x40000000));
        out.append(" GB/s");
        proof {
            assert(out@ =~= spec_format_bytes(bytes as nat));
        }
        out
    } else if bytes >= 0x100000 {
        let mut out = centi_string(centi_of(bytes, 0x100000));
        out.append(" MB/s");
        proof {
            assert(out@ =~= spec_format_bytes(bytes as nat));
        }
        out
    } else if bytes >= 0x400 {
        let mut out = centi_string(centi_of(bytes, 0x400));
        out.append(" kB/s");
        proof {
            assert(out@ =~= spec_format_bytes(bytes as nat));
        }
        out
    } else {
        let mut out = digits_string(bytes as u128);
        out.append(" B/s");
        proof {
            assert(out@ =~= spec_format_bytes(bytes as nat));
        }
        out
    }
}

/// Formats a memory size for people, as `spec_format_memory` describes.
pub fn format_memory(bytes: u64) -> (r: String)
    ensures
        r@ == spec_format_memory(bytes as nat),
{
    proof {
        reveal_strlit(" GB");
        reveal_strlit(" MB");
        reveal_strlit(" kB");
        reveal_strlit(" B");
        assert(" GB"@ =~= seq![' ', 'G', 'B']);
        assert(" MB"@ =~= seq![' ', 'M', 'B']);
        assert(" kB"@ =~= seq![' ', 'k', 'B']);
        assert(" B"@ =~= seq![' ', 'B']);
    }
    if bytes >= 0x40000000 {
        let v = (bytes as u128 * 2 + 0x40000000) / (2 * 0x40000000);
        let mut out = digits_string(v);
        out.append(" GB");
        proof {
            assert(out@ =~= spec_format_memory(bytes as nat));
        }
        out
    } else if bytes >= 0x100000 {
        let v = (bytes as u128 * 2 + 0x100000) / (2 * 0x100000);
        let mut out = digits_string(v);
        out.append(" MB");
        proof {
            assert(out@ =~= spec_format_memory(bytes as nat));
        }
        out
    } else if bytes >= 0x400 {
        let v = (bytes as u128 * 2 + 0x400) / (2 * 0x400);
        let mut out = digits_string(v);
        out.append(" kB");
        proof {
            assert(out@ =~= spec_format_memory(bytes as nat));
        }
        out
    } else {
        let mut out = digits_string(bytes as u128);
        out.append(" B");
        proof {
            assert(out@ =~= spec_format_memory(bytes as nat));
        }
        out
    }
}

} // verus!
