//! Rendering byte counts for the preview and the result lines: the
//! largest unit no bigger than the value, at a 1024 scale, with no
//! decimal places for plain bytes and two rounded decimal places for
//! every larger unit.

use vstd::prelude::*;
use vstd::string::StringExecFns;

verus! {

/// The decimal digit character for `d` (meaningful for 0 through 9).
pub open spec fn spec_digit_char(d: int) -> char {
    if d == 0 {
        '0'
    } else if d == 1 {
        '1'
    } else if d == 2 {
        '2'
    } else if d == 3 {
        '3'
    } else if d == 4 {
        '4'
    } else if d == 5 {
        '5'
    } else if d == 6 {
        '6'
    } else if d == 7 {
        '7'
    } else if d == 8 {
        '8'
    } else {
        '9'
    }
}

/// The decimal rendering of a nonnegative integer, most significant
/// digit first, with no leading zeroes (a lone zero for 0).
pub open spec fn spec_decimal(n: int) -> Seq<char>
    decreases n,
{
    if n < 10 {
        seq![spec_digit_char(n)]
    } else {
        spec_decimal(n / 10).push(spec_digit_char(n % 10))
    }
}

fn digit_str(d: u64) -> (r: &'static str)
    requires
        d < 10,
    ensures
        r@ == seq![spec_digit_char(d as int)],
{
    proof {
        reveal_strlit("0");
        reveal_strlit("1");
        reveal_strlit("2");
        reveal_strlit("3");
        reveal_strlit("4");
        reveal_strlit("5");
        reveal_strlit("6");
        reveal_strlit("7");
        reveal_strlit("8");
        reveal_strlit("9");
    }
    if d == 0 {
        "0"
    } else if d == 1 {
        "1"
    } else if d == 2 {
        "2"
    } else if d == 3 {
        "3"
    } else if d == 4 {
        "4"
    } else if d == 5 {
        "5"
    } else if d == 6 {
        "6"
    } else if d == 7 {
        "7"
    } else if d == 8 {
        "8"
    } else {
        "9"
    }
}

/// Appends the decimal rendering of `n` to `s`.
fn push_decimal(s: &mut String, n: u64)
    ensures
        final(s)@ == old(s)@ + spec_decimal(n as int),
    decreases n,
{
    if n >= 10 {
        push_decimal(s, n / 10);
        s.append(digit_str(n % 10));
        proof {
            assert(final(s)@ =~= old(s)@ + spec_decimal(n as int));
        }
    } else {
        s.append(digit_str(n));
        proof {
            assert(final(s)@ =~= old(s)@ + spec_decimal(n as int));
        }
    }
}

/// The fractional part of `bytes / p` in hundredths, rounded to the
/// nearest with ties to even (as the standard float formatting rounds);
/// 100 means the rounding carried into the whole part.
pub open spec fn spec_frac_rounded(bytes: u64, p: int) -> int {
    let q = (bytes as int % p) * 100 / p;
    let t = (bytes as int % p) * 100 % p;
    if 2 * t > p {
        q + 1
    } else if 2 * t < p {
        q
    } else if q % 2 == 1 {
        q + 1
    } else {
        q
    }
}

/// The whole part and two rounded decimal places of `bytes / p`,
/// rendered around a decimal point; a fraction that rounds to a full
/// hundred carries into the whole part.
pub open spec fn spec_scaled_part(bytes: u64, p: int) -> Seq<char> {
    let f = spec_frac_rounded(bytes, p);
    let w = bytes as int / p + (if f == 100 { 1int } else { 0int });
    let fr = if f == 100 { 0int } else { f };
    spec_decimal(w) + "."@ + seq![spec_digit_char(fr / 10), spec_digit_char(fr % 10)]
}

/// The formatted rendering of a byte count: the value scaled into the
/// largest unit of {B, KB, MB, GB, TB} that does not exceed it, with two
/// rounded decimal places for every unit above plain bytes.
pub open spec fn spec_format_size(bytes: u64) -> Seq<char> {
    if bytes < 1024 {
        spec_decimal(bytes as int) + " B"@
    } else if bytes < 1048576 {
        spec_scaled_part(bytes, 1024) + " KB"@
    } else if bytes < 1073741824 {
        spec_scaled_part(bytes, 1048576) + " MB"@
    } else if bytes < 1099511627776 {
        spec_scaled_part(bytes, 1073741824) + " GB"@
    } else {
        spec_scaled_part(bytes, 1099511627776) + " TB"@
    }
}

fn push_scaled(s: &mut String, bytes: u64, p: u64)
    requires
        1024 <= p <= 1099511627776,
    ensures
        final(s)@ == old(s)@ + spec_scaled_part(bytes, p as int),
{
    let whole = bytes / p;
    let rem = bytes % p;
    assert(rem * 100 <= (p - 1) * 100) by (nonlinear_arith)
        requires
            rem < p,
    ;
    let scaled = rem * 100;
    let q = scaled / p;
    let t = scaled % p;
    assert((rem as int * 100) / (p as int) < 100) by (nonlinear_arith)
        requires
            rem < p && p as int >= 1024,
    ;
    assert(whole < u64::MAX) by (nonlinear_arith)
        requires
            whole == bytes / p && p >= 1024,
    ;
    let f = if 2 * t > p {
        q + 1
    } else if 2 * t < p {
        q
    } else if q % 2 == 1 {
        q + 1
    } else {
        q
    };
    let (w, fr) = if f == 100 {
        (whole + 1, 0u64)
    } else {
        (whole, f)
    };
    push_decimal(s, w);
    s.append(".");
    s.append(digit_str(fr / 10));
    s.append(digit_str(fr % 10));
    proof {
        assert(final(s)@ =~= old(s)@ + spec_scaled_part(bytes, p as int));
    }
}

/// Renders a byte count exactly as `spec_format_size` states.
pub fn format_size(bytes: u64) -> (r: String)
    ensures
        r@ == spec_format_size(bytes),
{
    let mut s = String::new();
    if bytes < 1024 {
        push_decimal(&mut s, bytes);
        s.append(" B");
    } else if bytes < 1048576 {
        push_scaled(&mut s, bytes, 1024);
        s.append(" KB");
    } else if bytes < 1073741824 {
        push_scaled(&mut s, bytes, 1048576);
        s.append(" MB");
    } else if bytes < 1099511627776 {
        push_scaled(&mut s, bytes, 1073741824);
        s.append(" GB");
    } else {
        push_scaled(&mut s, bytes, 1099511627776);
        s.append(" TB");
    }
    proof {
        assert(s@ =~= spec_format_size(bytes));
    }
    s
}

} // verus!
