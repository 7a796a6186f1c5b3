//! The update-time estimator: a region's predicted elapsed time within a
//! window is its progress (cumulative population over total) times the
//! window length. The quotient is decomposed exactly into hours, minutes,
//! seconds and a rounded sub-second remainder; no precision is lost to
//! intermediate truncation.

use vstd::prelude::*;
use crate::text::push_char;

verus! {

/// Hours, minutes, seconds and milliseconds of a predicted elapsed time,
/// in the ranges the report sink accepts: hours saturate at the sink's
/// limit, milliseconds are clamped below one second rather than carried.
#[derive(Clone, Copy, Debug, PartialEq, Eq, Structural)]
pub struct DurationParts {
    pub hours: u16,
    pub minutes: u8,
    pub seconds: u8,
    pub millis: u16,
}

pub open spec fn pow10(p: int) -> int
    decreases p,
{
    if p <= 0 {
        1
    } else {
        10 * pow10(p - 1)
    }
}

/// Whole seconds of predicted elapsed time: floor of `n * len / total`.
pub open spec fn spec_whole_seconds(n: int, len: int, total: int) -> int {
    (n * len) / total
}

/// The remainder the floor drops, as a fraction of `total` seconds.
pub open spec fn spec_rem(n: int, len: int, total: int) -> int {
    (n * len) % total
}

/// The sub-second remainder at `p` digits, rounded half up and clamped
/// below one second instead of carrying.
pub open spec fn spec_frac_digits(n: int, len: int, total: int, p: int) -> int {
    let f = (2 * spec_rem(n, len, total) * pow10(p) + total) / (2 * total);
    if f > pow10(p) - 1 {
        pow10(p) - 1
    } else {
        f
    }
}

pub open spec fn spec_hours(n: int, len: int, total: int) -> int {
    spec_whole_seconds(n, len, total) / 3600
}

pub open spec fn spec_minutes(n: int, len: int, total: int) -> int {
    (spec_whole_seconds(n, len, total) / 60) % 60
}

pub open spec fn spec_seconds(n: int, len: int, total: int) -> int {
    spec_whole_seconds(n, len, total) % 60
}

/// The decomposition handed to the report sink. A negative product (a
/// degenerate input) collapses to zero, as saturating conversions would;
/// hours saturate at the sink's limit.
pub open spec fn spec_parts(n: int, len: int, total: int) -> DurationParts {
    if n * len < 0 {
        DurationParts { hours: 0, minutes: 0, seconds: 0, millis: 0 }
    } else {
        DurationParts {
            hours: (if spec_hours(n, len, total) > 65535 {
                65535int
            } else {
                spec_hours(n, len, total)
            }) as u16,
            minutes: (spec_minutes(n, len, total)) as u8,
            seconds: (spec_seconds(n, len, total)) as u8,
            millis: (spec_frac_digits(n, len, total, 3)) as u16,
        }
    }
}

/// Compute the decomposition exactly with integer arithmetic.
pub fn duration_parts(nations_before: i32, window_len: i32, total: i32) -> (d: DurationParts)
    requires
        total > 0,
    ensures
        d == spec_parts(nations_before as int, window_len as int, total as int),
{
    let n = nations_before as i64;
    let len = window_len as i64;
    proof {
        assert(-0x4000000000000000 <= n * len <= 0x4000000000000000) by (nonlinear_arith)
            requires
                -0x80000000 <= n <= 0x7fffffff,
                -0x80000000 <= len <= 0x7fffffff,
        ;
    }
    let prod = n * len;
    if prod < 0 {
        return DurationParts { hours: 0, minutes: 0, seconds: 0, millis: 0 };
    }
    let nu = prod as u64;
    let tt = total as u64;
    let w = nu / tt;
    let h64 = w / 3600;
    let hours: u16 = if h64 > 65535 {
        65535
    } else {
        h64 as u16
    };
    let minutes: u8 = ((w / 60) % 60) as u8;
    let seconds: u8 = (w % 60) as u8;
    let rem = nu % tt;
    proof {
        assert(rem < tt);
        assert(tt <= 0x80000000);
    }
    let f0 = (2 * rem * 1000 + tt) / (2 * tt);
    let millis: u16 = if f0 > 999 {
        999
    } else {
        f0 as u16
    };
    proof {
        let ni = nations_before as int;
        let li = window_len as int;
        let ti = total as int;
        assert(nu == ni * li);
        assert(w == spec_whole_seconds(ni, li, ti));
        assert(rem == spec_rem(ni, li, ti));
        reveal_with_fuel(pow10, 5);
        assert(pow10(3) == 1000);
        assert(f0 == (2 * spec_rem(ni, li, ti) * pow10(3) + ti) / (2 * ti));
    }
    DurationParts { hours, minutes, seconds, millis }
}

/// The digit character of a value below ten.
pub open spec fn digit_char(d: int) -> char {
    if d == 0 {
        '0'
    } else if d == 1 {
        '1'
    } else if d == 2 {
        '2'
    } else if d == 3 {
        '3'
    } else if d == 4 {
        '4'
    } else if d == 5 {
        '5'
    } else if d == 6 {
        '6'
    } else if d == 7 {
        '7'
    } else if d == 8 {
        '8'
    } else {
        '9'
    }
}

/// The shortest decimal form of a nonnegative value.
pub open spec fn dec_str(n: int) -> Seq<char>
    decreases n,
{
    if n < 10 {
        seq![digit_char(n)]
    } else {
        dec_str(n / 10).push(digit_char(n % 10))
    }
}

/// The value's decimal form padded with leading zeros to width `w`.
pub open spec fn pad_str(n: int, w: int) -> Seq<char>
    decreases w,
{
    if w <= 0 {
        Seq::empty()
    } else {
        pad_str(n / 10, w - 1).push(digit_char(n % 10))
    }
}

fn digit_char_exec(d: u64) -> (c: char)
    requires
        d < 10,
    ensures
        c == digit_char(d as int),
{
    match d {
        0 => '0',
        1 => '1',
        2 => '2',
        3 => '3',
        4 => '4',
        5 => '5',
        6 => '6',
        7 => '7',
        8 => '8',
        _ => '9',
    }
}

/// Append the decimal form of `n`.
fn push_dec(out: &mut String, n: u64)
    ensures
        final(out)@ == old(out)@ + dec_str(n as int),
    decreases n,
{
    if n >= 10 {
        push_dec(out, n / 10);
        push_char(out, digit_char_exec(n % 10));
        proof {
            assert(final(out)@ =~= old(out)@ + dec_str(n as int));
        }
    } else {
        push_char(out, digit_char_exec(n));
        proof {
            assert(final(out)@ =~= old(out)@ + dec_str(n as int));
        }
    }
}

/// Append the decimal form of `n` padded with leading zeros to width `w`.
fn push_pad(out: &mut String, n: u64, w: u64)
    ensures
        final(out)@ == old(out)@ + pad_str(n as int, w as int),
    decreases w,
{
    if w == 0 {
        proof {
            assert(final(out)@ =~= old(out)@ + pad_str(n as int, 0));
        }
        return ;
    }
    push_pad(out, n / 10, w - 1);
    push_char(out, digit_char_exec(n % 10));
    proof {
        assert(final(out)@ =~= old(out)@ + pad_str(n as int, w as int));
    }
}

/// The elapsed-time rendering of a predicted time at `p` sub-second
/// digits: unbounded hours, two-digit minutes and seconds, and a dot
/// with `p` fraction digits when `p` is positive. A negative product
/// renders as zero.
pub open spec fn spec_format(n: int, len: int, total: int, p: int) -> Seq<char> {
    let neg = n * len < 0;
    let h = if neg {
        0
    } else {
        spec_hours(n, len, total)
    };
    let m = if neg {
        0
    } else {
        spec_minutes(n, len, total)
    };
    let s = if neg {
        0
    } else {
        spec_seconds(n, len, total)
    };
    let f = if neg {
        0
    } else {
        spec_frac_digits(n, len, total, p)
    };
    let head = dec_str(h) + seq![':'] + pad_str(m, 2) + seq![':'] + pad_str(s, 2);
    if p > 0 {
        head + seq!['.'] + pad_str(f, p)
    } else {
        head
    }
}

fn pow10_exec(p: i32) -> (r: u64)
    requires
        0 <= p <= 3,
    ensures
        r == pow10(p as int),
        1 <= r <= 1000,
{
    proof {
        reveal_with_fuel(pow10, 5);
    }
    if p == 0 {
        1
    } else if p == 1 {
        10
    } else if p == 2 {
        100
    } else {
        1000
    }
}

/// Render a predicted elapsed time as text, exactly as `spec_format`
/// says.
pub fn format_duration(nations_before: i32, window_len: i32, total: i32, precision: i32) -> (r:
    String)
    requires
        total > 0,
        0 <= precision <= 3,
    ensures
        r@ == spec_format(nations_before as int, window_len as int, total as int, precision as int),
{
    let n = nations_before as i64;
    let len = window_len as i64;
    proof {
        assert(-0x4000000000000000 <= n * len <= 0x4000000000000000) by (nonlinear_arith)
            requires
                -0x80000000 <= n <= 0x7fffffff,
                -0x80000000 <= len <= 0x7fffffff,
        ;
    }
    let prod = n * len;
    let neg = prod < 0;
    let nu = if neg {
        0u64
    } else {
        prod as u64
    };
    let tt = total as u64;
    let w = nu / tt;
    let h = w / 3600;
    let m = (w / 60) % 60;
    let s = w % 60;
    let scale = pow10_exec(precision);
    let rem = nu % tt;
    proof {
        assert(rem < tt);
        assert(tt <= 0x80000000);
        assert(scale <= 1000);
        assert(2 * rem * scale + tt <= 0xffffffffffffffff) by (nonlinear_arith)
            requires
                rem < tt,
                tt <= 0x80000000,
                scale <= 1000,
        ;
    }
    let f0 = (2 * rem * scale + tt) / (2 * tt);
    let f = if f0 > scale - 1 {
        scale - 1
    } else {
        f0
    };
    proof {
        let ni = nations_before as int;
        let li = window_len as int;
        let ti = total as int;
        if !neg {
            assert(nu == ni * li);
            assert(w == spec_whole_seconds(ni, li, ti));
            assert(rem == spec_rem(ni, li, ti));
            assert(f == spec_frac_digits(ni, li, ti, precision as int));
        } else {
            let ttw = tt as int;
            vstd::arithmetic::div_mod::lemma_div_of0(ttw);
            vstd::arithmetic::div_mod::lemma_small_mod(0nat, tt as nat);
            assert(nu == 0 && w == 0 && rem == 0);
            assert(2 * rem * scale == 0) by (nonlinear_arith)
                requires
                    rem == 0u64,
            ;
            assert(f0 == ttw / (2 * ttw));
            assert(ttw / (2 * ttw) == 0) by (nonlinear_arith)
                requires
                    ttw >= 1,
            ;
        }
    }
    let mut out = String::new();
    push_dec(&mut out, h);
    push_char(&mut out, ':');
    push_pad(&mut out, m, 2);
    push_char(&mut out, ':');
    push_pad(&mut out, s, 2);
    if precision > 0 {
        push_char(&mut out, '.');
        push_pad(&mut out, f, precision as u64);
    }
    proof {
        assert(out@ =~= spec_format(
            nations_before as int,
            window_len as int,
            total as int,
            precision as int,
        ));
    }
    out
}

/// Predicted times never decrease along dump order: for a fixed window
/// and total, a later region's whole-second count is at least an earlier
/// one's, and on equal whole seconds the dropped remainder is no
/// smaller.
pub proof fn lemma_predicted_monotone(n1: int, n2: int, len: int, total: int)
    requires
        0 <= n1 <= n2,
        len >= 0,
        total > 0,
    ensures
        spec_whole_seconds(n1, len, total) <= spec_whole_seconds(n2, len, total),
        spec_whole_seconds(n1, len, total) == spec_whole_seconds(n2, len, total) ==> spec_rem(
            n1,
            len,
            total,
        ) <= spec_rem(n2, len, total),
{
    assert(n1 * len <= n2 * len) by (nonlinear_arith)
        requires
            0 <= n1 <= n2,
            len >= 0,
    ;
    vstd::arithmetic::div_mod::lemma_div_is_ordered(n1 * len, n2 * len, total);
    vstd::arithmetic::div_mod::lemma_fundamental_div_mod(n1 * len, total);
    vstd::arithmetic::div_mod::lemma_fundamental_div_mod(n2 * len, total);
}

} // verus!
