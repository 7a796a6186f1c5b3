//! Base-10 integer parsing for the numeric census fields, with the exact
//! syntax std's integer parsers accept: an optional sign followed by one or
//! more ASCII digits, rejected on overflow.

use vstd::prelude::*;

verus! {

pub open spec fn is_digit(c: char) -> bool {
    48 <= c as int <= 57
}

pub open spec fn digit_val(c: char) -> int {
    c as int - 48
}

/// Value of a sequence of digits read in base 10.
pub open spec fn digits_val(s: Seq<char>) -> int
    decreases s.len(),
{
    if s.len() == 0 {
        0
    } else {
        digits_val(s.drop_last()) * 10 + digit_val(s.last())
    }
}

pub open spec fn all_digits(s: Seq<char>) -> bool {
    forall|i: int| 0 <= i < s.len() ==> is_digit(#[trigger] s[i])
}

/// The digits of an integer literal: everything after an optional sign.
pub open spec fn int_body(s: Seq<char>) -> Seq<char> {
    if s.len() > 0 && (s[0] == '-' || s[0] == '+') {
        s.drop_first()
    } else {
        s
    }
}

pub open spec fn int_negative(s: Seq<char>) -> bool {
    s.len() > 0 && s[0] == '-'
}

/// An optional `+` or `-`, then one or more ASCII digits.
pub open spec fn valid_int_str(s: Seq<char>) -> bool {
    int_body(s).len() > 0 && all_digits(int_body(s))
}

/// The mathematical value of a valid integer literal.
pub open spec fn int_str_val(s: Seq<char>) -> int {
    if int_negative(s) {
        -digits_val(int_body(s))
    } else {
        digits_val(int_body(s))
    }
}

proof fn lemma_digits_val_nonneg(s: Seq<char>)
    requires
        all_digits(s),
    ensures
        digits_val(s) >= 0,
    decreases s.len(),
{
    if s.len() > 0 {
        assert(all_digits(s.drop_last()));
        lemma_digits_val_nonneg(s.drop_last());
    }
}

proof fn lemma_digits_val_step(s: Seq<char>, i: int)
    requires
        0 <= i < s.len(),
    ensures
        digits_val(s.take(i + 1)) == digits_val(s.take(i)) * 10 + digit_val(s[i]),
{
    assert(s.take(i + 1).drop_last() =~= s.take(i));
    assert(s.take(i + 1).last() == s[i]);
}

/// Along a digit string, prefix values never decrease.
proof fn lemma_digits_val_prefix_le(s: Seq<char>, i: int, j: int)
    requires
        all_digits(s),
        0 <= i <= j <= s.len(),
    ensures
        digits_val(s.take(i)) <= digits_val(s.take(j)),
    decreases j - i,
{
    if i < j {
        lemma_digits_val_prefix_le(s, i, j - 1);
        lemma_digits_val_step(s, j - 1);
        assert(all_digits(s.take(j - 1)));
        lemma_digits_val_nonneg(s.take(j - 1));
        assert(digits_val(s.take(j - 1)) * 10 >= digits_val(s.take(j - 1))) by (nonlinear_arith)
            requires
                digits_val(s.take(j - 1)) >= 0,
        ;
    }
}

/// Parse a 64-bit signed integer. Returns the value exactly when the text
/// is a well-formed literal whose value fits.
pub fn parse_i64(s: &str) -> (r: Option<i64>)
    ensures
        r is Some <==> valid_int_str(s@) && i64::MIN <= int_str_val(s@) <= i64::MAX,
        r is Some ==> r->0 == int_str_val(s@),
{
    let n = s.unicode_len();
    if n == 0 {
        return None;
    }
    let c0 = s.get_char(0);
    let neg = c0 == '-';
    let signed = neg || c0 == '+';
    let start: usize = if signed { 1 } else { 0 };
    if start == n {
        return None;
    }
    let ghost body = int_body(s@);
    proof {
        assert(body =~= s@.skip(start as int));
    }
    let limit: u64 = if neg {
        9223372036854775808
    } else {
        9223372036854775807
    };
    let mut acc: u64 = 0;
    let mut i: usize = start;
    while i < n
        invariant
            start <= i <= n,
            n == s@.len(),
            start == if int_negative(s@) || (s@.len() > 0 && s@[0] == '+') { 1int } else { 0int },
            body == int_body(s@),
            body =~= s@.skip(start as int),
            limit == if int_negative(s@) { 9223372036854775808u64 } else { 9223372036854775807u64 },
            all_digits(body.take(i - start)),
            acc == digits_val(body.take(i - start)),
            acc <= limit,
        decreases n - i,
    {
        let c = s.get_char(i);
        let cv = c as u32;
        if cv < 48 || cv > 57 {
            proof {
                assert(body[i - start] == s@[i as int]);
                assert(!is_digit(body[i - start]));
            }
            return None;
        }
        let d = (cv - 48) as u64;
        proof {
            assert(body[i - start] == s@[i as int]);
            assert(is_digit(body[i - start]));
        }
        if acc > (limit - d) / 10 {
            // The value of the digits seen so far already exceeds the
            // representable magnitude; more digits cannot shrink it.
            proof {
                let k = i - start;
                assert(acc * 10 + d > limit) by (nonlinear_arith)
                    requires
                        acc > (limit - d) / 10,
                        0 <= d <= 9,
                        d <= limit,
                        (limit - d) / 10 * 10 + (limit - d) % 10 == limit - d,
                        0 <= (limit - d) % 10 < 10,
                ;
                lemma_digits_val_step(body, k);
                assert(body.take(k + 1) =~= body.take(k).push(body[k]));
                assert(all_digits(body.take(k + 1)));
                if valid_int_str(s@) {
                    assert(body.take(body.len() as int) =~= body);
                    lemma_digits_val_prefix_le(body, k + 1, body.len() as int);
                    assert(digits_val(body) > limit);
                }
            }
            return None;
        }
        proof {
            assert(acc * 10 + d <= limit) by (nonlinear_arith)
                requires
                    acc <= (limit - d) / 10,
                    0 <= d <= 9,
                    d <= limit,
                    (limit - d) / 10 * 10 + (limit - d) % 10 == limit - d,
                    0 <= (limit - d) % 10 < 10,
            ;
            lemma_digits_val_step(body, i - start);
        }
        acc = acc * 10 + d;
        proof {
            assert(body.take(i - start + 1) =~= body.take(i - start).push(body[i - start]));
        }
        i = i + 1;
    }
    proof {
        assert(body.take(i - start) =~= body);
        assert(valid_int_str(s@));
    }
    if neg {
        if acc == 9223372036854775808 {
            Some(i64::MIN)
        } else {
            Some(-(acc as i64))
        }
    } else {
        Some(acc as i64)
    }
}

/// Parse a 32-bit signed integer with the same syntax.
pub fn parse_i32(s: &str) -> (r: Option<i32>)
    ensures
        r is Some <==> valid_int_str(s@) && i32::MIN <= int_str_val(s@) <= i32::MAX,
        r is Some ==> r->0 == int_str_val(s@),
{
    match parse_i64(s) {
        Some(v) => {
            if -2147483648 <= v && v <= 2147483647 {
                Some(v as i32)
            } else {
                None
            }
        },
        None => None,
    }
}

} // verus!
