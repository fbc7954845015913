//! Numbers written in decimal digits.

use crate::text::scan::{is_digit, run_len, scan, CharClass};
use vstd::prelude::*;

verus! {

/// The number that the digit `c` stands for.
pub open spec fn digit_value(c: char) -> int {
    c as int - '0' as int
}

/// Whether `s` holds decimal digits and nothing else.
pub open spec fn all_digits(s: Seq<char>) -> bool {
    forall|i: int| 0 <= i < s.len() ==> is_digit(#[trigger] s[i])
}

/// The number that the digits of `s` write, the most significant first.
pub open spec fn digits_value(s: Seq<char>) -> nat
    decreases s.len(),
{
    if s.len() == 0 {
        0
    } else {
        (digits_value(s.drop_last()) * 10 + digit_value(s.last())) as nat
    }
}

/// The integer that `s` writes: a sign, which may be left out, and then one
/// digit or more. Nothing else is an integer.
pub open spec fn integer_value(s: Seq<char>) -> Option<int> {
    let signed = s.len() > 0 && (s[0] == '-' || s[0] == '+');
    let digits = if signed {
        s.skip(1)
    } else {
        s
    };
    if digits.len() == 0 || !all_digits(digits) {
        None
    } else if s[0] == '-' {
        Some(-(digits_value(digits) as int))
    } else {
        Some(digits_value(digits) as int)
    }
}

/// The natural number that `s` writes: a `+`, which may be left out, and then
/// one digit or more.
pub open spec fn natural_value(s: Seq<char>) -> Option<nat> {
    let digits = if s.len() > 0 && s[0] == '+' {
        s.skip(1)
    } else {
        s
    };
    if digits.len() == 0 || !all_digits(digits) {
        None
    } else {
        Some(digits_value(digits))
    }
}

/// Whether `s` writes a number with a decimal point: a `-`, which may be
/// left out, digits, one point, digits, and at least one digit in all.
pub open spec fn is_decimal_literal(s: Seq<char>) -> bool {
    let start: int = if s.len() > 0 && s[0] == '-' {
        1
    } else {
        0
    };
    let point = start + run_len(s, start, CharClass::Digit);
    let end = point + 1 + run_len(s, point + 1, CharClass::Digit);
    &&& point < s.len()
    &&& s[point] == '.'
    &&& end == s.len()
    &&& end - start >= 2
}

/// The digits that write `n`, without leading zeros.
pub open spec fn decimal_digits(n: nat) -> Seq<char>
    decreases n,
{
    if n < 10 {
        seq![digit_char(n)]
    } else {
        decimal_digits(n / 10).push(digit_char(n % 10))
    }
}

/// The digit that stands for `d`, a number below ten.
pub open spec fn digit_char(d: nat) -> char {
    ('0' as int + d) as char
}

/// The value of digits does not shrink when more digits follow.
pub proof fn lemma_digits_value_grows(s: Seq<char>, k: int)
    requires
        all_digits(s),
        0 <= k <= s.len(),
    ensures
        digits_value(s.take(k)) <= digits_value(s),
    decreases s.len() - k,
{
    if k < s.len() {
        let next = s.take(k + 1);
        assert(next.drop_last() =~= s.take(k));
        assert(next.last() == s[k]);
        assert(digits_value(next) == digits_value(s.take(k)) * 10 + digit_value(s[k]));
        lemma_digits_value_grows(s, k + 1);
    } else {
        assert(s.take(k) =~= s);
    }
}

/// The digits of a number hold digits alone, at least one, and their value
/// is the number.
pub proof fn lemma_decimal_digits_value(n: nat)
    ensures
        decimal_digits(n).len() > 0,
        all_digits(decimal_digits(n)),
        digits_value(decimal_digits(n)) == n,
    decreases n,
{
    if n < 10 {
        let s = decimal_digits(n);
        assert(s.drop_last() =~= Seq::<char>::empty());
        assert(digits_value(s.drop_last()) == 0);
    } else {
        lemma_decimal_digits_value(n / 10);
        let s = decimal_digits(n);
        assert(s.drop_last() =~= decimal_digits(n / 10));
        assert(s.last() == digit_char(n % 10));
    }
}

/// A number that is written in decimal digits and read again is the same
/// number.
pub proof fn lemma_decimal_digits(n: nat)
    ensures
        natural_value(decimal_digits(n)) == Some(n),
        integer_value(decimal_digits(n)) == Some(n as int),
{
    lemma_decimal_digits_value(n);
    assert(is_digit(decimal_digits(n)[0]));
}

/// Reads the digits of `chars` from `start` on as a number, counted below
/// zero so that the least `i64` can be reached.
fn read_digits_negated(chars: &[char], start: usize) -> (r: Option<i64>)
    requires
        start <= chars@.len(),
    ensures
        match r {
            Some(n) => all_digits(chars@.skip(start as int)) && n == -(digits_value(
                chars@.skip(start as int),
            ) as int),
            None => !all_digits(chars@.skip(start as int)) || digits_value(
                chars@.skip(start as int),
            ) > -(i64::MIN as int),
        },
{
    let ghost digits = chars@.skip(start as int);
    let mut total: i64 = 0;
    let mut i: usize = start;
    assert(digits.take(0) =~= Seq::<char>::empty());
    while i < chars.len()
        invariant
            start <= i <= chars@.len(),
            digits == chars@.skip(start as int),
            all_digits(digits.take(i - start)),
            total == -(digits_value(digits.take(i - start)) as int),
        decreases chars@.len() - i,
    {
        let c = chars[i];
        let ghost next = digits.take(i - start + 1);
        proof {
            assert(next.drop_last() =~= digits.take(i - start));
            assert(next.last() == c);
        }
        if !('0' <= c && c <= '9') {
            proof {
                assert(!is_digit(digits[i - start]));
            }
            return None;
        }
        let d: i64 = (c as u32 - '0' as u32) as i64;
        let step = match total.checked_mul(10) {
            Some(t) => t.checked_sub(d),
            None => None,
        };
        match step {
            Some(t) => {
                total = t;
            },
            None => {
                proof {
                    assert(digits_value(next) > -(i64::MIN as int));
                    if all_digits(digits) {
                        lemma_digits_value_grows(digits, i - start + 1);
                    }
                }
                return None;
            },
        }
        proof {
            assert forall|j: int| 0 <= j < next.len() implies is_digit(#[trigger] next[j]) by {
                if j < i - start {
                    assert(next[j] == digits.take(i - start)[j]);
                }
            }
        }
        i += 1;
    }
    assert(digits.take(i - start) =~= digits);
    Some(total)
}

/// Reads `chars` as an integer that fits `i64`.
pub fn parse_i64(chars: &[char]) -> (r: Option<i64>)
    ensures
        r == match integer_value(chars@) {
            Some(n) => if i64::MIN <= n <= i64::MAX {
                Some(n as i64)
            } else {
                None
            },
            None => None,
        },
{
    let negative = chars.len() > 0 && chars[0] == '-';
    let start: usize = if chars.len() > 0 && (chars[0] == '-' || chars[0] == '+') {
        1
    } else {
        0
    };
    assert(chars@.skip(0) =~= chars@);
    if start == chars.len() {
        return None;
    }
    match read_digits_negated(chars, start) {
        None => None,
        Some(n) => {
            if negative {
                Some(n)
            } else if n == i64::MIN {
                None
            } else {
                Some(-n)
            }
        },
    }
}

/// Reads the digits of `chars` from `start` on as a number.
fn read_digits(chars: &[char], start: usize) -> (r: Option<usize>)
    requires
        start <= chars@.len(),
    ensures
        match r {
            Some(n) => all_digits(chars@.skip(start as int)) && n == digits_value(
                chars@.skip(start as int),
            ),
            None => !all_digits(chars@.skip(start as int)) || digits_value(
                chars@.skip(start as int),
            ) > usize::MAX,
        },
{
    let ghost digits = chars@.skip(start as int);
    let mut total: usize = 0;
    let mut i: usize = start;
    assert(digits.take(0) =~= Seq::<char>::empty());
    while i < chars.len()
        invariant
            start <= i <= chars@.len(),
            digits == chars@.skip(start as int),
            all_digits(digits.take(i - start)),
            total == digits_value(digits.take(i - start)),
        decreases chars@.len() - i,
    {
        let c = chars[i];
        let ghost next = digits.take(i - start + 1);
        proof {
            assert(next.drop_last() =~= digits.take(i - start));
            assert(next.last() == c);
        }
        if !('0' <= c && c <= '9') {
            proof {
                assert(!is_digit(digits[i - start]));
            }
            return None;
        }
        let d: usize = (c as u32 - '0' as u32) as usize;
        let step = match total.checked_mul(10) {
            Some(t) => t.checked_add(d),
            None => None,
        };
        match step {
            Some(t) => {
                total = t;
            },
            None => {
                proof {
                    assert(digits_value(next) > usize::MAX);
                    if all_digits(digits) {
                        lemma_digits_value_grows(digits, i - start + 1);
                    }
                }
                return None;
            },
        }
        proof {
            assert forall|j: int| 0 <= j < next.len() implies is_digit(#[trigger] next[j]) by {
                if j < i - start {
                    assert(next[j] == digits.take(i - start)[j]);
                }
            }
        }
        i += 1;
    }
    assert(digits.take(i - start) =~= digits);
    Some(total)
}

/// Reads `chars` as a natural number that fits `usize`.
pub fn parse_usize(chars: &[char]) -> (r: Option<usize>)
    ensures
        r == match natural_value(chars@) {
            Some(n) => if n <= usize::MAX {
                Some(n as usize)
            } else {
                None
            },
            None => None,
        },
{
    let start: usize = if chars.len() > 0 && chars[0] == '+' {
        1
    } else {
        0
    };
    assert(chars@.skip(0) =~= chars@);
    if start == chars.len() {
        return None;
    }
    read_digits(chars, start)
}

/// Whether `chars` writes a number with a decimal point.
pub fn decimal_literal(chars: &[char]) -> (r: bool)
    ensures
        r == is_decimal_literal(chars@),
{
    let start: usize = if chars.len() > 0 && chars[0] == '-' {
        1
    } else {
        0
    };
    let point = scan(chars, start, CharClass::Digit);
    if point >= chars.len() || chars[point] != '.' {
        return false;
    }
    let end = scan(chars, point + 1, CharClass::Digit);
    end == chars.len() && end - start >= 2
}

/// Appends the decimal digits of `n` to `out`.
pub fn push_decimal(out: &mut String, n: usize)
    ensures
        final(out)@ == old(out)@ + decimal_digits(n as nat),
    decreases n,
{
    if n >= 10 {
        push_decimal(out, n / 10);
    }
    let d: u8 = (n % 10) as u8;
    let c: char = (48u8 + d) as char;
    assert(c == digit_char((n % 10) as nat));
    out.push(c);
    proof {
        if n < 10 {
            assert(old(out)@.push(c) =~= old(out)@ + decimal_digits(n as nat));
        } else {
            assert((old(out)@ + decimal_digits((n / 10) as nat)).push(c) =~= old(out)@
                + decimal_digits(n as nat));
        }
    }
}

} // verus!
