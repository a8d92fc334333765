//! Decimal numbers in text, read exactly.

use vstd::prelude::*;
use crate::ratio::{from_magnitude, normalize, Ratio};
use crate::scaling::{fit, fit_add, fit_mul};

verus! {

/// Why a text is not read as a decimal number.
#[derive(Clone, Copy, Debug, PartialEq, Eq, Structural)]
pub enum DecimalError {
    /// The text is not an optional sign, digits, and optionally a point and
    /// more digits, with at least one digit.
    Invalid,
    /// The number is written correctly and cannot be represented.
    TooLarge,
}

/// The character is one of `0` to `9`.
pub open spec fn is_digit(c: char) -> bool {
    48 <= c as int <= 57
}

/// The value of a digit.
pub open spec fn digit_value(c: char) -> int {
    c as int - 48
}

/// Every character is a digit.
pub open spec fn all_digits(s: Seq<char>) -> bool {
    forall|i: int| 0 <= i < s.len() ==> is_digit(#[trigger] s[i])
}

/// The number that a sequence of digits writes in base ten.
pub open spec fn digits_value(s: Seq<char>) -> int
    decreases s.len(),
{
    if s.len() == 0 {
        0
    } else {
        digits_value(s.drop_last()) * 10 + digit_value(s.last())
    }
}

/// Ten to the power `k`.
pub open spec fn pow10(k: nat) -> int
    decreases k,
{
    if k == 0 {
        1
    } else {
        pow10((k - 1) as nat) * 10
    }
}

/// The text starts with a sign.
pub open spec fn has_sign(s: Seq<char>) -> bool {
    s.len() > 0 && (s[0] == '-' || s[0] == '+')
}

/// The text behind the sign, if there is one.
pub open spec fn unsigned_part(s: Seq<char>) -> Seq<char> {
    if has_sign(s) {
        s.drop_first()
    } else {
        s
    }
}

/// The number of characters in front of the first point, or the length of
/// the text where it has no point.
pub open spec fn point_position(s: Seq<char>) -> int
    decreases s.len(),
{
    if s.len() == 0 || s[0] == '.' {
        0
    } else {
        1 + point_position(s.drop_first())
    }
}

/// The digits in front of the point.
pub open spec fn whole_digits(body: Seq<char>) -> Seq<char> {
    body.take(point_position(body))
}

/// The digits behind the point.
pub open spec fn fraction_digits(body: Seq<char>) -> Seq<char> {
    if point_position(body) < body.len() {
        body.skip(point_position(body) + 1)
    } else {
        Seq::empty()
    }
}

/// The text is a decimal number: an optional sign, digits, and optionally a
/// point and more digits, with at least one digit in all.
pub open spec fn is_decimal(s: Seq<char>) -> bool {
    let body = unsigned_part(s);
    &&& all_digits(whole_digits(body))
    &&& all_digits(fraction_digits(body))
    &&& whole_digits(body).len() + fraction_digits(body).len() > 0
}

/// The number that a decimal text writes, as a fraction
/// `(numerator, denominator)` over a power of ten.
pub open spec fn decimal_fraction(s: Seq<char>) -> (int, int) {
    let body = unsigned_part(s);
    let n = digits_value(whole_digits(body) + fraction_digits(body));
    let d = pow10(fraction_digits(body).len());
    if s.len() > 0 && s[0] == '-' {
        (-n, d)
    } else {
        (n, d)
    }
}

/// What reading a text as a decimal number gives: the number in lowest
/// terms, `Invalid` for a text that is no decimal number, and `TooLarge`
/// where the digits or the power of ten exceed 128 bits or the number in
/// lowest terms cannot be represented.
pub open spec fn decimal_ratio(s: Seq<char>) -> Result<Ratio, DecimalError> {
    if !is_decimal(s) {
        Err(DecimalError::Invalid)
    } else {
        let (n, d) = decimal_fraction(s);
        if -(u128::MAX as int) <= n <= u128::MAX && d <= u128::MAX {
            match normalize(n, d) {
                Some(r) => Ok(r),
                None => Err(DecimalError::TooLarge),
            }
        } else {
            Err(DecimalError::TooLarge)
        }
    }
}

/// The point position lies within the text; no character in front of it is
/// a point, and the character at it, if there is one, is.
pub proof fn lemma_point_position(s: Seq<char>)
    ensures
        0 <= point_position(s) <= s.len(),
        forall|i: int| 0 <= i < point_position(s) ==> #[trigger] s[i] != '.',
        point_position(s) < s.len() ==> s[point_position(s)] == '.',
    decreases s.len(),
{
    if s.len() > 0 && s[0] != '.' {
        let rest = s.drop_first();
        lemma_point_position(rest);
        assert forall|i: int| 0 <= i < point_position(s) implies #[trigger] s[i] != '.' by {
            if i > 0 {
                assert(rest[i - 1] == s[i]);
            }
        }
        if point_position(s) < s.len() {
            assert(rest[point_position(rest)] == s[point_position(s)]);
        }
    }
}

/// The first point of a text is where no point stands in front.
pub proof fn lemma_point_position_is(s: Seq<char>, p: int)
    requires
        0 <= p <= s.len(),
        forall|i: int| 0 <= i < p ==> #[trigger] s[i] != '.',
        p < s.len() ==> s[p] == '.',
    ensures
        point_position(s) == p,
{
    lemma_point_position(s);
    let q = point_position(s);
    if q < p {
        assert(s[q] != '.');
    } else if p < q {
        assert(s[p] != '.');
    }
}

/// Whether the character is one of `0` to `9`.
pub fn char_is_digit(c: char) -> (b: bool)
    ensures
        b == is_digit(c),
{
    let code: u32 = c as u32;
    48 <= code && code <= 57
}

/// Reads a text as a decimal number, exactly.
pub fn parse_decimal(text: &str) -> (r: Result<Ratio, DecimalError>)
    ensures
        r == decimal_ratio(text@),
        r is Ok ==> r->Ok_0.wf(),
{
    let n: usize = text.unicode_len();
    let negative: bool = n > 0 && text.get_char(0) == '-';
    let start: usize = if n > 0 && (text.get_char(0) == '-' || text.get_char(0) == '+') {
        1
    } else {
        0
    };
    let ghost body: Seq<char> = unsigned_part(text@);
    assert(body =~= text@.skip(start as int));
    // the digits in front of the point
    let mut i: usize = start;
    let mut value: Option<u128> = Some(0);
    let ghost mut digits: Seq<char> = Seq::empty();
    while i < n && char_is_digit(text.get_char(i))
        invariant
            start <= i <= n,
            n == text@.len(),
            body == text@.skip(start as int),
            digits == body.take(i - start),
            all_digits(digits),
            value == fit(digits_value(digits)),
            digits_value(digits) >= 0,
        decreases n - i,
    {
        let c: char = text.get_char(i);
        let d: u128 = (c as u32 - 48) as u128;
        let ghost v: int = digits_value(digits);
        let ghost next: Seq<char> = digits.push(c);
        proof {
            assert(body[i - start] == c);
            assert(next =~= body.take(i - start + 1));
            assert(next.drop_last() =~= digits);
            assert(next.last() == c);
        }
        let scaled = fit_mul(value, 10, Ghost(v));
        value = fit_add(scaled, Some(d), Ghost(v * 10), Ghost(d as int));
        proof {
            digits = next;
        }
        i += 1;
    }
    let whole_end: usize = i;
    let ghost whole: Seq<char> = digits;
    let has_point: bool = i < n && text.get_char(i) == '.';
    if i < n && !has_point {
        // a character that is neither a digit nor a point
        proof {
            let p = i - start;
            assert(body[p] == text@[i as int]);
            lemma_point_position(body);
            let q = point_position(body);
            if q < p {
                assert(digits[q] == body[q]);
                assert(is_digit(digits[q]));
            } else if q == p {
            } else {
                assert(whole_digits(body)[p] == body[p]);
                assert(!is_digit(whole_digits(body)[p]));
            }
        }
        return Err(DecimalError::Invalid);
    }
    proof {
        assert forall|x: int| 0 <= x < i - start implies #[trigger] body[x] != '.' by {
            assert(digits[x] == body[x]);
            assert(is_digit(digits[x]));
        }
        if has_point {
            assert(body[i - start] == '.');
        }
        lemma_point_position_is(body, i - start);
        assert(whole_digits(body) =~= whole);
    }
    if has_point {
        i += 1;
    }
    let fraction_start: usize = i;
    let mut scale: Option<u128> = Some(1);
    let ghost mut fraction: Seq<char> = Seq::empty();
    proof {
        assert(whole + fraction =~= whole);
    }
    while i < n && char_is_digit(text.get_char(i))
        invariant
            fraction_start <= i <= n,
            start <= fraction_start,
            n == text@.len(),
            body == text@.skip(start as int),
            fraction == body.subrange(fraction_start - start, i - start),
            all_digits(fraction),
            all_digits(whole),
            digits == whole + fraction,
            all_digits(digits),
            value == fit(digits_value(digits)),
            digits_value(digits) >= 0,
            scale == fit(pow10(fraction.len())),
            pow10(fraction.len()) >= 1,
        decreases n - i,
    {
        let c: char = text.get_char(i);
        let d: u128 = (c as u32 - 48) as u128;
        let ghost v: int = digits_value(digits);
        let ghost next: Seq<char> = digits.push(c);
        let ghost next_fraction: Seq<char> = fraction.push(c);
        proof {
            assert(body[i - start] == c);
            assert(next_fraction =~= body.subrange(fraction_start - start, i - start + 1));
            assert(next =~= whole + next_fraction);
            assert(next.drop_last() =~= digits);
            assert(next.last() == c);
        }
        let scaled = fit_mul(value, 10, Ghost(v));
        value = fit_add(scaled, Some(d), Ghost(v * 10), Ghost(d as int));
        scale = fit_mul(scale, 10, Ghost(pow10(fraction.len())));
        proof {
            digits = next;
            fraction = next_fraction;
        }
        i += 1;
    }
    proof {
        if has_point {
            if i == n {
                assert(fraction_digits(body) =~= fraction);
            } else {
                let k = i - fraction_start;
                assert(fraction_digits(body)[k] == body[i - start]);
                assert(body[i - start] == text@[i as int]);
                assert(!is_digit(fraction_digits(body)[k]));
            }
        } else {
            assert(i == n);
            assert(fraction_digits(body) =~= fraction);
        }
    }
    if i < n {
        return Err(DecimalError::Invalid);
    }
    if whole_end == start && i == fraction_start {
        return Err(DecimalError::Invalid);
    }
    assert(is_decimal(text@));
    match (value, scale) {
        (Some(numerator), Some(denominator)) => {
            match from_magnitude(negative, numerator, denominator) {
                Some(r) => Ok(r),
                None => Err(DecimalError::TooLarge),
            }
        },
        _ => Err(DecimalError::TooLarge),
    }
}

} // verus!
