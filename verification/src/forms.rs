//! Checks on the fields of forms, with the messages that the user sees.

use vstd::prelude::*;
use vstd::string::{StringExecFns, StringSliceAdditionalSpecFns};
use crate::text::{find_char, lemma_position_of, trim, trimmed};

verus! {

/// The character that writes the digit `d`.
pub open spec fn digit_char(d: int) -> char {
    if d == 0 {
        '0'
    } else if d == 1 {
        '1'
    } else if d == 2 {
        '2'
    } else if d == 3 {
        '3'
    } else if d == 4 {
        '4'
    } else if d == 5 {
        '5'
    } else if d == 6 {
        '6'
    } else if d == 7 {
        '7'
    } else if d == 8 {
        '8'
    } else {
        '9'
    }
}

/// The digits that write a natural number in base ten, without leading
/// zeros.
pub open spec fn digits_of(n: nat) -> Seq<char>
    decreases n,
{
    if n < 10 {
        seq![digit_char(n as int)]
    } else {
        digits_of(n / 10).push(digit_char((n % 10) as int))
    }
}

/// The characters that write an integer in base ten, with a minus sign in
/// front of a negative one.
pub open spec fn number_chars(n: int) -> Seq<char> {
    if n < 0 {
        seq!['-'] + digits_of((-n) as nat)
    } else {
        digits_of(n as nat)
    }
}

/// The text of one digit.
fn digit_text(d: u64) -> (s: &'static str)
    requires
        d < 10,
    ensures
        s@ == seq![digit_char(d as int)],
{
    proof {
        reveal_strlit("0");
        reveal_strlit("1");
        reveal_strlit("2");
        reveal_strlit("3");
        reveal_strlit("4");
        reveal_strlit("5");
        reveal_strlit("6");
        reveal_strlit("7");
        reveal_strlit("8");
        reveal_strlit("9");
    }
    let s: &'static str = if d == 0 {
        "0"
    } else if d == 1 {
        "1"
    } else if d == 2 {
        "2"
    } else if d == 3 {
        "3"
    } else if d == 4 {
        "4"
    } else if d == 5 {
        "5"
    } else if d == 6 {
        "6"
    } else if d == 7 {
        "7"
    } else if d == 8 {
        "8"
    } else {
        "9"
    };
    assert(s@ =~= seq![digit_char(d as int)]);
    s
}

/// Writes the digits of `n` behind the text.
pub fn append_digits(text: &mut String, n: u64)
    ensures
        final(text)@ == old(text)@ + digits_of(n as nat),
    decreases n,
{
    if n >= 10 {
        append_digits(text, n / 10);
    }
    let ghost before: Seq<char> = text@;
    text.append(digit_text(n % 10));
    proof {
        if n >= 10 {
            assert(before + seq![digit_char((n % 10) as int)] =~= old(text)@ + digits_of(
                (n / 10) as nat,
            ).push(digit_char((n % 10) as int)));
        }
    }
}

/// Writes the integer `n` behind the text.
pub fn append_number(text: &mut String, n: i64)
    ensures
        final(text)@ == old(text)@ + number_chars(n as int),
{
    if n < 0 {
        proof {
            reveal_strlit("-");
        }
        text.append("-");
        assert(text@ =~= old(text)@ + seq!['-']);
        let magnitude: u64 = if n == i64::MIN {
            0x8000_0000_0000_0000
        } else {
            (-n) as u64
        };
        append_digits(text, magnitude);
        assert(text@ =~= old(text)@ + (seq!['-'] + digits_of((-n) as nat)));
    } else {
        append_digits(text, n as u64);
    }
}

/// A field that must be filled in is empty or white space only.
pub fn validate_required(value: &str, field_name: &str) -> (r: Result<(), String>)
    ensures
        match r {
            Ok(()) => trimmed(value@).len() > 0,
            Err(message) => trimmed(value@).len() == 0 && message@ == field_name@
                + " is required"@,
        },
{
    if trim(value).unicode_len() == 0 {
        let mut message: String = field_name.to_owned();
        message.append(" is required");
        Err(message)
    } else {
        Ok(())
    }
}

/// The text holds the character.
pub open spec fn holds(s: Seq<char>, c: char) -> bool {
    exists|i: int| 0 <= i < s.len() && #[trigger] s[i] == c
}

/// Whether the text holds the character.
pub fn contains_char(text: &str, c: char) -> (b: bool)
    ensures
        b == holds(text@, c),
{
    proof {
        lemma_position_of(text@, c);
    }
    match find_char(text, c) {
        Some(p) => {
            assert(text@[p as int] == c);
            true
        },
        None => false,
    }
}

/// An e-mail address must hold an `@` and a point.
pub fn validate_email(email: &str) -> (r: Result<(), String>)
    ensures
        match r {
            Ok(()) => holds(email@, '@') && holds(email@, '.'),
            Err(message) => !(holds(email@, '@') && holds(email@, '.')) && message@
                == "Please enter a valid email address"@,
        },
{
    if contains_char(email, '@') && contains_char(email, '.') {
        Ok(())
    } else {
        Err("Please enter a valid email address".to_owned())
    }
}

/// The length of a text in bytes.
pub open spec fn byte_length(text: &str) -> usize {
    text.spec_bytes().len() as usize
}

/// A text must have at least `min` bytes.
pub fn validate_min_length(value: &str, min: usize, field_name: &str) -> (r: Result<(), String>)
    ensures
        match r {
            Ok(()) => byte_length(value) >= min,
            Err(message) => byte_length(value) < min && message@ == field_name@
                + " must be at least "@ + digits_of(min as nat) + " characters"@,
        },
{
    if value.len() < min {
        let mut message: String = field_name.to_owned();
        message.append(" must be at least ");
        append_digits(&mut message, min as u64);
        message.append(" characters");
        Err(message)
    } else {
        Ok(())
    }
}

/// A number must lie between `min` and `max`, both included.
pub fn validate_number_range(value: i32, min: i32, max: i32, field_name: &str) -> (r: Result<
    (),
    String,
>)
    ensures
        match r {
            Ok(()) => min <= value <= max,
            Err(message) => !(min <= value <= max) && message@ == field_name@
                + " must be between "@ + number_chars(min as int) + " and "@ + number_chars(
                max as int,
            ),
        },
{
    if value < min || value > max {
        let mut message: String = field_name.to_owned();
        message.append(" must be between ");
        append_number(&mut message, min as i64);
        message.append(" and ");
        append_number(&mut message, max as i64);
        Err(message)
    } else {
        Ok(())
    }
}

/// A number must not be negative.
pub fn validate_positive_number(value: i32, field_name: &str) -> (r: Result<(), String>)
    ensures
        match r {
            Ok(()) => value >= 0,
            Err(message) => value < 0 && message@ == field_name@ + " must be a positive number"@,
        },
{
    if value < 0 {
        let mut message: String = field_name.to_owned();
        message.append(" must be a positive number");
        Err(message)
    } else {
        Ok(())
    }
}

} // verus!
