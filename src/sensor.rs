//! The temperature sensor's text: a whole number of milli-degrees Celsius,
//! turned into whole degrees, or into the failure reading where it cannot be
//! parsed.

use vstd::prelude::*;
use crate::control::FAIL_TEMP;

verus! {

/// A character with Unicode's White_Space property.
pub open spec fn is_white_space(c: char) -> bool {
    ('\u{9}' <= c && c <= '\u{d}') || c == ' ' || c == '\u{85}' || c == '\u{a0}' || c
        == '\u{1680}' || ('\u{2000}' <= c && c <= '\u{200a}') || c == '\u{2028}' || c
        == '\u{2029}' || c == '\u{202f}' || c == '\u{205f}' || c == '\u{3000}'
}

/// `s` without its leading white space.
pub open spec fn trim_start(s: Seq<char>) -> Seq<char>
    decreases s.len(),
{
    if s.len() > 0 && is_white_space(s[0]) {
        trim_start(s.skip(1))
    } else {
        s
    }
}

/// `s` without its trailing white space.
pub open spec fn trim_end(s: Seq<char>) -> Seq<char>
    decreases s.len(),
{
    if s.len() > 0 && is_white_space(s.last()) {
        trim_end(s.drop_last())
    } else {
        s
    }
}

/// `s` without its leading and trailing white space.
pub open spec fn trimmed(s: Seq<char>) -> Seq<char> {
    trim_end(trim_start(s))
}

/// Relies on `str::trim`: the string without its leading and trailing
/// characters of Unicode's White_Space property.
#[verifier::external_body]
fn trim(s: &str) -> (r: &str)
    ensures
        r@ == trimmed(s@),
{
    s.trim()
}

/// An ASCII decimal digit.
pub open spec fn is_digit(c: char) -> bool {
    '0' <= c && c <= '9'
}

/// A non-empty run of decimal digits.
pub open spec fn all_digits(s: Seq<char>) -> bool {
    s.len() > 0 && forall|i: int| 0 <= i < s.len() ==> is_digit(#[trigger] s[i])
}

/// The value of a run of decimal digits.
pub open spec fn digits_value(s: Seq<char>) -> int
    decreases s.len(),
{
    if s.len() == 0 {
        0
    } else {
        digits_value(s.drop_last()) * 10 + (s.last() as int - '0' as int)
    }
}

/// The integer that `s` writes: an optional sign `+` or `-`, then decimal
/// digits and nothing else.
pub open spec fn decimal_value(s: Seq<char>) -> Option<int> {
    if s.len() > 0 && (s[0] == '-' || s[0] == '+') {
        if all_digits(s.skip(1)) {
            if s[0] == '-' {
                Some(-digits_value(s.skip(1)))
            } else {
                Some(digits_value(s.skip(1)))
            }
        } else {
            None
        }
    } else if all_digits(s) {
        Some(digits_value(s))
    } else {
        None
    }
}

/// The `i32` that `s` writes, if it writes one within the range of `i32`.
pub open spec fn parsed_i32(s: Seq<char>) -> Option<i32> {
    match decimal_value(s) {
        Some(v) => if i32::MIN <= v <= i32::MAX {
            Some(v as i32)
        } else {
            None
        },
        None => None,
    }
}

/// Relies on `i32`'s `FromStr`: an optional sign and decimal digits, nothing
/// else, with a value within the range of `i32`.
#[verifier::external_body]
fn parse_i32(s: &str) -> (r: Option<i32>)
    ensures
        r == parsed_i32(s@),
{
    s.parse::<i32>().ok()
}

/// Milli-degrees to whole degrees, truncated towards zero.
pub open spec fn whole_degrees(milli: int) -> int {
    if milli >= 0 {
        milli / 1000
    } else {
        -(-milli / 1000)
    }
}

/// The temperature that a sensor text, already trimmed, stands for.
pub open spec fn reading_temp(s: Seq<char>) -> int {
    match parsed_i32(s) {
        Some(milli) => whole_degrees(milli as int),
        None => FAIL_TEMP as int,
    }
}

/// The temperature in whole degrees that the trimmed sensor text `s` gives,
/// or the failure reading where it is no number.
pub fn temp_from_trimmed(s: &str) -> (r: i32)
    ensures
        r == reading_temp(s@),
{
    match parse_i32(s) {
        Some(milli) => {
            if milli >= 0 {
                milli / 1000
            } else {
                let m: i64 = milli as i64;
                (-(-m / 1000)) as i32
            }
        },
        None => FAIL_TEMP,
    }
}

/// The temperature in whole degrees that the sensor text `text` gives,
/// whitespace around the number ignored, or the failure reading where it is
/// no number.
pub fn get_temp(text: &str) -> (r: i32)
    ensures
        r == reading_temp(trimmed(text@)),
{
    temp_from_trimmed(trim(text))
}

} // verus!
