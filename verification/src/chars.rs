//! Character classes and number parsing, as the standard library defines them.
use vstd::prelude::*;

verus! {

/// Whether `c` has the Unicode `White_Space` property, as `char::is_whitespace` tests it: the
/// ASCII space, tab, line feed, vertical tab, form feed and carriage return, and the
/// nineteen code points beyond ASCII that Unicode lists under `White_Space`.
pub open spec fn is_whitespace_char(c: char) -> bool {
    ||| c == ' '
    ||| ('\u{9}' <= c && c <= '\u{d}')
    ||| c == '\u{85}'
    ||| c == '\u{a0}'
    ||| c == '\u{1680}'
    ||| ('\u{2000}' <= c && c <= '\u{200a}')
    ||| c == '\u{2028}'
    ||| c == '\u{2029}'
    ||| c == '\u{202f}'
    ||| c == '\u{205f}'
    ||| c == '\u{3000}'
}

/// Whether a character beyond ASCII has the Unicode `Alphabetic` property.
pub uninterp spec fn is_alphabetic_beyond_ascii(c: char) -> bool;

/// Whether a character beyond ASCII is in a Unicode number category.
pub uninterp spec fn is_numeric_beyond_ascii(c: char) -> bool;

pub open spec fn is_ascii_letter(c: char) -> bool {
    ('a' <= c && c <= 'z') || ('A' <= c && c <= 'Z')
}

/// Whether `c` has the Unicode `Alphabetic` property (`char::is_alphabetic`): within ASCII
/// exactly the letters.
pub open spec fn is_alphabetic_char(c: char) -> bool {
    if c <= '\u{7f}' {
        is_ascii_letter(c)
    } else {
        is_alphabetic_beyond_ascii(c)
    }
}

/// Whether `c` is in a Unicode number category (`char::is_numeric`): within ASCII exactly
/// the decimal digits.
pub open spec fn is_numeric_char(c: char) -> bool {
    if c <= '\u{7f}' {
        is_ascii_digit(c)
    } else {
        is_numeric_beyond_ascii(c)
    }
}

/// `char::is_alphanumeric`, which std documents as `is_alphabetic() || is_numeric()`.
pub open spec fn is_alphanumeric_char(c: char) -> bool {
    is_alphabetic_char(c) || is_numeric_char(c)
}

/// Calls `char::is_whitespace`, which tests the Unicode `White_Space` property.
#[verifier::external_body]
pub(crate) fn char_is_whitespace(c: char) -> (r: bool)
    ensures
        r == is_whitespace_char(c),
{
    c.is_whitespace()
}

/// Calls `char::is_alphabetic`: within ASCII it holds of the letters alone; beyond ASCII
/// its result is named.
#[verifier::external_body]
pub(crate) fn char_is_alphabetic(c: char) -> (r: bool)
    ensures
        r == is_alphabetic_char(c),
        '\u{7f}' < c ==> r == is_alphabetic_beyond_ascii(c),
{
    c.is_alphabetic()
}

/// Calls `char::is_numeric`: within ASCII it holds of the decimal digits alone; beyond
/// ASCII its result is named.
#[verifier::external_body]
pub(crate) fn char_is_numeric(c: char) -> (r: bool)
    ensures
        r == is_numeric_char(c),
        '\u{7f}' < c ==> r == is_numeric_beyond_ascii(c),
{
    c.is_numeric()
}

/// Calls `char::is_alphanumeric`; the contract states std's documented definition
/// (alphabetic or numeric).
#[verifier::external_body]
pub(crate) fn char_is_alphanumeric(c: char) -> (r: bool)
    ensures
        r == is_alphanumeric_char(c),
{
    c.is_alphanumeric()
}

/// The error that `str::parse` gives for an integer.
#[verifier::external_type_specification]
#[verifier::external_body]
pub struct ExParseIntError(core::num::ParseIntError);

pub open spec fn is_ascii_digit(c: char) -> bool {
    '0' <= c && c <= '9'
}

/// The value of a string of ASCII decimal digits.
pub open spec fn digits_value(s: Seq<char>) -> int
    decreases s.len(),
{
    if s.len() == 0 {
        0
    } else {
        digits_value(s.drop_last()) * 10 + (s.last() as int - '0' as int)
    }
}

pub open spec fn all_ascii_digits(s: Seq<char>) -> bool {
    forall|i: int| 0 <= i < s.len() ==> is_ascii_digit(#[trigger] s[i])
}

/// The integer that std's `FromStr` for integers reads from `s`, before the range check:
/// an optional `+` or `-` sign followed by one or more ASCII digits, and nothing else.
pub open spec fn decimal_text_value(s: Seq<char>) -> Option<int> {
    if s.len() > 0 && (s[0] == '+' || s[0] == '-') {
        let d = s.drop_first();
        if d.len() > 0 && all_ascii_digits(d) {
            Some(if s[0] == '-' { -digits_value(d) } else { digits_value(d) })
        } else {
            None
        }
    } else if s.len() > 0 && all_ascii_digits(s) {
        Some(digits_value(s))
    } else {
        None
    }
}

/// The value `str::parse` gives for an integer type ranging over `[min, max]`.
pub open spec fn parsed_integer(s: Seq<char>, min: int, max: int) -> Option<int> {
    match decimal_text_value(s) {
        Some(v) => if min <= v <= max { Some(v) } else { None },
        None => None,
    }
}

/// Calls `str::parse::<i32>`: succeeds exactly on a signed decimal in range.
#[verifier::external_body]
pub(crate) fn parse_i32(s: &str) -> (r: Result<i32, core::num::ParseIntError>)
    ensures
        match r {
            Ok(v) => parsed_integer(s@, i32::MIN as int, i32::MAX as int) == Some(v as int),
            Err(_) => parsed_integer(s@, i32::MIN as int, i32::MAX as int) is None,
        },
{
    s.parse::<i32>()
}

/// Calls `str::parse::<i64>`: succeeds exactly on a signed decimal in range.
#[verifier::external_body]
pub(crate) fn parse_i64(s: &str) -> (r: Result<i64, core::num::ParseIntError>)
    ensures
        match r {
            Ok(v) => parsed_integer(s@, i64::MIN as int, i64::MAX as int) == Some(v as int),
            Err(_) => parsed_integer(s@, i64::MIN as int, i64::MAX as int) is None,
        },
{
    s.parse::<i64>()
}

/// Calls `str::parse::<i8>`: succeeds exactly on a signed decimal in range.
#[verifier::external_body]
pub(crate) fn parse_i8(s: &str) -> (r: Result<i8, core::num::ParseIntError>)
    ensures
        match r {
            Ok(v) => parsed_integer(s@, i8::MIN as int, i8::MAX as int) == Some(v as int),
            Err(_) => parsed_integer(s@, i8::MIN as int, i8::MAX as int) is None,
        },
{
    s.parse::<i8>()
}

/// How `Debug` prints a character: between single quotes, escaped.
pub uninterp spec fn char_debug_text(c: char) -> Seq<char>;

/// Formats `c` with `Debug`; the contract names the result, which depends on `c` alone.
#[verifier::external_body]
pub(crate) fn char_debug(c: char) -> (r: String)
    ensures
        r@ == char_debug_text(c),
{
    format!("{:?}", c)
}

/// Formats a `ParseIntError` with `Display`. Nothing is stated of the text: the error is
/// opaque here and std documents no wording.
#[verifier::external_body]
pub(crate) fn parse_int_error_text(e: &core::num::ParseIntError) -> (r: String) {
    format!("{}", e)
}

} // verus!
