//! The grammar of filter text: its tokens and its literals.
//!
//! The grammar is one of ordered choice: where a rule has alternatives, they
//! are tried in their order and the first that matches is taken, whatever a
//! later one would have matched. A rule is a function of the text and of a
//! position in it. It gives `None` where the rule does not match there, and
//! else what was read and the number of characters that the rule took.
//!
//! What was read is a value, or the error of a literal that has the shape the
//! grammar asks for and yet denotes nothing. Such an error does not stop the
//! match: the rules go on, and the error comes out in place of the tree.

use vstd::prelude::*;
use super::errors::ParseError;
use super::literals::{
    is_canonical_digits,
    date_of_text, decimal_of_text, instant_at_offset, instant_in_zone, offset_of_text,
    time_of_text, zone_is_known,
};
use super::model::{
    CompareOperator, Date, DateTime, ExprView, LambdaOperator, Time, ValueView,
};
use super::text::is_scalar_value;
use super::uuids::uuid_of_text;

verus! {

/// A value, or the error of the literal that failed first.
pub type Read<T> = Result<T, ParseError>;

/// What a rule read and how many characters it took, or `None`.
pub type Match<T> = Option<(Read<T>, nat)>;

/// The classes of characters that the grammar takes runs of.
#[derive(Clone, Copy, Debug, PartialEq, Eq, Structural)]
pub enum CharClass {
    /// Space, tab, line feed, carriage return.
    Blank,
    /// `0` to `9`.
    Digit,
    /// `0` to `9`, `a` to `f`, `A` to `F`.
    Hex,
    /// What an identifier holds after its first character: an ASCII letter,
    /// a digit or `_`.
    IdentifierPart,
    /// What the name of a time zone holds after its first character: an
    /// ASCII letter, a digit or one of `-`, `_`, `/`, `+`.
    ZonePart,
}

pub open spec fn is_letter(c: char) -> bool {
    ('a' <= c && c <= 'z') || ('A' <= c && c <= 'Z')
}

pub open spec fn is_digit(c: char) -> bool {
    '0' <= c && c <= '9'
}

pub open spec fn is_hex(c: char) -> bool {
    is_digit(c) || ('a' <= c && c <= 'f') || ('A' <= c && c <= 'F')
}

pub open spec fn is_blank(c: char) -> bool {
    c == ' ' || c == '\t' || c == '\n' || c == '\r'
}

/// Whether an identifier may start with `c`.
pub open spec fn is_identifier_start(c: char) -> bool {
    is_letter(c) || c == '_'
}

/// Whether the name of a time zone may start with `c`.
pub open spec fn is_zone_start(c: char) -> bool {
    is_letter(c) || c == '-' || c == '_' || c == '/' || c == '+'
}

pub open spec fn in_class(c: char, class: CharClass) -> bool {
    match class {
        CharClass::Blank => is_blank(c),
        CharClass::Digit => is_digit(c),
        CharClass::Hex => is_hex(c),
        CharClass::IdentifierPart => is_identifier_start(c) || is_digit(c),
        CharClass::ZonePart => is_zone_start(c) || is_digit(c),
    }
}

/// The number of characters from `at` to the end of the text.
pub open spec fn remaining(s: Seq<char>, at: int) -> nat {
    if at < s.len() {
        (s.len() - at) as nat
    } else {
        0
    }
}

/// Whether the text holds the character `c` at `at`.
pub open spec fn has_char(s: Seq<char>, at: int, c: char) -> bool {
    0 <= at < s.len() && s[at] == c
}

/// Whether the text holds the two characters `a`, `b` at `at`.
pub open spec fn has2(s: Seq<char>, at: int, a: char, b: char) -> bool {
    has_char(s, at, a) && has_char(s, at + 1, b)
}

/// Whether the text holds the three characters `a`, `b`, `c` at `at`.
pub open spec fn has3(s: Seq<char>, at: int, a: char, b: char, c: char) -> bool {
    has_char(s, at, a) && has_char(s, at + 1, b) && has_char(s, at + 2, c)
}

/// The length of the longest run of characters of `class` that starts at
/// `at`.
pub open spec fn run(s: Seq<char>, at: int, class: CharClass) -> nat
    decreases remaining(s, at),
{
    if 0 <= at < s.len() && in_class(s[at], class) {
        1 + run(s, at + 1, class)
    } else {
        0
    }
}

/// The length of the run of blanks at `at`: the white space that may stand
/// between two tokens.
pub open spec fn blanks(s: Seq<char>, at: int) -> nat {
    run(s, at, CharClass::Blank)
}

/// The smaller of two numbers.
pub open spec fn at_most(n: nat, limit: nat) -> nat {
    if n <= limit {
        n
    } else {
        limit
    }
}

/// The results of a list that hold no error, or the first error among them.
pub open spec fn all_or_first_error<T>(results: Seq<Read<T>>) -> Read<Seq<T>>
    decreases results.len(),
{
    if results.len() == 0 {
        Ok(Seq::empty())
    } else {
        match all_or_first_error(results.drop_last()) {
            Err(e) => Err(e),
            Ok(values) => match results.last() {
                Err(e) => Err(e),
                Ok(v) => Ok(values.push(v)),
            },
        }
    }
}

/// An identifier: a letter or `_`, then one or more letters, digits or `_`,
/// as many as there are. It gives the identifier's length, which is 2 at
/// least.
pub open spec fn identifier(s: Seq<char>, at: int) -> Option<nat> {
    if 0 <= at < s.len() && is_identifier_start(s[at]) && run(
        s,
        at + 1,
        CharClass::IdentifierPart,
    ) >= 1 {
        Some(1 + run(s, at + 1, CharClass::IdentifierPart))
    } else {
        None
    }
}

/// A comparison operator: `eq`, `ne`, `gt`, `ge`, `lt`, `le` or `has`.
pub open spec fn comparison_operator(s: Seq<char>, at: int) -> Option<(CompareOperator, nat)> {
    if has2(s, at, 'e', 'q') {
        Some((CompareOperator::Equal, 2))
    } else if has2(s, at, 'n', 'e') {
        Some((CompareOperator::NotEqual, 2))
    } else if has2(s, at, 'g', 't') {
        Some((CompareOperator::GreaterThan, 2))
    } else if has2(s, at, 'g', 'e') {
        Some((CompareOperator::GreaterOrEqual, 2))
    } else if has2(s, at, 'l', 't') {
        Some((CompareOperator::LessThan, 2))
    } else if has2(s, at, 'l', 'e') {
        Some((CompareOperator::LessOrEqual, 2))
    } else if has3(s, at, 'h', 'a', 's') {
        Some((CompareOperator::Has, 3))
    } else {
        None
    }
}

/// The quantifier of a lambda: `any` or `all`.
pub open spec fn lambda_operator(s: Seq<char>, at: int) -> Option<(LambdaOperator, nat)> {
    if has3(s, at, 'a', 'n', 'y') {
        Some((LambdaOperator::Any, 3))
    } else if has3(s, at, 'a', 'l', 'l') {
        Some((LambdaOperator::All, 3))
    } else {
        None
    }
}

/// Whether the text holds at `at` the letter `lower` or the letter `upper`.
pub open spec fn has_letter(s: Seq<char>, at: int, lower: char, upper: char) -> bool {
    has_char(s, at, lower) || has_char(s, at, upper)
}

/// `true` or `false`, each letter in either case.
pub open spec fn bool_value(s: Seq<char>, at: int) -> Option<(bool, nat)> {
    if has_letter(s, at, 't', 'T') && has_letter(s, at + 1, 'r', 'R') && has_letter(
        s,
        at + 2,
        'u',
        'U',
    ) && has_letter(s, at + 3, 'e', 'E') {
        Some((true, 4))
    } else if has_letter(s, at, 'f', 'F') && has_letter(s, at + 1, 'a', 'A') && has_letter(
        s,
        at + 2,
        'l',
        'L',
    ) && has_letter(s, at + 3, 's', 'S') && has_letter(s, at + 4, 'e', 'E') {
        Some((false, 5))
    } else {
        None
    }
}

/// `null`, each letter in either case.
pub open spec fn null_value(s: Seq<char>, at: int) -> bool {
    has_letter(s, at, 'n', 'N') && has_letter(s, at + 1, 'u', 'U') && has_letter(
        s,
        at + 2,
        'l',
        'L',
    ) && has_letter(s, at + 3, 'l', 'L')
}

/// The length of a number at `at`, or 0 where there is none: one or more
/// digits, then if a point follows, the point and the digits after it.
pub open spec fn number_length(s: Seq<char>, at: int) -> nat {
    let whole = run(s, at, CharClass::Digit);
    if whole == 0 {
        0
    } else if has_char(s, at + whole, '.') {
        whole + 1 + run(s, at + whole + 1, CharClass::Digit)
    } else {
        whole
    }
}

/// Whether `unscaled` and `scale` give a number with a fraction whose text
/// needs neither an exponent nor zeros after the point before its digits:
/// the digits of a positive integer, and a scale from 1 to their count.
pub open spec fn is_plain_fraction(unscaled: Seq<char>, scale: i64) -> bool {
    &&& is_canonical_digits(unscaled)
    &&& unscaled[0] != '0'
    &&& 0 < scale <= unscaled.len()
}

/// The digits before the point in the text of a plain fraction: those of
/// `unscaled` but for the last `scale`, or `0` where none is left.
pub open spec fn integer_digits(unscaled: Seq<char>, scale: i64) -> Seq<char> {
    if scale < unscaled.len() {
        unscaled.subrange(0, unscaled.len() - scale)
    } else {
        seq!['0']
    }
}

/// The digits after the point in the text of a plain fraction: the last
/// `scale` digits of `unscaled`.
pub open spec fn fraction_digits(unscaled: Seq<char>, scale: i64) -> Seq<char> {
    if scale < unscaled.len() {
        unscaled.subrange(unscaled.len() - scale, unscaled.len() as int)
    } else {
        unscaled
    }
}

/// The text of a plain fraction: its digits with a point before the last
/// `scale` of them, and with `0` before the point where no digit is left
/// there.
pub open spec fn fraction_text(unscaled: Seq<char>, scale: i64) -> Seq<char> {
    integer_digits(unscaled, scale) + seq!['.'] + fraction_digits(unscaled, scale)
}

/// A number: what the decimal library reads from its text.
pub open spec fn number_value(s: Seq<char>, at: int) -> Match<ValueView> {
    let n = number_length(s, at);
    if n == 0 {
        None
    } else {
        Some(
            (
                match decimal_of_text(s.subrange(at, at + n)) {
                    Some((unscaled, scale)) => Ok(ValueView::Number(unscaled, scale)),
                    None => Err(ParseError::ParsingNumber),
                },
                n,
            ),
        )
    }
}

/// Whether the text holds at `at` five groups of 8, 4, 4, 4 and 12
/// hexadecimal digits with a hyphen between one and the next.
pub open spec fn uuid_shape(s: Seq<char>, at: int) -> bool {
    &&& 0 <= at && at + 36 <= s.len()
    &&& forall|i: int|
        0 <= i < 36 ==> if i == 8 || i == 13 || i == 18 || i == 23 {
            #[trigger] s[at + i] == '-'
        } else {
            is_hex(s[at + i])
        }
}

/// A UUID: the 128 bits that its 32 hexadecimal digits write.
pub open spec fn uuid_value(s: Seq<char>, at: int) -> Match<ValueView> {
    if uuid_shape(s, at) {
        Some(
            (
                Ok(ValueView::Uuid(uuid_of_text(s.subrange(at, at + 36)))),
                36,
            ),
        )
    } else {
        None
    }
}

/// Whether the text holds at `at` four digits, a hyphen, two digits, a hyphen
/// and two digits.
pub open spec fn date_shape(s: Seq<char>, at: int) -> bool {
    &&& 0 <= at && at + 10 <= s.len()
    &&& forall|i: int|
        0 <= i < 10 ==> if i == 4 || i == 7 {
            #[trigger] s[at + i] == '-'
        } else {
            is_digit(s[at + i])
        }
}

/// A date `YYYY-MM-DD`: what the date library reads from its 10 characters.
pub open spec fn date(s: Seq<char>, at: int) -> Match<Date> {
    if date_shape(s, at) {
        Some(
            (
                match date_of_text(s.subrange(at, at + 10), "%Y-%m-%d"@) {
                    Some(d) => Ok(d),
                    None => Err(ParseError::ParsingDate),
                },
                10,
            ),
        )
    } else {
        None
    }
}

/// The length of hours and minutes at `at`, or 0 where there are none: one
/// or two digits, a colon and two digits.
pub open spec fn hours_minutes_length(s: Seq<char>, at: int) -> nat {
    let hours = at_most(run(s, at, CharClass::Digit), 2);
    if hours >= 1 && has_char(s, at + hours, ':') && run(s, at + hours + 1, CharClass::Digit)
        >= 2 {
        hours + 3
    } else {
        0
    }
}

/// The length of the seconds at `at`, or 0 where there are none: a colon and
/// two digits.
pub open spec fn seconds_length(s: Seq<char>, at: int) -> nat {
    if has_char(s, at, ':') && run(s, at + 1, CharClass::Digit) >= 2 {
        3
    } else {
        0
    }
}

/// The length of the fraction of a second at `at`, or 0 where there is none:
/// a point and one to nine digits, as many as there are.
pub open spec fn fraction_length(s: Seq<char>, at: int) -> nat {
    if has_char(s, at, '.') && run(s, at + 1, CharClass::Digit) >= 1 {
        1 + at_most(run(s, at + 1, CharClass::Digit), 9)
    } else {
        0
    }
}

/// A time of day: hours and minutes, then seconds if they follow, then a
/// fraction if it follows. With seconds it is read with them, and with the
/// fraction if there is one. Without seconds only hours and minutes are
/// read, and a fraction is taken and dropped.
pub open spec fn time(s: Seq<char>, at: int) -> Match<Time> {
    let hm = hours_minutes_length(s, at);
    let sec = seconds_length(s, at + hm);
    let frac = fraction_length(s, at + hm + sec);
    if hm == 0 {
        None
    } else {
        let read = if sec == 0 {
            time_of_text(s.subrange(at, at + hm), "%H:%M"@)
        } else if frac == 0 {
            time_of_text(s.subrange(at, at + hm + sec), "%H:%M:%S"@)
        } else {
            time_of_text(s.subrange(at, at + hm + sec + frac), "%H:%M:%S%.f"@)
        };
        Some(
            (
                match read {
                    Some(t) => Ok(t),
                    None => Err(ParseError::ParsingTime),
                },
                hm + sec + frac,
            ),
        )
    }
}

/// Whether the text holds a sign and two digits at `at`.
pub open spec fn signed_hours(s: Seq<char>, at: int) -> bool {
    (has_char(s, at, '+') || has_char(s, at, '-')) && run(s, at + 1, CharClass::Digit) >= 2
}

/// What the date library reads as an offset from `text`.
pub open spec fn offset_read(text: Seq<char>) -> Read<int> {
    match offset_of_text(text) {
        Some(seconds) => Ok(seconds as int),
        None => Err(ParseError::ParsingTimeZone),
    }
}

/// An offset from UTC, in seconds: `Z`, which is read as `+0000`; or a sign,
/// two digits, a colon or none, and two digits; or a sign and two digits,
/// which are read with `00` after them.
pub open spec fn zone_offset(s: Seq<char>, at: int) -> Match<int> {
    if has_char(s, at, 'Z') {
        Some((offset_read("+0000"@), 1))
    } else if signed_hours(s, at) {
        let colon: nat = if has_char(s, at + 3, ':') {
            1
        } else {
            0
        };
        if run(s, at + 3 + colon, CharClass::Digit) >= 2 {
            Some((offset_read(s.subrange(at, at + 5 + colon)), 5 + colon))
        } else {
            Some((offset_read(s.subrange(at, at + 3) + "00"@), 3))
        }
    } else {
        None
    }
}

/// The name of a time zone: a letter or one of `-`, `_`, `/`, `+`, then one
/// or more of these or digits, as many as there are. It gives the name, or
/// the error for a name that is not known.
pub open spec fn zone_name(s: Seq<char>, at: int) -> Match<Seq<char>> {
    let more = run(s, at + 1, CharClass::ZonePart);
    if 0 <= at < s.len() && is_zone_start(s[at]) && more >= 1 {
        let name = s.subrange(at, at + 1 + more);
        Some(
            (
                if zone_is_known(name) {
                    Ok(name)
                } else {
                    Err(ParseError::ParsingTimeZoneNamed)
                },
                1 + more,
            ),
        )
    } else {
        None
    }
}

/// The instant of a local date and time at an offset: the error of the date,
/// else that of the time, else that of the offset, else the earliest instant
/// at which clocks at that offset show the date and time.
pub open spec fn instant_by_offset(d: Read<Date>, t: Read<Time>, z: Read<int>) -> Read<ValueView> {
    match (d, t, z) {
        (Err(e), _, _) => Err(e),
        (Ok(_), Err(e), _) => Err(e),
        (Ok(_), Ok(_), Err(e)) => Err(e),
        (Ok(d), Ok(t), Ok(z)) => match instant_at_offset(
            d.year,
            d.month,
            d.day,
            t.second_of_day,
            t.nanosecond,
            z as i32,
        ) {
            Some(instant) => Ok(ValueView::DateTime(instant)),
            None => Err(ParseError::ParsingDateTime),
        },
    }
}

/// The instant of a local date and time in a named zone: the error of the
/// date, else that of the time, else that of the name, else the earliest
/// instant at which clocks of that zone show the date and time.
pub open spec fn instant_by_name(d: Read<Date>, t: Read<Time>, z: Read<Seq<char>>) -> Read<
    ValueView,
> {
    match (d, t, z) {
        (Err(e), _, _) => Err(e),
        (Ok(_), Err(e), _) => Err(e),
        (Ok(_), Ok(_), Err(e)) => Err(e),
        (Ok(d), Ok(t), Ok(z)) => match instant_in_zone(
            d.year,
            d.month,
            d.day,
            t.second_of_day,
            t.nanosecond,
            z,
        ) {
            Some(instant) => Ok(ValueView::DateTime(instant)),
            None => Err(ParseError::ParsingDateTime),
        },
    }
}

/// A date and time: a date, `T`, a time, and an offset or else the name of a
/// time zone.
pub open spec fn datetime_value(s: Seq<char>, at: int) -> Match<ValueView> {
    match date(s, at) {
        Some((d, _)) if has_char(s, at + 10, 'T') => match time(s, at + 11) {
            Some((t, tn)) => match zone_offset(s, at + 11 + tn) {
                Some((z, zn)) => Some((instant_by_offset(d, t, z), 11 + tn + zn)),
                None => match zone_name(s, at + 11 + tn) {
                    Some((z, zn)) => Some((instant_by_name(d, t, z), 11 + tn + zn)),
                    None => None,
                },
            },
            None => None,
        },
        _ => None,
    }
}

/// Whether `t` is the text of an instant in UTC to the millisecond: a date,
/// `T`, hours, minutes and seconds of two digits each with colons between
/// them, a point, three digits and `Z`.
pub open spec fn instant_shape(t: Seq<char>) -> bool {
    &&& t.len() == 24
    &&& date_shape(t, 0)
    &&& t[10] == 'T'
    &&& is_digit(t[11]) && is_digit(t[12]) && t[13] == ':'
    &&& is_digit(t[14]) && is_digit(t[15]) && t[16] == ':'
    &&& is_digit(t[17]) && is_digit(t[18]) && t[19] == '.'
    &&& is_digit(t[20]) && is_digit(t[21]) && is_digit(t[22]) && t[23] == 'Z'
}

/// The value of a digit in base 16, and 0 for any other character.
pub open spec fn hex_digit_value(c: char) -> nat {
    if is_digit(c) {
        (c as int - '0' as int) as nat
    } else if 'a' <= c && c <= 'f' {
        (c as int - 'a' as int + 10) as nat
    } else if 'A' <= c && c <= 'F' {
        (c as int - 'A' as int + 10) as nat
    } else {
        0
    }
}

/// The number that `digits` writes in base 16.
pub open spec fn hex_value(digits: Seq<char>) -> nat
    decreases digits.len(),
{
    if digits.len() == 0 {
        0
    } else {
        hex_value(digits.drop_last()) * 16 + hex_digit_value(digits.last())
    }
}

/// The character of the code point that `digits` writes in base 16, or the
/// error where that is no Unicode scalar value.
pub open spec fn code_point(digits: Seq<char>) -> Read<char> {
    let code = hex_value(digits);
    if code <= 0xFFFF_FFFF && is_scalar_value(code as u32) {
        Ok(code as u32 as char)
    } else {
        Err(ParseError::ParsingUnicodeCodePoint)
    }
}

/// What may follow a backslash in a string: one of `'`, `n`, `r`, `t`, `\`,
/// or `u` and one to eight hexadecimal digits, as many as there are.
pub open spec fn escape(s: Seq<char>, at: int) -> Match<char> {
    if has_char(s, at, '\'') {
        Some((Ok('\''), 1))
    } else if has_char(s, at, 'n') {
        Some((Ok('\n'), 1))
    } else if has_char(s, at, 'r') {
        Some((Ok('\r'), 1))
    } else if has_char(s, at, 't') {
        Some((Ok('\t'), 1))
    } else if has_char(s, at, '\\') {
        Some((Ok('\\'), 1))
    } else if has_char(s, at, 'u') && run(s, at + 1, CharClass::Hex) >= 1 {
        let n = at_most(run(s, at + 1, CharClass::Hex), 8);
        Some((code_point(s.subrange(at + 1, at + 1 + n)), 1 + n))
    } else {
        None
    }
}

/// The characters of a string from `at` up to the quote that ends it or to
/// the end of the text, and how many characters of text they took. A
/// backslash with an escape after it is the character that the escape names;
/// any other character but the quote, a backslash too, is itself.
pub open spec fn string_body(s: Seq<char>, at: int) -> (Seq<Read<char>>, nat)
    decreases remaining(s, at),
{
    if 0 <= at < s.len() {
        match escape(s, at + 1) {
            Some((c, n)) if s[at] == '\\' => {
                let (rest, m) = string_body(s, at + 1 + n);
                (seq![c] + rest, 1 + n + m)
            },
            _ => if s[at] != '\'' {
                let (rest, m) = string_body(s, at + 1);
                (seq![Ok(s[at])] + rest, 1 + m)
            } else {
                (Seq::empty(), 0)
            },
        }
    } else {
        (Seq::empty(), 0)
    }
}

/// A string between single quotes.
pub open spec fn string_value(s: Seq<char>, at: int) -> Match<ValueView> {
    let (body, n) = string_body(s, at + 1);
    if has_char(s, at, '\'') && has_char(s, at + 1 + n, '\'') {
        Some(
            (
                match all_or_first_error(body) {
                    Ok(chars) => Ok(ValueView::String(chars)),
                    Err(e) => Err(e),
                },
                n + 2,
            ),
        )
    } else {
        None
    }
}

/// A time of day as a literal.
pub open spec fn time_value(s: Seq<char>, at: int) -> Match<ValueView> {
    match time(s, at) {
        Some((Ok(t), n)) => Some((Ok(ValueView::Time(t)), n)),
        Some((Err(e), n)) => Some((Err(e), n)),
        None => None,
    }
}

/// A date as a literal.
pub open spec fn date_value(s: Seq<char>, at: int) -> Match<ValueView> {
    match date(s, at) {
        Some((Ok(d), n)) => Some((Ok(ValueView::Date(d)), n)),
        Some((Err(e), n)) => Some((Err(e), n)),
        None => None,
    }
}

/// A literal: the first of a string, a date and time, a date, a time, a
/// UUID, a number, a Boolean and `null` that the text holds at `at`.
pub open spec fn value(s: Seq<char>, at: int) -> Match<ValueView> {
    if string_value(s, at) is Some {
        string_value(s, at)
    } else if datetime_value(s, at) is Some {
        datetime_value(s, at)
    } else if date_value(s, at) is Some {
        date_value(s, at)
    } else if time_value(s, at) is Some {
        time_value(s, at)
    } else if uuid_value(s, at) is Some {
        uuid_value(s, at)
    } else if number_value(s, at) is Some {
        number_value(s, at)
    } else {
        match bool_value(s, at) {
            Some((b, n)) => Some((Ok(ValueView::Bool(b)), n)),
            None => if null_value(s, at) {
                Some((Ok(ValueView::Null), 4))
            } else {
                None
            },
        }
    }
}

/// An alias: `@` and an identifier. Its name holds the `@`.
pub open spec fn alias(s: Seq<char>, at: int) -> Match<ExprView> {
    match identifier(s, at + 1) {
        Some(n) if has_char(s, at, '@') => Some(
            (Ok(ExprView::Alias(s.subrange(at, at + 1 + n))), 1 + n),
        ),
        _ => None,
    }
}

} // verus!
