//! Reading literals from a text, as the grammar describes them.

use vstd::prelude::*;
use super::errors::ParseError;
use super::grammar::{all_or_first_error, bool_value, date, date_shape, datetime_value, escape, fraction_length, hex_digit_value, hex_value, hours_minutes_length, instant_by_name, instant_by_offset, is_digit, is_hex, null_value, number_length, number_value, offset_read, seconds_length, signed_hours, string_body, string_value, time, uuid_shape, uuid_value, value, zone_name, zone_offset, CharClass, Match, Read};
use super::literals::{knows_zone, read_date, read_decimal, read_offset, read_time, read_uuid, resolve_at_offset, resolve_in_zone};
use super::model::{Date, DateTime, Time, Value, ValueView};
use super::scan::{holds, holds_letter, is_digit_char, is_hex_char, is_zone_start_char, lemma_run, run_end, run_end_within, run_reaches};
use super::text::string_of;

verus! {

/// What an executable reader gave, as the grammar states it: what was read
/// and how many characters from `at` it took.
pub open spec fn taken<T>(r: Option<(Read<T>, usize)>, at: usize) -> Match<T> {
    match r {
        Some((read, end)) => Some((read, (end - at) as nat)),
        None => None,
    }
}

/// Whether a reader that started at `at` ended within the text.
pub open spec fn in_text<T>(r: Option<(T, usize)>, at: usize, len: nat) -> bool {
    match r {
        Some((_, end)) => at <= end <= len,
        None => true,
    }
}

/// A literal that was read, as the grammar states it.
pub open spec fn value_read(r: Result<Value, ParseError>) -> Read<ValueView> {
    match r {
        Ok(v) => Ok(v@),
        Err(e) => Err(e),
    }
}

/// What a reader of literals gave, as the grammar states it.
pub open spec fn value_taken(r: Option<(Result<Value, ParseError>, usize)>, at: usize) -> Match<
    ValueView,
> {
    match r {
        Some((read, end)) => Some((value_read(read), (end - at) as nat)),
        None => None,
    }
}

/// Reads a number at `at`.
pub(crate) fn read_number_at(s: &Vec<char>, at: usize) -> (r: Option<(Result<Value, ParseError>, usize)>)
    requires
        at <= s.len(),
    ensures
        value_taken(r, at) == number_value(s@, at as int),
        in_text(r, at, s@.len()),
{
    let whole_end = run_end(s, at, CharClass::Digit);
    if whole_end == at {
        return None;
    }
    let end = if holds(s, whole_end, '.') {
        run_end(s, whole_end + 1, CharClass::Digit)
    } else {
        whole_end
    };
    assert(end - at == number_length(s@, at as int));
    let text = string_of(s, at, end);
    let read = match read_decimal(text.as_str()) {
        Some(n) => Ok(Value::Number(n)),
        None => Err(ParseError::ParsingNumber),
    };
    Some((read, end))
}

/// Whether the text holds the shape of a UUID at `at`.
fn holds_uuid_shape(s: &Vec<char>, at: usize) -> (r: bool)
    requires
        at <= s.len(),
    ensures
        r == uuid_shape(s@, at as int),
{
    if s.len() - at < 36 {
        return false;
    }
    let mut i: usize = 0;
    while i < 36
        invariant
            i <= 36,
            at + 36 <= s.len(),
            forall|j: int|
                0 <= j < i ==> if j == 8 || j == 13 || j == 18 || j == 23 {
                    #[trigger] s@[at + j] == '-'
                } else {
                    is_hex(s@[at + j])
                },
        decreases 36 - i,
    {
        let c = s[at + i];
        let fits = if i == 8 || i == 13 || i == 18 || i == 23 {
            c == '-'
        } else {
            is_hex_char(c)
        };
        if !fits {
            assert(s@[at + i] == c);
            return false;
        }
        i += 1;
    }
    true
}

/// Reads a UUID at `at`.
pub(crate) fn read_uuid_at(s: &Vec<char>, at: usize) -> (r: Option<(Result<Value, ParseError>, usize)>)
    requires
        at <= s.len(),
    ensures
        value_taken(r, at) == uuid_value(s@, at as int),
        in_text(r, at, s@.len()),
{
    if !holds_uuid_shape(s, at) {
        return None;
    }
    let text = string_of(s, at, at + 36);
    proof {
        assert forall|i: int| 0 <= i < 36 implies #[trigger] text@[0 + i] == s@[at + i] by {}
    }
    let read = match read_uuid(text.as_str()) {
        Some(bits) => Ok(Value::Uuid(bits)),
        None => Err(ParseError::ParsingUuid),
    };
    Some((read, at + 36))
}

/// Whether the text holds the shape of a date at `at`.
fn holds_date_shape(s: &Vec<char>, at: usize) -> (r: bool)
    requires
        at <= s.len(),
    ensures
        r == date_shape(s@, at as int),
{
    if s.len() - at < 10 {
        return false;
    }
    let mut i: usize = 0;
    while i < 10
        invariant
            i <= 10,
            at + 10 <= s.len(),
            forall|j: int|
                0 <= j < i ==> if j == 4 || j == 7 {
                    #[trigger] s@[at + j] == '-'
                } else {
                    is_digit(s@[at + j])
                },
        decreases 10 - i,
    {
        let c = s[at + i];
        let fits = if i == 4 || i == 7 {
            c == '-'
        } else {
            is_digit_char(c)
        };
        if !fits {
            assert(s@[at + i] == c);
            return false;
        }
        i += 1;
    }
    true
}

/// Reads a date at `at`.
pub(crate) fn read_date_at(s: &Vec<char>, at: usize) -> (r: Option<(Result<Date, ParseError>, usize)>)
    requires
        at <= s.len(),
    ensures
        taken(r, at) == date(s@, at as int),
        in_text(r, at, s@.len()),
{
    if !holds_date_shape(s, at) {
        return None;
    }
    let text = string_of(s, at, at + 10);
    let read = match read_date(text.as_str(), "%Y-%m-%d") {
        Some(d) => Ok(d),
        None => Err(ParseError::ParsingDate),
    };
    Some((read, at + 10))
}

/// Reads a time of day at `at`.
pub(crate) fn read_time_at(s: &Vec<char>, at: usize) -> (r: Option<(Result<Time, ParseError>, usize)>)
    requires
        at <= s.len(),
    ensures
        taken(r, at) == time(s@, at as int),
        in_text(r, at, s@.len()),
{
    let hours_end = run_end_within(s, at, CharClass::Digit, 2);
    if hours_end == at || !holds(s, hours_end, ':') || !run_reaches(
        s,
        hours_end + 1,
        CharClass::Digit,
        2,
    ) {
        return None;
    }
    proof {
        lemma_run(s@, hours_end + 1, CharClass::Digit);
    }
    let hm_end = hours_end + 3;
    assert(hm_end - at == hours_minutes_length(s@, at as int));
    let sec_end = if holds(s, hm_end, ':') && run_reaches(s, hm_end + 1, CharClass::Digit, 2) {
        proof {
            lemma_run(s@, hm_end + 1, CharClass::Digit);
        }
        hm_end + 3
    } else {
        hm_end
    };
    assert(sec_end - hm_end == seconds_length(s@, hm_end as int));
    let frac_end = if holds(s, sec_end, '.') && run_reaches(s, sec_end + 1, CharClass::Digit, 1) {
        run_end_within(s, sec_end + 1, CharClass::Digit, 9)
    } else {
        sec_end
    };
    assert(frac_end - sec_end == fraction_length(s@, sec_end as int));
    let read = if sec_end == hm_end {
        let text = string_of(s, at, hm_end);
        read_time(text.as_str(), "%H:%M")
    } else if frac_end == sec_end {
        let text = string_of(s, at, sec_end);
        read_time(text.as_str(), "%H:%M:%S")
    } else {
        let text = string_of(s, at, frac_end);
        read_time(text.as_str(), "%H:%M:%S%.f")
    };
    let read = match read {
        Some(t) => Ok(t),
        None => Err(ParseError::ParsingTime),
    };
    Some((read, frac_end))
}

/// What the date library reads as an offset from `text`.
fn read_offset_text(text: &str) -> (r: Result<i32, ParseError>)
    ensures
        match r {
            Ok(z) => offset_read(text@) == Ok::<int, ParseError>(z as int),
            Err(e) => offset_read(text@) == Err::<int, ParseError>(e),
        },
{
    match read_offset(text) {
        Some(z) => Ok(z),
        None => Err(ParseError::ParsingTimeZone),
    }
}

/// An offset that was read, as the grammar states it.
pub open spec fn offset_as_read(r: Result<i32, ParseError>) -> Read<int> {
    match r {
        Ok(z) => Ok(z as int),
        Err(e) => Err(e),
    }
}

/// Reads an offset from UTC at `at`.
pub(crate) fn read_zone_offset_at(s: &Vec<char>, at: usize) -> (r: Option<
    (Result<i32, ParseError>, usize),
>)
    requires
        at <= s.len(),
    ensures
        match r {
            Some((z, end)) => zone_offset(s@, at as int) == Some(
                (offset_as_read(z), (end - at) as nat),
            ),
            None => zone_offset(s@, at as int) is None,
        },
        in_text(r, at, s@.len()),
{
    if holds(s, at, 'Z') {
        return Some((read_offset_text("+0000"), at + 1));
    }
    if !((holds(s, at, '+') || holds(s, at, '-')) && run_reaches(s, at + 1, CharClass::Digit, 2)) {
        return None;
    }
    proof {
        lemma_run(s@, at + 1, CharClass::Digit);
    }
    assert(signed_hours(s@, at as int));
    let minutes_at = if holds(s, at + 3, ':') {
        at + 4
    } else {
        at + 3
    };
    if run_reaches(s, minutes_at, CharClass::Digit, 2) {
        proof {
            lemma_run(s@, minutes_at as int, CharClass::Digit);
        }
        let text = string_of(s, at, minutes_at + 2);
        Some((read_offset_text(text.as_str()), minutes_at + 2))
    } else {
        let mut text = string_of(s, at, at + 3);
        text.append("00");
        Some((read_offset_text(text.as_str()), at + 3))
    }
}

/// Reads the name of a time zone at `at`.
pub(crate) fn read_zone_name_at(s: &Vec<char>, at: usize) -> (r: Option<
    (Result<String, ParseError>, usize),
>)
    requires
        at <= s.len(),
    ensures
        match r {
            Some((Ok(name), end)) => zone_name(s@, at as int) == Some(
                (Ok::<Seq<char>, ParseError>(name@), (end - at) as nat),
            ),
            Some((Err(e), end)) => zone_name(s@, at as int) == Some(
                (Err::<Seq<char>, ParseError>(e), (end - at) as nat),
            ),
            None => zone_name(s@, at as int) is None,
        },
        in_text(r, at, s@.len()),
{
    if !(at < s.len() && is_zone_start_char(s[at])) {
        return None;
    }
    let end = run_end(s, at + 1, CharClass::ZonePart);
    if end == at + 1 {
        return None;
    }
    let name = string_of(s, at, end);
    if knows_zone(name.as_str()) {
        Some((Ok(name), end))
    } else {
        Some((Err(ParseError::ParsingTimeZoneNamed), end))
    }
}

/// Resolves a local date and time at an offset.
fn resolve_by_offset(
    d: Result<Date, ParseError>,
    t: Result<Time, ParseError>,
    z: Result<i32, ParseError>,
) -> (r: Result<Value, ParseError>)
    ensures
        value_read(r) == instant_by_offset(d, t, offset_as_read(z)),
{
    let d = match d {
        Ok(d) => d,
        Err(e) => {
            return Err(e);
        },
    };
    let t = match t {
        Ok(t) => t,
        Err(e) => {
            return Err(e);
        },
    };
    let z = match z {
        Ok(z) => z,
        Err(e) => {
            return Err(e);
        },
    };
    match resolve_at_offset(d, t, z) {
        Some(instant) => Ok(Value::DateTime(instant)),
        None => Err(ParseError::ParsingDateTime),
    }
}

/// A zone name that was read, as the grammar states it.
pub open spec fn name_as_read(r: Result<String, ParseError>) -> Read<Seq<char>> {
    match r {
        Ok(name) => Ok(name@),
        Err(e) => Err(e),
    }
}

/// Resolves a local date and time in a named zone.
fn resolve_by_name(
    d: Result<Date, ParseError>,
    t: Result<Time, ParseError>,
    z: Result<String, ParseError>,
) -> (r: Result<Value, ParseError>)
    ensures
        value_read(r) == instant_by_name(d, t, name_as_read(z)),
{
    let d = match d {
        Ok(d) => d,
        Err(e) => {
            return Err(e);
        },
    };
    let t = match t {
        Ok(t) => t,
        Err(e) => {
            return Err(e);
        },
    };
    let z = match z {
        Ok(z) => z,
        Err(e) => {
            return Err(e);
        },
    };
    match resolve_in_zone(d, t, z.as_str()) {
        Some(instant) => Ok(Value::DateTime(instant)),
        None => Err(ParseError::ParsingDateTime),
    }
}

/// Reads a date and time at `at`.
pub(crate) fn read_datetime_at(s: &Vec<char>, at: usize) -> (r: Option<
    (Result<Value, ParseError>, usize),
>)
    requires
        at <= s.len(),
    ensures
        value_taken(r, at) == datetime_value(s@, at as int),
        in_text(r, at, s@.len()),
{
    let (d, date_end) = match read_date_at(s, at) {
        Some(m) => m,
        None => {
            return None;
        },
    };
    if !holds(s, date_end, 'T') {
        return None;
    }
    let (t, time_end) = match read_time_at(s, date_end + 1) {
        Some(m) => m,
        None => {
            return None;
        },
    };
    match read_zone_offset_at(s, time_end) {
        Some((z, end)) => Some((resolve_by_offset(d, t, z), end)),
        None => match read_zone_name_at(s, time_end) {
            Some((z, end)) => Some((resolve_by_name(d, t, z), end)),
            None => None,
        },
    }
}

/// Sixteen to the power `n`.
pub open spec fn pow16(n: nat) -> nat
    decreases n,
{
    if n == 0 {
        1
    } else {
        16 * pow16((n - 1) as nat)
    }
}

/// A number of `n` digits in base 16 is less than sixteen to the power `n`.
proof fn lemma_hex_value_bound(digits: Seq<char>)
    ensures
        hex_value(digits) < pow16(digits.len()),
    decreases digits.len(),
{
    if digits.len() > 0 {
        lemma_hex_value_bound(digits.drop_last());
    }
}

/// The value of a hexadecimal digit.
fn hex_digit(c: char) -> (r: u32)
    requires
        is_hex(c),
    ensures
        r == hex_digit_value(c),
        r < 16,
{
    if '0' <= c && c <= '9' {
        c as u32 - '0' as u32
    } else if 'a' <= c && c <= 'f' {
        c as u32 - 'a' as u32 + 10
    } else {
        c as u32 - 'A' as u32 + 10
    }
}

/// The number that the characters from `from` up to `to` write in base 16.
fn hex_number(s: &Vec<char>, from: usize, to: usize) -> (r: u32)
    requires
        from <= to <= s.len(),
        to - from <= 8,
        forall|i: int| from <= i < to ==> is_hex(#[trigger] s@[i]),
    ensures
        r == hex_value(s@.subrange(from as int, to as int)),
{
    let mut acc: u64 = 0;
    let mut i: usize = from;
    proof {
        reveal_with_fuel(pow16, 9);
        assert(pow16(8) == 0x1_0000_0000);
    }
    while i < to
        invariant
            from <= i <= to <= s.len(),
            to - from <= 8,
            forall|j: int| from <= j < to ==> is_hex(#[trigger] s@[j]),
            acc == hex_value(s@.subrange(from as int, i as int)),
            acc < pow16((i - from) as nat),
            pow16(8) == 0x1_0000_0000,
        decreases to - i,
    {
        proof {
            lemma_pow16_monotonic((i - from) as nat, 8);
            let next = s@.subrange(from as int, i + 1);
            assert(next.drop_last() =~= s@.subrange(from as int, i as int));
            assert(next.last() == s@[i as int]);
        }
        acc = acc * 16 + hex_digit(s[i]) as u64;
        i += 1;
    }
    proof {
        lemma_pow16_monotonic((to - from) as nat, 8);
    }
    acc as u32
}

/// Powers of sixteen grow.
proof fn lemma_pow16_monotonic(a: nat, b: nat)
    requires
        a <= b,
    ensures
        pow16(a) <= pow16(b),
    decreases b,
{
    if a < b {
        lemma_pow16_monotonic(a, (b - 1) as nat);
    }
}

/// Reads at `at` what may follow a backslash in a string.
pub(crate) fn read_escape_at(s: &Vec<char>, at: usize) -> (r: Option<(Result<char, ParseError>, usize)>)
    requires
        at <= s.len(),
    ensures
        taken(r, at) == escape(s@, at as int),
        in_text(r, at, s@.len()),
        match r {
            Some((_, end)) => at < end,
            None => true,
        },
{
    if at >= s.len() {
        return None;
    }
    let c = s[at];
    if c == '\'' {
        Some((Ok('\''), at + 1))
    } else if c == 'n' {
        Some((Ok('\n'), at + 1))
    } else if c == 'r' {
        Some((Ok('\r'), at + 1))
    } else if c == 't' {
        Some((Ok('\t'), at + 1))
    } else if c == '\\' {
        Some((Ok('\\'), at + 1))
    } else if c == 'u' {
        let end = run_end_within(s, at + 1, CharClass::Hex, 8);
        if end == at + 1 {
            return None;
        }
        proof {
            lemma_run(s@, at + 1, CharClass::Hex);
            lemma_hex_value_bound(s@.subrange(at + 1, end as int));
            reveal_with_fuel(pow16, 9);
            lemma_pow16_monotonic((end - at - 1) as nat, 8);
        }
        let code = hex_number(s, at + 1, end);
        let read = match char::from_u32(code) {
            Some(ch) => Ok(ch),
            None => Err(ParseError::ParsingUnicodeCodePoint),
        };
        Some((read, end))
    } else {
        None
    }
}

/// The characters that were read so far, and the first error among them.
pub open spec fn body_read(text: Seq<char>, failed: Option<ParseError>) -> Read<Seq<char>> {
    match failed {
        Some(e) => Err(e),
        None => Ok(text),
    }
}

/// A list of results grown by one gives the first error of the old list,
/// else that of the new result, else the old values and then the new one.
pub proof fn lemma_all_or_first_error_push<T>(results: Seq<Read<T>>, last: Read<T>)
    ensures
        all_or_first_error(results.push(last)) == match all_or_first_error(results) {
            Err(e) => Err::<Seq<T>, ParseError>(e),
            Ok(values) => match last {
                Err(e) => Err(e),
                Ok(v) => Ok(values.push(v)),
            },
        },
{
    assert(results.push(last).drop_last() =~= results);
}

/// Reads a string between single quotes at `at`.
pub(crate) fn read_string_at(s: &Vec<char>, at: usize) -> (r: Option<(Result<Value, ParseError>, usize)>)
    requires
        at <= s.len(),
    ensures
        value_taken(r, at) == string_value(s@, at as int),
        in_text(r, at, s@.len()),
{
    if !holds(s, at, '\'') {
        return None;
    }
    let mut text = String::new();
    let mut failed: Option<ParseError> = None;
    let mut i: usize = at + 1;
    let ghost mut done: Seq<Read<char>> = Seq::empty();
    assert(done + string_body(s@, i as int).0 =~= string_body(s@, i as int).0);
    loop
        invariant
            at < i <= s.len(),
            string_body(s@, at + 1).0 == done + string_body(s@, i as int).0,
            string_body(s@, at + 1).1 == (i - at - 1) + string_body(s@, i as int).1,
            all_or_first_error(done) == body_read(text@, failed),
        ensures
            at < i <= s.len(),
            string_body(s@, at + 1).0 == done,
            string_body(s@, at + 1).1 == (i - at - 1),
            all_or_first_error(done) == body_read(text@, failed),
        decreases s.len() - i,
    {
        if i >= s.len() {
            assert(done + Seq::<Read<char>>::empty() =~= done);
            break;
        }
        let c = s[i];
        let escaped = if c == '\\' {
            read_escape_at(s, i + 1)
        } else {
            None
        };
        let ghost rest_before = string_body(s@, i as int).0;
        match escaped {
            Some((read, end)) => {
                proof {
                    lemma_all_or_first_error_push(done, read);
                    let rest = string_body(s@, end as int).0;
                    assert(rest_before == seq![read] + rest);
                    assert(done + rest_before =~= done.push(read) + rest);
                    done = done.push(read);
                }
                match read {
                    Ok(ch) => {
                        if failed.is_none() {
                            text.push(ch);
                        }
                    },
                    Err(e) => {
                        if failed.is_none() {
                            failed = Some(e);
                        }
                    },
                }
                i = end;
            },
            None => {
                if c == '\'' {
                    assert(done + Seq::<Read<char>>::empty() =~= done);
                    break;
                }
                proof {
                    let read = Ok::<char, ParseError>(c);
                    lemma_all_or_first_error_push(done, read);
                    let rest = string_body(s@, i + 1).0;
                    assert(rest_before == seq![read] + rest);
                    assert(done + rest_before =~= done.push(read) + rest);
                    done = done.push(read);
                }
                if failed.is_none() {
                    text.push(c);
                }
                i += 1;
            },
        }
    }
    if !holds(s, i, '\'') {
        return None;
    }
    let read = match failed {
        Some(e) => Err(e),
        None => Ok(Value::String(text)),
    };
    Some((read, i + 1))
}

/// Reads `true` or `false` at `at`.
pub(crate) fn read_bool_at(s: &Vec<char>, at: usize) -> (r: Option<(bool, usize)>)
    requires
        at <= s.len(),
    ensures
        match r {
            Some((b, end)) => bool_value(s@, at as int) == Some((b, (end - at) as nat)),
            None => bool_value(s@, at as int) is None,
        },
        in_text(r, at, s@.len()),
{
    if holds_letter(s, at, 't', 'T') && holds_letter(s, at + 1, 'r', 'R') && holds_letter(
        s,
        at + 2,
        'u',
        'U',
    ) && holds_letter(s, at + 3, 'e', 'E') {
        Some((true, at + 4))
    } else if holds_letter(s, at, 'f', 'F') && holds_letter(s, at + 1, 'a', 'A') && holds_letter(
        s,
        at + 2,
        'l',
        'L',
    ) && holds_letter(s, at + 3, 's', 'S') && holds_letter(s, at + 4, 'e', 'E') {
        Some((false, at + 5))
    } else {
        None
    }
}

/// Whether the text holds `null` at `at`.
pub(crate) fn holds_null(s: &Vec<char>, at: usize) -> (r: bool)
    requires
        at <= s.len(),
    ensures
        r == null_value(s@, at as int),
        r ==> at + 4 <= s.len(),
{
    holds_letter(s, at, 'n', 'N') && holds_letter(s, at + 1, 'u', 'U') && holds_letter(
        s,
        at + 2,
        'l',
        'L',
    ) && holds_letter(s, at + 3, 'l', 'L')
}

/// Reads a literal at `at`.
pub(crate) fn read_value_at(s: &Vec<char>, at: usize) -> (r: Option<(Result<Value, ParseError>, usize)>)
    requires
        at <= s.len(),
    ensures
        value_taken(r, at) == value(s@, at as int),
        in_text(r, at, s@.len()),
{
    let r = read_string_at(s, at);
    if r.is_some() {
        return r;
    }
    let r = read_datetime_at(s, at);
    if r.is_some() {
        return r;
    }
    match read_date_at(s, at) {
        Some((Ok(d), end)) => {
            return Some((Ok(Value::Date(d)), end));
        },
        Some((Err(e), end)) => {
            return Some((Err(e), end));
        },
        None => {},
    }
    match read_time_at(s, at) {
        Some((Ok(t), end)) => {
            return Some((Ok(Value::Time(t)), end));
        },
        Some((Err(e), end)) => {
            return Some((Err(e), end));
        },
        None => {},
    }
    let r = read_uuid_at(s, at);
    if r.is_some() {
        return r;
    }
    let r = read_number_at(s, at);
    if r.is_some() {
        return r;
    }
    match read_bool_at(s, at) {
        Some((b, end)) => Some((Ok(Value::Bool(b)), end)),
        None => if holds_null(s, at) {
            Some((Ok(Value::Null), at + 4))
        } else {
            None
        },
    }
}

} // verus!
