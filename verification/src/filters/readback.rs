//! Literals that read back from their text, whatever stands around it.
//!
//! The text of a UUID is stated in full, and a UUID is shown to read back.
//! What other crates write for numbers, dates, times and instants is known
//! only where they are called. Each rendering therefore reports what it
//! learned of the literals it wrote, and from that the grammar is shown to
//! read them back.

use vstd::prelude::*;
use super::errors::ParseError;
use super::grammar::{
    at_most, date, date_shape, datetime_value, fraction_digits, fraction_length, fraction_text,
    has_char, hours_minutes_length, identifier, integer_digits, is_plain_fraction,
    instant_shape, zone_offset,
    in_class, is_digit, is_hex, number_length, run, seconds_length, time, uuid_shape, CharClass,
};
use super::literals::{
    date_of_text, date_to_text, decimal_of_text, decimal_to_text, is_canonical_digits,
    instant_to_text, time_to_text,
};
use super::uuids::{
    lemma_text_has_shape, lemma_text_writes_the_bits, uuid_of_text, uuid_to_text,
};
use super::model::{is_plain_instant, Date, DateTime, ExprView, Time, ValueView};
use super::parse::trimmed;
use super::render::{text_of, text_of_list, text_of_value};
use super::roundtrip::{
    ends_expression, faithful, faithful_expression, faithful_operand, has_text, is_alias_name,
    is_name, is_plain_string, lemma_after_expression, lemma_bool_is_read_back, lemma_no_blanks,
    lemma_no_call, lemma_null_is_read_back, lemma_plain_string_is_read_back,
    lemma_trimmed_text_parses_back, reads_back, starts_as_literal, starts_with_not,
};
use super::rules::{
    expression, lemma_expression, lemma_function_call, lemma_lambda, parse_text,
};
use super::scan::{lemma_run, lemma_run_extends};
use super::text::lemma_visible_is_no_white_space;

verus! {

/// The text `t` is the whole of what the text `s` holds at `at`.
proof fn lemma_whole(s: Seq<char>, at: int, t: Seq<char>)
    requires
        has_text(s, at, t),
    ensures
        s.subrange(at, at + t.len()) == t,
{
    assert(s.subrange(at, at + t.len()) =~= t) by {
        assert forall|i: int| 0 <= i < t.len() implies s.subrange(at, at + t.len())[i] == t[i] by {
            assert(s[at + i] == t[i]);
        }
    }
}

/// A natural number that reads back as its digits is read from them as an
/// expression.
proof fn lemma_integer_at(s: Seq<char>, at: int, u: Seq<char>)
    requires
        is_canonical_digits(u),
        decimal_of_text(u) == Some((u, 0i64)),
        has_text(s, at, u),
        ends_expression(s, at + u.len()),
    ensures
        expression(s, at) == Some(
            (Ok::<ExprView, ParseError>(ExprView::Value(ValueView::Number(u, 0))), u.len()),
        ),
{
    let end = at + u.len();
    lemma_after_expression(s, end);
    assert forall|i: int| at <= i < end implies in_class(#[trigger] s[i], CharClass::Digit) by {
        assert(s[at + (i - at)] == u[i - at]);
    }
    lemma_run_extends(s, at, end, CharClass::Digit);
    assert(run(s, end, CharClass::Digit) == 0);
    assert(s[at + 0] == u[0]);
    assert(identifier(s, at) is None);
    lemma_no_call(s, at);
    assert(!date_shape(s, at)) by {
        if u.len() > 4 {
            assert(is_digit(s[at + 4]));
        } else if end < s.len() {
            assert(!is_digit(s[at + u.len()]));
        }
    }
    assert(hours_minutes_length(s, at) == 0) by {
        if u.len() >= 3 {
            assert(is_digit(s[at + 2]));
        }
    }
    assert(!uuid_shape(s, at)) by {
        if u.len() > 8 {
            assert(is_digit(s[at + 8]));
        } else if end < s.len() {
            assert(!is_hex(s[at + u.len()]));
        }
    }
    assert(number_length(s, at) == u.len());
    lemma_whole(s, at, u);
    lemma_expression(s, at);
}

/// A natural number that the decimal library writes as its digits, and
/// reads from them, reads back.
pub proof fn lemma_integer_reads_back(u: Seq<char>)
    requires
        is_canonical_digits(u),
        decimal_to_text(u, 0) == Some(u),
        decimal_of_text(u) == Some((u, 0i64)),
    ensures
        reads_back(ValueView::Number(u, 0)),
{
    lemma_visible_is_no_white_space();
    let v = ValueView::Number(u, 0);
    assert(text_of_value(v) == Some(u));
    assert(is_digit(u[0]));
    assert(is_digit(u[u.len() - 1]));
    assert forall|s: Seq<char>, at: int|
        has_text(s, at, u) && ends_expression(s, at + u.len()) implies #[trigger] expression(s, at)
        == Some((Ok::<ExprView, ParseError>(ExprView::Value(v)), u.len())) by {
        lemma_integer_at(s, at, u);
    }
}

/// Digits, a point and digits, from which the decimal library reads a
/// number, are read as that number where they stand as an expression.
proof fn lemma_pointed_at(
    s: Seq<char>,
    at: int,
    a: Seq<char>,
    b: Seq<char>,
    u: Seq<char>,
    scale: i64,
)
    requires
        a.len() > 0,
        b.len() > 0,
        forall|i: int| 0 <= i < a.len() ==> is_digit(#[trigger] a[i]),
        forall|i: int| 0 <= i < b.len() ==> is_digit(#[trigger] b[i]),
        decimal_of_text(a + seq!['.'] + b) == Some((u, scale)),
        has_text(s, at, a + seq!['.'] + b),
        ends_expression(s, at + a.len() + 1 + b.len()),
    ensures
        expression(s, at) == Some(
            (
                Ok::<ExprView, ParseError>(ExprView::Value(ValueView::Number(u, scale))),
                a.len() + 1 + b.len(),
            ),
        ),
{
    let t = a + seq!['.'] + b;
    let p = a.len() as int;
    let end = at + t.len();
    assert(t.len() == a.len() + 1 + b.len());
    lemma_after_expression(s, end);
    assert forall|i: int| 0 <= i < t.len() implies #[trigger] s[at + i] == t[i] by {}
    assert forall|i: int| at <= i < at + p implies in_class(#[trigger] s[i], CharClass::Digit) by {
        assert(s[at + (i - at)] == t[i - at]);
        assert(t[i - at] == a[i - at]);
    }
    assert(s[at + p] == '.') by {
        assert(t[p] == '.');
    }
    assert forall|i: int| at + p + 1 <= i < end implies in_class(
        #[trigger] s[i],
        CharClass::Digit,
    ) by {
        assert(s[at + (i - at)] == t[i - at]);
        assert(t[i - at] == b[i - at - p - 1]);
    }
    lemma_run_extends(s, at, at + p, CharClass::Digit);
    assert(run(s, at + p, CharClass::Digit) == 0);
    lemma_run_extends(s, at + p + 1, end, CharClass::Digit);
    assert(run(s, end, CharClass::Digit) == 0);
    assert(number_length(s, at) == t.len());
    assert(is_digit(s[at + 0])) by {
        assert(s[at + 0] == t[0]);
        assert(t[0] == a[0]);
    }
    assert(identifier(s, at) is None);
    lemma_no_call(s, at);
    assert(!date_shape(s, at)) by {
        if p <= 4 {
            assert(s[at + p] == '.');
        } else {
            assert(is_digit(s[at + 4]));
        }
    }
    assert(hours_minutes_length(s, at) == 0) by {
        if p > 2 {
            assert(is_digit(s[at + 2]));
        }
    }
    assert(!uuid_shape(s, at)) by {
        if p < 36 {
            assert(s[at + p] == '.');
        } else {
            assert(is_digit(s[at + 8]));
        }
    }
    lemma_whole(s, at, t);
    lemma_expression(s, at);
}

/// A plain fraction that the decimal library writes as its digits with a
/// point among them, and reads from that, reads back.
pub proof fn lemma_fraction_reads_back(u: Seq<char>, scale: i64)
    requires
        is_plain_fraction(u, scale),
        decimal_to_text(u, scale) == Some(fraction_text(u, scale)),
        decimal_of_text(fraction_text(u, scale)) == Some((u, scale)),
    ensures
        reads_back(ValueView::Number(u, scale)),
{
    lemma_visible_is_no_white_space();
    let v = ValueView::Number(u, scale);
    let a = integer_digits(u, scale);
    let b = fraction_digits(u, scale);
    let t = fraction_text(u, scale);
    assert(text_of_value(v) == Some(t));
    assert(a.len() > 0 && b.len() > 0);
    assert forall|i: int| 0 <= i < a.len() implies is_digit(#[trigger] a[i]) by {
        if scale < u.len() {
            assert(a[i] == u[i]);
        }
    }
    assert forall|i: int| 0 <= i < b.len() implies is_digit(#[trigger] b[i]) by {
        if scale < u.len() {
            assert(b[i] == u[u.len() - scale + i]);
        }
    }
    assert(t.len() == a.len() + 1 + b.len());
    assert(t[0] == a[0]);
    assert(t.last() == b[b.len() - 1]);
    assert forall|s: Seq<char>, at: int|
        has_text(s, at, t) && ends_expression(s, at + t.len()) implies #[trigger] expression(s, at)
        == Some((Ok::<ExprView, ParseError>(ExprView::Value(v)), t.len())) by {
        lemma_pointed_at(s, at, a, b, u, scale);
    }
}

/// A text of the shape of a UUID, from which the UUID library reads `bits`,
/// is read as that UUID where it stands as an expression.
proof fn lemma_uuid_at(s: Seq<char>, at: int, t: Seq<char>, bits: u128)
    requires
        t.len() == 36,
        uuid_shape(t, 0),
        uuid_of_text(t) == bits,
        has_text(s, at, t),
        ends_expression(s, at + 36),
    ensures
        expression(s, at) == Some(
            (Ok::<ExprView, ParseError>(ExprView::Value(ValueView::Uuid(bits))), 36nat),
        ),
{
    assert forall|i: int| 0 <= i < 36 implies #[trigger] s[at + i] == t[0int + i] by {
        assert(s[at + i] == t[i]);
    }
    assert(uuid_shape(s, at));
    assert(is_hex(t[0int + 0]));
    assert(is_hex(t[0int + 1]));
    assert(is_hex(t[0int + 2]));
    assert(is_hex(t[0int + 4]));
    assert(t[0int + 8] == '-');
    assert(s[at + 0] == t[0]);
    assert(s[at + 1] == t[1]);
    assert(s[at + 2] == t[2]);
    assert(s[at + 4] == t[4]);
    assert(s[at + 8] == t[8]);
    // Neither a call nor a lambda: an identifier ends at the first hyphen
    // at the latest, where neither `(` nor `/` stands.
    lemma_function_call(s, at);
    lemma_lambda(s, at);
    match identifier(s, at) {
        Some(n) => {
            lemma_run(s, at + 1, CharClass::IdentifierPart);
            assert(n <= 8) by {
                if n > 8 {
                    assert(in_class(s[at + 8], CharClass::IdentifierPart));
                }
            }
            assert(n == 8) by {
                if n < 8 {
                    assert(is_hex(t[0int + n]));
                    assert(s[at + n] == t[n as int]);
                }
            }
            lemma_no_blanks(s, at + 8);
        },
        None => {},
    }
    assert(!date_shape(s, at)) by {
        assert(s[at + 4] != '-');
    }
    assert(hours_minutes_length(s, at) == 0) by {
        lemma_run(s, at, CharClass::Digit);
        if run(s, at, CharClass::Digit) >= 2 {
            assert(s[at + 2] != ':');
        } else if run(s, at, CharClass::Digit) == 1 {
            assert(s[at + 1] != ':');
        }
    }
    lemma_whole(s, at, t);
    lemma_expression(s, at);
}

/// A UUID reads back.
pub proof fn lemma_uuid_reads_back(bits: u128)
    ensures
        reads_back(ValueView::Uuid(bits)),
{
    lemma_visible_is_no_white_space();
    lemma_text_has_shape(bits);
    lemma_text_writes_the_bits(bits);
    let v = ValueView::Uuid(bits);
    let t = uuid_to_text(bits);
    assert(is_hex(t[0int + 0]));
    assert(is_hex(t[0int + 35]));
    assert forall|s: Seq<char>, at: int|
        has_text(s, at, t) && ends_expression(s, at + t.len()) implies #[trigger] expression(s, at)
        == Some((Ok::<ExprView, ParseError>(ExprView::Value(v)), t.len())) by {
        lemma_uuid_at(s, at, t, bits);
    }
}

/// A text of the shape of a date, from which the date library reads `d`, is
/// read as that date where it stands as an expression.
proof fn lemma_date_at(s: Seq<char>, at: int, t: Seq<char>, d: Date)
    requires
        t.len() == 10,
        date_shape(t, 0),
        date_of_text(t, "%Y-%m-%d"@) == Some(d),
        has_text(s, at, t),
        ends_expression(s, at + 10),
    ensures
        expression(s, at) == Some(
            (Ok::<ExprView, ParseError>(ExprView::Value(ValueView::Date(d))), 10nat),
        ),
{
    assert forall|i: int| 0 <= i < 10 implies #[trigger] s[at + i] == t[0int + i] by {
        assert(s[at + i] == t[i]);
    }
    assert(date_shape(s, at));
    assert(is_digit(t[0int + 0]));
    assert(s[at + 0] == t[0]);
    lemma_after_expression(s, at + 10);
    assert(identifier(s, at) is None);
    lemma_no_call(s, at);
    lemma_whole(s, at, t);
    lemma_expression(s, at);
}

/// A date that the date library writes in the shape of a date, and reads
/// from what it wrote, reads back.
pub proof fn lemma_date_reads_back(d: Date)
    requires
        date_to_text(d.year, d.month, d.day) matches Some(t) && t.len() == 10 && date_shape(t, 0)
            && date_of_text(t, "%Y-%m-%d"@) == Some(d),
    ensures
        reads_back(ValueView::Date(d)),
{
    lemma_visible_is_no_white_space();
    let v = ValueView::Date(d);
    let t = date_to_text(d.year, d.month, d.day)->0;
    assert(is_digit(t[0int + 0]));
    assert(is_digit(t[0int + 9]));
    assert forall|s: Seq<char>, at: int|
        has_text(s, at, t) && ends_expression(s, at + t.len()) implies #[trigger] expression(s, at)
        == Some((Ok::<ExprView, ParseError>(ExprView::Value(v)), t.len())) by {
        lemma_date_at(s, at, t, d);
    }
}

/// A run inside a text that stands in another one, with no character of the
/// class after it, is as long there as in the text alone.
proof fn lemma_run_inside(s: Seq<char>, at: int, t: Seq<char>, i: int, class: CharClass)
    requires
        has_text(s, at, t),
        0 <= i <= t.len(),
        at + t.len() == s.len() || !in_class(s[at + t.len()], class),
    ensures
        run(s, at + i, class) == run(t, i, class),
    decreases t.len() - i,
{
    if i < t.len() {
        assert(s[at + i] == t[i]);
        lemma_run_inside(s, at, t, i + 1, class);
    }
}

/// The start of a text that stands in another one is the same in both.
proof fn lemma_part(s: Seq<char>, at: int, t: Seq<char>, n: int)
    requires
        has_text(s, at, t),
        0 <= n <= t.len(),
    ensures
        s.subrange(at, at + n) == t.subrange(0, n),
{
    let a = s.subrange(at, at + n);
    let b = t.subrange(0, n);
    assert(a =~= b) by {
        assert forall|i: int| 0 <= i < n implies #[trigger] a[i] == b[i] by {
            assert(s[at + i] == t[i]);
        }
    }
}

/// A text that the grammar reads alone as a time of day, to its end, is read
/// as that time where it stands as an expression.
proof fn lemma_time_at(s: Seq<char>, at: int, t: Seq<char>, v: Time)
    requires
        time(t, 0) == Some((Ok::<Time, ParseError>(v), t.len())),
        has_text(s, at, t),
        ends_expression(s, at + t.len()),
    ensures
        expression(s, at) == Some(
            (Ok::<ExprView, ParseError>(ExprView::Value(ValueView::Time(v))), t.len()),
        ),
        t.len() > 0,
        is_digit(t[0]),
        is_digit(t.last()),
{
    let end = at + t.len();
    lemma_after_expression(s, end);
    let hours: int = at_most(run(t, 0, CharClass::Digit), 2) as int;
    let hm: int = hours_minutes_length(t, 0) as int;
    let sec: int = seconds_length(t, hm) as int;
    let frac: int = fraction_length(t, hm + sec) as int;
    assert(hm == hours + 3);
    assert(hm + sec + frac == t.len());
    lemma_run(t, 0, CharClass::Digit);
    lemma_run(t, hours + 1, CharClass::Digit);
    if hm < t.len() {
        lemma_run(t, hm + 1, CharClass::Digit);
    }
    if hm + sec < t.len() {
        lemma_run(t, hm + sec + 1, CharClass::Digit);
    }
    lemma_run_inside(s, at, t, 0, CharClass::Digit);
    lemma_run_inside(s, at, t, hours + 1, CharClass::Digit);
    assert(is_digit(t[0]));
    assert(is_digit(t[hours + 1]));
    assert(is_digit(t[hours + 2]));
    assert(s[at + 0] == t[0]);
    assert(s[at + hours] == t[hours]);
    assert(hours_minutes_length(s, at) == hm);
    if hm < t.len() {
        assert(s[at + hm] == t[hm]);
        lemma_run_inside(s, at, t, hm + 1, CharClass::Digit);
    }
    assert(seconds_length(s, at + hm) == sec);
    if sec > 0 {
        assert(is_digit(t[hm + 1]));
        assert(is_digit(t[hm + 2]));
    }
    if hm + sec < t.len() {
        assert(s[at + (hm + sec)] == t[hm + sec]);
        lemma_run_inside(s, at, t, hm + sec + 1, CharClass::Digit);
    }
    assert(fraction_length(s, at + hm + sec) == frac);
    if frac > 0 {
        assert(is_digit(t[hm + sec + frac - 1]));
    }
    assert(is_digit(t.last()));
    lemma_part(s, at, t, hm);
    lemma_part(s, at, t, hm + sec);
    lemma_part(s, at, t, hm + sec + frac);
    assert(time(s, at) == Some((Ok::<Time, ParseError>(v), t.len())));
    assert(!date_shape(s, at)) by {
        assert(s[at + hours] == ':');
    }
    assert(identifier(s, at) is None);
    lemma_no_call(s, at);
    lemma_expression(s, at);
}

/// A time of day whose text the grammar reads alone as that time, to its end,
/// reads back.
pub proof fn lemma_time_reads_back(v: Time)
    requires
        time_to_text(v.second_of_day, v.nanosecond) matches Some(t) && time(t, 0) == Some(
            (Ok::<Time, ParseError>(v), t.len()),
        ),
    ensures
        reads_back(ValueView::Time(v)),
{
    lemma_visible_is_no_white_space();
    let lit = ValueView::Time(v);
    let t = time_to_text(v.second_of_day, v.nanosecond)->0;
    assert(t.len() > 0 && is_digit(t[0]) && is_digit(t.last())) by {
        let s = t;
        assert(has_text(s, 0, t));
        lemma_time_at(s, 0, t, v);
    }
    assert forall|s: Seq<char>, at: int|
        has_text(s, at, t) && ends_expression(s, at + t.len()) implies #[trigger] expression(s, at)
        == Some((Ok::<ExprView, ParseError>(ExprView::Value(lit)), t.len())) by {
        lemma_time_at(s, at, t, v);
    }
}

/// What the rules of a date and time find in a text of the shape of an
/// instant that stands in another text.
proof fn lemma_instant_parts(s: Seq<char>, at: int, t: Seq<char>)
    requires
        instant_shape(t),
        has_text(s, at, t),
    ensures
        date_shape(s, at),
        s.subrange(at, at + 10) == t.subrange(0, 10),
        has_char(s, at + 10, 'T'),
        hours_minutes_length(s, at + 11) == 5,
        seconds_length(s, at + 16) == 3,
        fraction_length(s, at + 19) == 4,
        s.subrange(at + 11, at + 23) == t.subrange(11, 23),
        has_char(s, at + 23, 'Z'),
{
    assert forall|i: int| 0 <= i < 24 implies #[trigger] s[at + i] == t[0int + i] by {
        assert(s[at + i] == t[i]);
    }
    assert(date_shape(s, at));
    lemma_part(s, at, t, 10);
    assert(s[at + 10] == 'T');
    assert(s[at + 11] == t[11] && s[at + 12] == t[12] && s[at + 13] == t[13]);
    assert(s[at + 14] == t[14] && s[at + 15] == t[15] && s[at + 16] == t[16]);
    assert(s[at + 17] == t[17] && s[at + 18] == t[18] && s[at + 19] == t[19]);
    assert(s[at + 20] == t[20] && s[at + 21] == t[21] && s[at + 22] == t[22]);
    assert(s[at + 23] == t[23]);
    assert forall|i: int| at + 11 <= i < at + 13 implies in_class(
        #[trigger] s[i],
        CharClass::Digit,
    ) by {}
    lemma_run_extends(s, at + 11, at + 13, CharClass::Digit);
    assert(run(s, at + 13, CharClass::Digit) == 0);
    assert forall|i: int| at + 14 <= i < at + 16 implies in_class(
        #[trigger] s[i],
        CharClass::Digit,
    ) by {}
    lemma_run_extends(s, at + 14, at + 16, CharClass::Digit);
    assert forall|i: int| at + 17 <= i < at + 19 implies in_class(
        #[trigger] s[i],
        CharClass::Digit,
    ) by {}
    lemma_run_extends(s, at + 17, at + 19, CharClass::Digit);
    assert forall|i: int| at + 20 <= i < at + 23 implies in_class(
        #[trigger] s[i],
        CharClass::Digit,
    ) by {}
    lemma_run_extends(s, at + 20, at + 23, CharClass::Digit);
    assert(run(s, at + 23, CharClass::Digit) == 0);
    assert(s.subrange(at + 11, at + 23) =~= t.subrange(11, 23)) by {
        assert forall|i: int| 0 <= i < 12 implies #[trigger] s.subrange(at + 11, at + 23)[i]
            == t.subrange(11, 23)[i] by {
            assert(s[at + (11 + i)] == t[11 + i]);
        }
    }
}

/// A text of the shape of an instant holds alone what it holds in another
/// text: the rule of a date and time gives the same for both.
proof fn lemma_instant_is_local(s: Seq<char>, at: int, t: Seq<char>)
    requires
        instant_shape(t),
        has_text(s, at, t),
    ensures
        datetime_value(s, at) == datetime_value(t, 0),
{
    lemma_instant_parts(s, at, t);
    assert(has_text(t, 0, t));
    lemma_instant_parts(t, 0, t);
    assert(date(s, at) == date(t, 0));
    assert(time(s, at + 11) == time(t, 11));
    assert(zone_offset(s, at + 23) == zone_offset(t, 23));
}

/// A text of the shape of an instant, from which the grammar reads the
/// instant `v` alone, is read as that instant where it stands as an
/// expression.
proof fn lemma_instant_at(s: Seq<char>, at: int, t: Seq<char>, v: DateTime)
    requires
        instant_shape(t),
        datetime_value(t, 0) == Some(
            (Ok::<ValueView, ParseError>(ValueView::DateTime(v)), 24nat),
        ),
        has_text(s, at, t),
        ends_expression(s, at + 24),
    ensures
        expression(s, at) == Some(
            (Ok::<ExprView, ParseError>(ExprView::Value(ValueView::DateTime(v))), 24nat),
        ),
{
    lemma_instant_is_local(s, at, t);
    assert(s[at + 0] == t[0]);
    assert(is_digit(t[0int + 0]));
    assert(identifier(s, at) is None);
    lemma_no_call(s, at);
    lemma_expression(s, at);
}

/// An instant that is written in the shape of an instant, from which the
/// grammar reads it, reads back.
pub proof fn lemma_instant_reads_back(v: DateTime)
    requires
        instant_to_text(v.seconds, v.nanoseconds, true) matches Some(t) && instant_shape(t)
            && datetime_value(t, 0) == Some(
            (Ok::<ValueView, ParseError>(ValueView::DateTime(v)), 24nat),
        ),
    ensures
        reads_back(ValueView::DateTime(v)),
{
    lemma_visible_is_no_white_space();
    let lit = ValueView::DateTime(v);
    let t = instant_to_text(v.seconds, v.nanoseconds, true)->0;
    assert(is_digit(t[0int + 0]));
    assert(t.last() == 'Z');
    assert forall|s: Seq<char>, at: int|
        has_text(s, at, t) && ends_expression(s, at + t.len()) implies #[trigger] expression(s, at)
        == Some((Ok::<ExprView, ParseError>(ExprView::Value(lit)), t.len())) by {
        lemma_instant_at(s, at, t, v);
    }
}

/// What a rendering learns of a literal that it wrote, from the crate that
/// wrote it: that a natural number is written as its digits and read from
/// them; that a plain fraction is written as its digits with a point among
/// them and read from that; that a date of the years 0 to 9999 is written in the shape of a date
/// and read from that; that the grammar reads a time from its text.
pub open spec fn written_back(v: ValueView) -> bool {
    match v {
        ValueView::Number(u, scale) => {
            &&& scale == 0 && is_canonical_digits(u) ==> decimal_to_text(u, scale) == Some(u)
                && decimal_of_text(u) == Some((u, 0i64))
            &&& is_plain_fraction(u, scale) ==> decimal_to_text(u, scale) == Some(
                fraction_text(u, scale),
            ) && decimal_of_text(fraction_text(u, scale)) == Some((u, scale))
        },
        ValueView::Date(d) => match date_to_text(d.year, d.month, d.day) {
            Some(t) => 0 <= d.year <= 9999 ==> t.len() == 10 && date_shape(t, 0) && date_of_text(
                t,
                "%Y-%m-%d"@,
            ) == Some(d),
            None => true,
        },
        ValueView::Time(x) => match time_to_text(x.second_of_day, x.nanosecond) {
            Some(t) => time(t, 0) == Some((Ok::<Time, ParseError>(x), t.len())),
            None => true,
        },
        ValueView::DateTime(x) => match instant_to_text(x.seconds, x.nanoseconds, true) {
            Some(t) => is_plain_instant(x) ==> instant_shape(t) && datetime_value(t, 0) == Some(
                (Ok::<ValueView, ParseError>(ValueView::DateTime(x)), 24nat),
            ),
            None => true,
        },
        _ => true,
    }
}

/// What a rendering learns of all the literals of a tree.
pub open spec fn all_written_back(t: ExprView) -> bool
    decreases t,
{
    match t {
        ExprView::Or(l, r) | ExprView::And(l, r) => all_written_back(*l) && all_written_back(*r),
        ExprView::Not(e) => all_written_back(*e),
        ExprView::Compare(l, _, r) => all_written_back(*l) && all_written_back(*r),
        ExprView::In(l, items) => all_written_back(*l) && list_written_back(items),
        ExprView::Function(_, args) => list_written_back(args),
        ExprView::Lambda(l, _, _, body) => all_written_back(*l) && all_written_back(*body),
        ExprView::Identifier(_) => true,
        ExprView::Alias(_) => true,
        ExprView::Value(v) => written_back(v),
    }
}

/// What a rendering learns of all the literals of a list of trees.
pub open spec fn list_written_back(items: Seq<ExprView>) -> bool
    decreases items,
{
    forall|i: int| 0 <= i < items.len() ==> all_written_back(#[trigger] items[i])
}

/// Whether a literal is of a kind that reads back wherever it has a text: a
/// Boolean, `null`, a string without quote and backslash, a UUID, a date of
/// the years 0 to 9999, a time, a natural number, a plain fraction, an
/// instant of the years 0 to 9999 at a whole millisecond and in no leap
/// second.
pub open spec fn literal_readable(v: ValueView) -> bool {
    match v {
        ValueView::Null => true,
        ValueView::Bool(_) => true,
        ValueView::String(s) => is_plain_string(s),
        ValueView::Uuid(_) => true,
        ValueView::Date(d) => 0 <= d.year <= 9999,
        ValueView::Time(_) => true,
        ValueView::Number(u, scale) => (scale == 0 && is_canonical_digits(u)) || is_plain_fraction(
            u,
            scale,
        ),
        ValueView::DateTime(x) => is_plain_instant(x),
    }
}

/// Whether `t` is an expression that reads back: as `faithful_expression`,
/// with literals of the kinds that read back.
pub open spec fn readable_expression(t: ExprView) -> bool
    decreases t, 0nat,
{
    match t {
        ExprView::Function(name, args) => is_name(name) && forall|i: int|
            0 <= i < args.len() ==> readable(#[trigger] args[i]),
        ExprView::Lambda(l, _, var, body) => {
            &&& *l matches ExprView::Identifier(c)
            &&& is_name(c)
            &&& is_name(var)
            &&& readable(*body)
        },
        ExprView::Value(v) => literal_readable(v),
        ExprView::Alias(n) => is_alias_name(n),
        ExprView::Identifier(n) => is_name(n) && !starts_as_literal(n),
        _ => false,
    }
}

/// Whether `t` is an operand that reads back: as `faithful_operand`, with
/// literals of the kinds that read back.
pub open spec fn readable_operand(t: ExprView) -> bool
    decreases t, 1nat,
{
    !starts_with_not(text_of(t, true)->0) && match t {
        ExprView::Compare(l, _, r) => readable_expression(*l) && readable_expression(*r),
        ExprView::In(l, items) => readable_expression(*l) && forall|i: int|
            0 <= i < items.len() ==> readable(#[trigger] items[i]),
        ExprView::Or(l, r) | ExprView::And(l, r) => readable_operand(*l) && readable(*r),
        ExprView::Not(_) => false,
        _ => readable_expression(t),
    }
}

/// Whether `t` is a filter that reads back, whatever the crates that write
/// its literals do beyond what `written_back` says: as `faithful`, with
/// literals of the kinds that read back.
pub open spec fn readable(t: ExprView) -> bool
    decreases t, 2nat,
{
    match t {
        ExprView::Not(e) => readable(*e),
        _ => readable_operand(t),
    }
}

/// The items of a list that has a text have one each.
proof fn lemma_items_have_text(items: Seq<ExprView>, count: nat, i: int)
    requires
        count <= items.len(),
        text_of_list(items, count) is Some,
        0 <= i < count,
    ensures
        text_of(items[i], false) is Some,
    decreases count,
{
    if i < count - 1 {
        lemma_items_have_text(items, (count - 1) as nat, i);
    }
}

/// A literal of a kind that reads back does read back, given what a
/// rendering learned of it.
proof fn lemma_literal_reads_back(v: ValueView)
    requires
        literal_readable(v),
        written_back(v),
        text_of_value(v) is Some,
    ensures
        reads_back(v),
{
    match v {
        ValueView::Null => lemma_null_is_read_back(),
        ValueView::Bool(b) => lemma_bool_is_read_back(b),
        ValueView::String(s) => lemma_plain_string_is_read_back(s),
        ValueView::Uuid(bits) => lemma_uuid_reads_back(bits),
        ValueView::Date(d) => lemma_date_reads_back(d),
        ValueView::Time(t) => lemma_time_reads_back(t),
        ValueView::Number(u, scale) => {
            if scale == 0 {
                lemma_integer_reads_back(u);
            } else {
                lemma_fraction_reads_back(u, scale);
            }
        },
        ValueView::DateTime(x) => lemma_instant_reads_back(x),
    }
}

/// A tree that reads back by its kinds is faithful, given what a rendering
/// learned of its literals.
pub proof fn lemma_readable_is_faithful(t: ExprView)
    requires
        all_written_back(t),
        text_of(t, true) is Some || text_of(t, false) is Some,
    ensures
        readable_expression(t) ==> faithful_expression(t),
        readable_operand(t) ==> faithful_operand(t),
        readable(t) ==> faithful(t),
    decreases t,
{
    reveal_with_fuel(faithful, 3);
    reveal_with_fuel(faithful_operand, 3);
    reveal_with_fuel(faithful_expression, 3);
    reveal_with_fuel(readable, 3);
    reveal_with_fuel(readable_operand, 3);
    reveal_with_fuel(readable_expression, 3);
    reveal_with_fuel(all_written_back, 2);
    reveal_with_fuel(list_written_back, 2);
    match t {
        ExprView::Or(l, r) | ExprView::And(l, r) => {
            lemma_readable_is_faithful(*l);
            lemma_readable_is_faithful(*r);
        },
        ExprView::Not(e) => {
            lemma_readable_is_faithful(*e);
        },
        ExprView::Compare(l, _, r) => {
            lemma_readable_is_faithful(*l);
            lemma_readable_is_faithful(*r);
        },
        ExprView::In(l, items) => {
            lemma_readable_is_faithful(*l);
            assert forall|i: int| 0 <= i < items.len() && readable(items[i]) implies faithful(
                #[trigger] items[i],
            ) by {
                lemma_items_have_text(items, items.len(), i);
                lemma_readable_is_faithful(items[i]);
            }
        },
        ExprView::Function(_, args) => {
            assert forall|i: int| 0 <= i < args.len() && readable(args[i]) implies faithful(
                #[trigger] args[i],
            ) by {
                lemma_items_have_text(args, args.len(), i);
                lemma_readable_is_faithful(args[i]);
            }
        },
        ExprView::Lambda(l, _, _, body) => {
            lemma_readable_is_faithful(*body);
        },
        ExprView::Identifier(_) => {},
        ExprView::Alias(_) => {},
        ExprView::Value(v) => {
            if literal_readable(v) {
                lemma_literal_reads_back(v);
            }
        },
    }
}

/// The text of a tree that reads back by its kinds parses to the tree,
/// trimmed or not, given what a rendering learned of its literals.
pub proof fn lemma_rendered_parses_back(t: ExprView)
    requires
        readable(t),
        all_written_back(t),
        text_of(t, false) is Some,
    ensures
        parse_text(trimmed(text_of(t, false)->0)) == Ok::<ExprView, ParseError>(t),
        parse_text(text_of(t, false)->0) == Ok::<ExprView, ParseError>(t),
{
    lemma_readable_is_faithful(t);
    lemma_trimmed_text_parses_back(t);
}

} // verus!
