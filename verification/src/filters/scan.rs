//! Reading characters and runs of characters at a position of a text.

use vstd::prelude::*;
use super::grammar::{at_most, blanks, has2, has3, has_char, has_letter, identifier, in_class, is_digit, is_hex, is_identifier_start, is_letter, is_zone_start, run, CharClass};

verus! {

/// A run ends within the text; every character of it is of the class, and
/// the character after it, if there is one, is not.
pub proof fn lemma_run(s: Seq<char>, at: int, class: CharClass)
    requires
        0 <= at <= s.len(),
    ensures
        at + run(s, at, class) <= s.len(),
        forall|i: int| at <= i < at + run(s, at, class) ==> in_class(#[trigger] s[i], class),
        at + run(s, at, class) < s.len() ==> !in_class(s[at + run(s, at, class)], class),
    decreases s.len() - at,
{
    if at < s.len() && in_class(s[at], class) {
        lemma_run(s, at + 1, class);
    }
}

/// A stretch of characters of the class is the start of the run at its first
/// character: the run is as long, and longer by the run after the stretch.
pub proof fn lemma_run_extends(s: Seq<char>, at: int, end: int, class: CharClass)
    requires
        0 <= at <= end <= s.len(),
        forall|i: int| at <= i < end ==> in_class(#[trigger] s[i], class),
    ensures
        run(s, at, class) == (end - at) + run(s, end, class),
    decreases end - at,
{
    if at < end {
        lemma_run_extends(s, at + 1, end, class);
    }
}

pub(crate) fn is_digit_char(c: char) -> (r: bool)
    ensures
        r == is_digit(c),
{
    '0' <= c && c <= '9'
}

pub(crate) fn is_letter_char(c: char) -> (r: bool)
    ensures
        r == is_letter(c),
{
    ('a' <= c && c <= 'z') || ('A' <= c && c <= 'Z')
}

pub(crate) fn is_hex_char(c: char) -> (r: bool)
    ensures
        r == is_hex(c),
{
    is_digit_char(c) || ('a' <= c && c <= 'f') || ('A' <= c && c <= 'F')
}

pub(crate) fn is_identifier_start_char(c: char) -> (r: bool)
    ensures
        r == is_identifier_start(c),
{
    is_letter_char(c) || c == '_'
}

pub(crate) fn is_zone_start_char(c: char) -> (r: bool)
    ensures
        r == is_zone_start(c),
{
    is_letter_char(c) || c == '-' || c == '_' || c == '/' || c == '+'
}

/// Whether `c` is of the class.
pub(crate) fn is_of_class(c: char, class: CharClass) -> (r: bool)
    ensures
        r == in_class(c, class),
{
    match class {
        CharClass::Blank => c == ' ' || c == '\t' || c == '\n' || c == '\r',
        CharClass::Digit => is_digit_char(c),
        CharClass::Hex => is_hex_char(c),
        CharClass::IdentifierPart => is_identifier_start_char(c) || is_digit_char(c),
        CharClass::ZonePart => is_zone_start_char(c) || is_digit_char(c),
    }
}

/// The end of the run of characters of the class that starts at `at`.
pub(crate) fn run_end(s: &Vec<char>, at: usize, class: CharClass) -> (end: usize)
    requires
        at <= s.len(),
    ensures
        end == at + run(s@, at as int, class),
        at <= end <= s.len(),
{
    let mut end: usize = at;
    while end < s.len() && is_of_class(s[end], class)
        invariant
            at <= end <= s.len(),
            forall|i: int| at <= i < end ==> in_class(#[trigger] s@[i], class),
        decreases s.len() - end,
    {
        end += 1;
    }
    proof {
        lemma_run_extends(s@, at as int, end as int, class);
    }
    end
}

/// The end of the run of characters of the class that starts at `at`, or
/// `at + limit` if the run is longer than `limit`.
pub(crate) fn run_end_within(s: &Vec<char>, at: usize, class: CharClass, limit: usize) -> (end: usize)
    requires
        at <= s.len(),
    ensures
        end == at + at_most(run(s@, at as int, class), limit as nat),
        at <= end <= s.len(),
{
    let mut end: usize = at;
    while end < s.len() && end - at < limit && is_of_class(s[end], class)
        invariant
            at <= end <= s.len(),
            end - at <= limit,
            forall|i: int| at <= i < end ==> in_class(#[trigger] s@[i], class),
        decreases s.len() - end,
    {
        end += 1;
    }
    proof {
        lemma_run_extends(s@, at as int, end as int, class);
    }
    end
}

/// Whether the run of characters of the class at `at` is `count` long at
/// least.
pub(crate) fn run_reaches(s: &Vec<char>, at: usize, class: CharClass, count: usize) -> (r: bool)
    requires
        at <= s.len(),
    ensures
        r == (run(s@, at as int, class) >= count),
{
    let end = run_end_within(s, at, class, count);
    end - at == count
}

/// The position after the white space at `at`.
pub(crate) fn skip_blanks(s: &Vec<char>, at: usize) -> (end: usize)
    requires
        at <= s.len(),
    ensures
        end == at + blanks(s@, at as int),
        at <= end <= s.len(),
{
    run_end(s, at, CharClass::Blank)
}

/// Whether the text holds `c` at `at`.
pub(crate) fn holds(s: &Vec<char>, at: usize, c: char) -> (r: bool)
    ensures
        r == has_char(s@, at as int, c),
{
    at < s.len() && s[at] == c
}

/// Whether the text holds `lower` or `upper` at `at`.
pub(crate) fn holds_letter(s: &Vec<char>, at: usize, lower: char, upper: char) -> (r: bool)
    ensures
        r == has_letter(s@, at as int, lower, upper),
{
    holds(s, at, lower) || holds(s, at, upper)
}

/// Whether the text holds the characters `a`, `b` at `at`.
pub(crate) fn holds2(s: &Vec<char>, at: usize, a: char, b: char) -> (r: bool)
    requires
        at <= s.len(),
    ensures
        r == has2(s@, at as int, a, b),
{
    holds(s, at, a) && holds(s, at + 1, b)
}

/// Whether the text holds the characters `a`, `b`, `c` at `at`.
pub(crate) fn holds3(s: &Vec<char>, at: usize, a: char, b: char, c: char) -> (r: bool)
    requires
        at <= s.len(),
    ensures
        r == has3(s@, at as int, a, b, c),
{
    holds(s, at, a) && holds(s, at + 1, b) && holds(s, at + 2, c)
}

/// The end of the identifier at `at`, if there is one.
pub(crate) fn identifier_end(s: &Vec<char>, at: usize) -> (r: Option<usize>)
    requires
        at <= s.len(),
    ensures
        match r {
            Some(end) => identifier(s@, at as int) == Some((end - at) as nat) && at + 2 <= end
                <= s.len(),
            None => identifier(s@, at as int) is None,
        },
{
    if at < s.len() && is_identifier_start_char(s[at]) {
        let end = run_end(s, at + 1, CharClass::IdentifierPart);
        if end > at + 1 {
            Some(end)
        } else {
            None
        }
    } else {
        None
    }
}

} // verus!
