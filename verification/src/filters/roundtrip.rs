//! Reading back what was rendered.
//!
//! The text of a tree parses to the same tree, for the trees that `faithful`
//! describes. They are the trees that the grammar can give and that the
//! renderer keeps apart: the renderer puts parentheses around an `and` or an
//! `or` under an `and`, an `or` or a `not` only, writes no escapes in
//! strings, and leaves the text of numbers, dates, times and instants to
//! other crates.

use vstd::prelude::*;
use super::errors::ParseError;
use super::grammar::{all_or_first_error, lambda_operator, string_body, Read, alias, blanks, bool_value, comparison_operator, date, date_shape, has2, has3, has_char, hours_minutes_length, identifier, in_class, is_blank, is_digit, is_hex, is_identifier_start, is_letter, null_value, number_length, run, time, uuid_shape, value, CharClass};
use super::model::{CompareOperator, ExprView, LambdaOperator, ValueView};
use super::parse::{lemma_trimmed_is_whole, trimmed};
use super::text::{is_white_space, lemma_visible_is_no_white_space};
use super::render::{double_quotes, text_of, text_of_list, text_of_value};
use super::rules::{expression, filter, filter_list, follower, function_call, lambda, lambda_head, lemma_expression, lemma_filter, lemma_filter_list, lemma_follower, lemma_function_call, lemma_lambda, lemma_more_filters, lemma_operand, more_filters, next_item_at, opens_list, operand, parse_text, past, LambdaHead};
use super::scan::{lemma_run, lemma_run_extends};

verus! {

/// Whether the text `s` holds the text `t` at `at`.
pub open spec fn has_text(s: Seq<char>, at: int, t: Seq<char>) -> bool {
    &&& 0 <= at
    &&& at + t.len() <= s.len()
    &&& forall|i: int| 0 <= i < t.len() ==> s[at + i] == #[trigger] t[i]
}

/// A text that holds two texts one after the other holds each of them.
pub proof fn lemma_split(s: Seq<char>, at: int, a: Seq<char>, b: Seq<char>)
    requires
        has_text(s, at, a + b),
    ensures
        has_text(s, at, a),
        has_text(s, at + a.len(), b),
{
    assert forall|i: int| 0 <= i < a.len() implies s[at + i] == #[trigger] a[i] by {
        assert((a + b)[i] == a[i]);
    }
    assert forall|i: int| 0 <= i < b.len() implies s[at + a.len() + i] == #[trigger] b[i] by {
        assert((a + b)[a.len() + i] == b[i]);
    }
}

/// What the words of the renderer hold.
pub proof fn lemma_words()
    ensures
        "("@ == seq!['('],
        ")"@ == seq![')'],
        " "@ == seq![' '],
        "/"@ == seq!['/'],
        ":"@ == seq![':'],
        "'"@ == seq!['\''],
        "''"@ == seq!['\'', '\''],
        ", "@ == seq![',', ' '],
        "not "@ == seq!['n', 'o', 't', ' '],
        " or "@ == seq![' ', 'o', 'r', ' '],
        " and "@ == seq![' ', 'a', 'n', 'd', ' '],
        " in ("@ == seq![' ', 'i', 'n', ' ', '('],
        "null"@ == seq!['n', 'u', 'l', 'l'],
        "true"@ == seq!['t', 'r', 'u', 'e'],
        "false"@ == seq!['f', 'a', 'l', 's', 'e'],
{
    reveal_strlit("(");
    reveal_strlit(")");
    reveal_strlit(" ");
    reveal_strlit("/");
    reveal_strlit(":");
    reveal_strlit("'");
    reveal_strlit("''");
    reveal_strlit(", ");
    reveal_strlit("not ");
    reveal_strlit(" or ");
    reveal_strlit(" and ");
    reveal_strlit(" in (");
    reveal_strlit("null");
    reveal_strlit("true");
    reveal_strlit("false");
    assert("("@ =~= seq!['(']);
    assert(")"@ =~= seq![')']);
    assert(" "@ =~= seq![' ']);
    assert("/"@ =~= seq!['/']);
    assert(":"@ =~= seq![':']);
    assert("'"@ =~= seq!['\'']);
    assert("''"@ =~= seq!['\'', '\'']);
    assert(", "@ =~= seq![',', ' ']);
    assert("not "@ =~= seq!['n', 'o', 't', ' ']);
    assert(" or "@ =~= seq![' ', 'o', 'r', ' ']);
    assert(" and "@ =~= seq![' ', 'a', 'n', 'd', ' ']);
    assert(" in ("@ =~= seq![' ', 'i', 'n', ' ', '(']);
    assert("null"@ =~= seq!['n', 'u', 'l', 'l']);
    assert("true"@ =~= seq!['t', 'r', 'u', 'e']);
    assert("false"@ =~= seq!['f', 'a', 'l', 's', 'e']);
}

/// Whether `n` is an identifier of the grammar.
pub open spec fn is_name(n: Seq<char>) -> bool {
    &&& n.len() >= 2
    &&& is_identifier_start(n[0])
    &&& forall|i: int| 1 <= i < n.len() ==> in_class(#[trigger] n[i], CharClass::IdentifierPart)
}

/// Whether `t` starts with the word `not`.
pub open spec fn starts_with_not(t: Seq<char>) -> bool {
    has3(t, 0, 'n', 'o', 't')
}

/// Whether `n` starts as `true`, `false` or `null` do, in either case.
pub open spec fn starts_as_literal(n: Seq<char>) -> bool {
    bool_value(n, 0) is Some || null_value(n, 0)
}

/// Whether an expression may end before `at`: the text ends there, or holds
/// `)` or `,`, or a space and a small letter.
pub open spec fn ends_expression(s: Seq<char>, at: int) -> bool {
    ||| at == s.len()
    ||| has_char(s, at, ')')
    ||| has_char(s, at, ',')
    ||| (has_char(s, at, ' ') && at + 1 < s.len() && 'a' <= s[at + 1] && s[at + 1] <= 'z')
}

/// Whether an operand may end before `at`: the text ends there, or holds `)`
/// or `,`, or a space and one of the words `or` and `and`.
pub open spec fn ends_operand(s: Seq<char>, at: int) -> bool {
    ||| at == s.len()
    ||| has_char(s, at, ')')
    ||| has_char(s, at, ',')
    ||| (has_char(s, at, ' ') && (has2(s, at + 1, 'o', 'r') || has3(s, at + 1, 'a', 'n', 'd')))
}

/// Whether a filter may end before `at`: the text ends there, or holds `)`
/// or `,`.
pub open spec fn ends_filter(s: Seq<char>, at: int) -> bool {
    at == s.len() || has_char(s, at, ')') || has_char(s, at, ',')
}

/// No white space stands where a character that is no blank stands, or where
/// the text ends.
pub proof fn lemma_no_blanks(s: Seq<char>, at: int)
    requires
        at >= s.len() || at < 0 || !is_blank(s[at]),
    ensures
        blanks(s, at) == 0,
{
}

/// One blank stands where a space is followed by a character that is no
/// blank.
pub proof fn lemma_one_blank(s: Seq<char>, at: int)
    requires
        has_char(s, at, ' '),
        at + 1 >= s.len() || !is_blank(s[at + 1]),
    ensures
        blanks(s, at) == 1,
{
    assert(run(s, at + 1, CharClass::Blank) == 0);
}

/// A name that the text holds, with no character of an identifier after it,
/// is read as an identifier of its length.
pub proof fn lemma_identifier(s: Seq<char>, at: int, n: Seq<char>)
    requires
        is_name(n),
        has_text(s, at, n),
        at + n.len() == s.len() || !in_class(s[at + n.len()], CharClass::IdentifierPart),
    ensures
        identifier(s, at) == Some(n.len()),
        s.subrange(at, at + n.len()) == n,
{
    assert(s[at + 0] == n[0]);
    assert forall|i: int| at + 1 <= i < at + n.len() implies in_class(
        #[trigger] s[i],
        CharClass::IdentifierPart,
    ) by {
        assert(s[at + (i - at)] == n[i - at]);
    }
    lemma_run_extends(s, at + 1, at + n.len(), CharClass::IdentifierPart);
    assert(run(s, at + n.len(), CharClass::IdentifierPart) == 0);
    assert(s.subrange(at, at + n.len()) =~= n) by {
        assert forall|i: int| 0 <= i < n.len() implies s.subrange(at, at + n.len())[i] == n[i] by {
            assert(s[at + i] == n[i]);
        }
    }
}

/// Where an expression may end, no `(` follows after white space, and no
/// `/` follows at once.
pub proof fn lemma_after_expression(s: Seq<char>, at: int)
    requires
        0 <= at <= s.len(),
        ends_expression(s, at),
    ensures
        !has_char(s, past(s, at, 0), '('),
        !has_char(s, at, '/'),
        at == s.len() || !in_class(s[at], CharClass::IdentifierPart),
        at == s.len() || !is_hex(s[at]),
        at == s.len() || s[at] != '-',
        at == s.len() || !is_letter(s[at]),
        at == s.len() || s[at] == ' ' || s[at] == ')' || s[at] == ',',
{
    if has_char(s, at, ' ') {
        lemma_one_blank(s, at);
    } else {
        lemma_no_blanks(s, at);
    }
}

/// Where an identifier is followed by the end of an expression, or where no
/// identifier stands, neither a function call nor a lambda is read.
pub proof fn lemma_no_call(s: Seq<char>, at: int)
    requires
        0 <= at <= s.len(),
        match identifier(s, at) {
            Some(n) => ends_expression(s, at + n),
            None => true,
        },
    ensures
        function_call(s, at) is None,
        lambda(s, at) is None,
{
    lemma_function_call(s, at);
    lemma_lambda(s, at);
    match identifier(s, at) {
        Some(n) => {
            lemma_run(s, at + 1, CharClass::IdentifierPart);
            lemma_after_expression(s, at + n);
        },
        None => {},
    }
}

/// No literal is read where the text holds no quote and no digit, nor the
/// shape of a UUID, of a Boolean or of `null`.
proof fn lemma_no_value(s: Seq<char>, at: int)
    requires
        0 <= at < s.len(),
        s[at] != '\'',
        !is_digit(s[at]),
        !uuid_shape(s, at),
        bool_value(s, at) is None,
        !null_value(s, at),
    ensures
        value(s, at) is None,
{
    assert(!is_digit(s[at + 0]));
    assert(!date_shape(s, at));
    assert(run(s, at, CharClass::Digit) == 0);
    assert(hours_minutes_length(s, at) == 0);
    assert(number_length(s, at) == 0);
}

/// A name that does not start as a literal does, and that the end of an
/// expression follows, is read as no literal.
proof fn lemma_name_is_no_value(s: Seq<char>, at: int, n: Seq<char>)
    requires
        is_name(n),
        !starts_as_literal(n),
        has_text(s, at, n),
        ends_expression(s, at + n.len()),
    ensures
        value(s, at) is None,
{
    let end = at + n.len();
    lemma_after_expression(s, end);
    assert(s[at + 0] == n[0]);
    assert(s[at + 1] == n[1]);
    // The shape of a UUID breaks at the end of the name, or at its hyphen.
    if n.len() >= 9 {
        assert(s[at + 8] == n[8]);
        assert(in_class(n[8], CharClass::IdentifierPart));
        assert(!uuid_shape(s, at));
    } else if end < s.len() {
        if n.len() == 8 {
            assert(s[at + 8] != '-');
        } else {
            assert(!is_hex(s[at + n.len()]));
        }
        assert(!uuid_shape(s, at));
    }
    // The letters of a Boolean or of `null` would all be letters of the name.
    assert forall|i: int| 0 <= i < 5 && i < n.len() implies s[at + i] == n[i] by {
        assert(s[at + i] == n[i]);
    }
    if n.len() < 5 && end < s.len() {
        assert(!is_letter(s[at + n.len()]));
    }
    assert(bool_value(s, at) is None);
    assert(!null_value(s, at));
    lemma_no_value(s, at);
}

/// An identifier reads back as itself.
pub proof fn lemma_identifier_reads_back(s: Seq<char>, at: int, n: Seq<char>)
    requires
        is_name(n),
        !starts_as_literal(n),
        has_text(s, at, n),
        ends_expression(s, at + n.len()),
    ensures
        expression(s, at) == Some(
            (Ok::<ExprView, ParseError>(ExprView::Identifier(n)), n.len()),
        ),
{
    lemma_after_expression(s, at + n.len());
    lemma_identifier(s, at, n);
    lemma_no_call(s, at);
    lemma_name_is_no_value(s, at, n);
    lemma_expression(s, at);
    assert(s[at + 0] == n[0]);
    assert(alias(s, at) is None);
}

/// Whether `n` is the name of an alias: `@` and an identifier.
pub open spec fn is_alias_name(n: Seq<char>) -> bool {
    n.len() >= 1 && n[0] == '@' && is_name(n.subrange(1, n.len() as int))
}

/// An alias reads back as itself.
pub proof fn lemma_alias_reads_back(s: Seq<char>, at: int, n: Seq<char>)
    requires
        is_alias_name(n),
        has_text(s, at, n),
        ends_expression(s, at + n.len()),
    ensures
        expression(s, at) == Some((Ok::<ExprView, ParseError>(ExprView::Alias(n)), n.len())),
{
    let name = n.subrange(1, n.len() as int);
    assert(s[at + 0] == n[0]);
    assert(has_text(s, at + 1, name)) by {
        assert forall|i: int| 0 <= i < name.len() implies s[at + 1 + i] == #[trigger] name[i] by {
            assert(s[at + (1 + i)] == n[1 + i]);
        }
    }
    lemma_after_expression(s, at + n.len());
    lemma_identifier(s, at + 1, name);
    assert(identifier(s, at) is None);
    lemma_no_call(s, at);
    assert(!uuid_shape(s, at)) by {
        assert(!is_hex(s[at + 0]));
    }
    lemma_no_value(s, at);
    lemma_expression(s, at);
    assert(s.subrange(at, at + n.len()) =~= n) by {
        assert forall|i: int| 0 <= i < n.len() implies s.subrange(at, at + n.len())[i] == n[i] by {
            assert(s[at + i] == n[i]);
        }
    }
}

/// Whether the end of an expression is where a literal's text may be read
/// back: the literal has a text, and wherever that text stands before the end
/// of an expression, the grammar reads the literal from it.
///
/// Whether a number, a date, a time or an instant reads back rests with the
/// crates that write and read them.
pub open spec fn reads_back(v: ValueView) -> bool {
    match text_of_value(v) {
        None => false,
        Some(t) => {
            &&& t.len() > 0
            &&& !is_white_space(t[0])
            &&& !is_white_space(t.last())
            &&& t[0] != '('
            &&& forall|s: Seq<char>, at: int|
                has_text(s, at, t) && ends_expression(s, at + t.len()) ==> #[trigger] expression(
                    s,
                    at,
                ) == Some((Ok::<ExprView, ParseError>(ExprView::Value(v)), t.len()))
        },
    }
}

/// `true`, `false` and `null` read back as themselves.
proof fn lemma_word_reads_back(s: Seq<char>, at: int, v: ValueView)
    requires
        v is Bool || v is Null,
        has_text(s, at, text_of_value(v)->0),
        ends_expression(s, at + text_of_value(v)->0.len()),
    ensures
        expression(s, at) == Some(
            (Ok::<ExprView, ParseError>(ExprView::Value(v)), text_of_value(v)->0.len()),
        ),
{
    lemma_words();
    let t = text_of_value(v)->0;
    assert(is_name(t));
    assert forall|i: int| 0 <= i < t.len() implies s[at + i] == t[i] by {
        assert(s[at + i] == t[i]);
    }
    lemma_after_expression(s, at + t.len());
    lemma_identifier(s, at, t);
    lemma_no_call(s, at);
    lemma_expression(s, at);
    assert(!is_digit(s[at + 0]));
    assert(!date_shape(s, at));
    assert(run(s, at, CharClass::Digit) == 0);
    assert(hours_minutes_length(s, at) == 0);
    assert(number_length(s, at) == 0);
    assert(!uuid_shape(s, at)) by {
        if v == ValueView::Bool(false) {
            assert(!is_hex(s[at + 2]));
        } else {
            assert(!is_hex(s[at + 0]));
        }
    }
}

/// Whether a string holds neither a quote nor a backslash.
pub open spec fn is_plain_string(str: Seq<char>) -> bool {
    forall|i: int| 0 <= i < str.len() ==> #[trigger] str[i] != '\'' && str[i] != '\\'
}

/// The values of `x`, each as one that was read without error.
pub open spec fn all_read<T>(x: Seq<T>) -> Seq<Read<T>> {
    Seq::new(x.len(), |i: int| Ok::<T, ParseError>(x[i]))
}

/// A plain string is written as it stands.
proof fn lemma_plain_string_text(str: Seq<char>)
    requires
        is_plain_string(str),
    ensures
        double_quotes(str) == str,
    decreases str.len(),
{
    if str.len() > 0 {
        assert(str.last() == str[str.len() - 1]);
        assert(is_plain_string(str.drop_last())) by {
            assert forall|i: int| 0 <= i < str.drop_last().len() implies #[trigger] str.drop_last()[i]
                != '\'' && str.drop_last()[i] != '\\' by {
                assert(str.drop_last()[i] == str[i]);
            }
        }
        lemma_plain_string_text(str.drop_last());
        assert(str.drop_last().push(str.last()) =~= str);
    } else {
        assert(str =~= Seq::<char>::empty());
    }
}

/// Values that were read without error are all of them.
proof fn lemma_all_read<T>(x: Seq<T>)
    ensures
        all_or_first_error(all_read(x)) == Ok::<Seq<T>, ParseError>(x),
    decreases x.len(),
{
    if x.len() > 0 {
        lemma_all_read(x.drop_last());
        assert(all_read(x).drop_last() =~= all_read(x.drop_last()));
        assert(x.drop_last().push(x.last()) =~= x);
    } else {
        assert(x =~= Seq::<T>::empty());
    }
}

/// The body of a plain string is read as its characters, from its character
/// `k` on.
proof fn lemma_string_body(s: Seq<char>, at: int, str: Seq<char>, k: int)
    requires
        0 <= k <= str.len(),
        is_plain_string(str),
        has_text(s, at, str),
        has_char(s, at + str.len(), '\''),
    ensures
        string_body(s, at + k) == (
            all_read(str.subrange(k, str.len() as int)),
            (str.len() - k) as nat,
        ),
    decreases str.len() - k,
{
    let rest = str.subrange(k, str.len() as int);
    if k < str.len() {
        lemma_string_body(s, at, str, k + 1);
        assert(s[at + k] == str[k]);
        assert(seq![Ok::<char, ParseError>(s[at + k])] + all_read(
            str.subrange(k + 1, str.len() as int),
        ) =~= all_read(rest));
    } else {
        assert(all_read(rest) =~= Seq::<Read<char>>::empty());
    }
}

/// A plain string reads back as itself.
proof fn lemma_string_reads_back(s: Seq<char>, at: int, str: Seq<char>)
    requires
        is_plain_string(str),
        has_text(s, at, text_of_value(ValueView::String(str))->0),
    ensures
        expression(s, at) == Some(
            (
                Ok::<ExprView, ParseError>(ExprView::Value(ValueView::String(str))),
                str.len() + 2,
            ),
        ),
{
    lemma_words();
    lemma_plain_string_text(str);
    let t = text_of_value(ValueView::String(str))->0;
    assert(t == "'"@ + str + "'"@);
    lemma_split(s, at, "'"@ + str, "'"@);
    lemma_split(s, at, "'"@, str);
    assert(s[at + 0] == "'"@[0]);
    assert(s[at + 1 + str.len() + 0] == "'"@[0]);
    lemma_string_body(s, at + 1, str, 0);
    assert(str.subrange(0, str.len() as int) =~= str);
    lemma_all_read(str);
    assert(identifier(s, at) is None);
    lemma_no_call(s, at);
    lemma_expression(s, at);
}

/// `true` and `false` read back.
pub proof fn lemma_bool_is_read_back(b: bool)
    ensures
        reads_back(ValueView::Bool(b)),
{
    lemma_visible_is_no_white_space();
    lemma_words();
    let v = ValueView::Bool(b);
    let t = text_of_value(v)->0;
    assert forall|s: Seq<char>, at: int|
        has_text(s, at, t) && ends_expression(s, at + t.len()) implies #[trigger] expression(s, at)
        == Some((Ok::<ExprView, ParseError>(ExprView::Value(v)), t.len())) by {
        lemma_word_reads_back(s, at, v);
    }
}

/// `null` reads back.
pub proof fn lemma_null_is_read_back()
    ensures
        reads_back(ValueView::Null),
{
    lemma_visible_is_no_white_space();
    lemma_words();
    let v = ValueView::Null;
    let t = text_of_value(v)->0;
    assert forall|s: Seq<char>, at: int|
        has_text(s, at, t) && ends_expression(s, at + t.len()) implies #[trigger] expression(s, at)
        == Some((Ok::<ExprView, ParseError>(ExprView::Value(v)), t.len())) by {
        lemma_word_reads_back(s, at, v);
    }
}

/// A string that holds neither a quote nor a backslash reads back.
pub proof fn lemma_plain_string_is_read_back(str: Seq<char>)
    requires
        is_plain_string(str),
    ensures
        reads_back(ValueView::String(str)),
{
    lemma_visible_is_no_white_space();
    lemma_words();
    lemma_plain_string_text(str);
    let v = ValueView::String(str);
    let t = text_of_value(v)->0;
    assert(t == "'"@ + str + "'"@);
    assert(t.len() == str.len() + 2);
    assert(t[0] == '\'');
    assert forall|s: Seq<char>, at: int|
        has_text(s, at, t) && ends_expression(s, at + t.len()) implies #[trigger] expression(s, at)
        == Some((Ok::<ExprView, ParseError>(ExprView::Value(v)), t.len())) by {
        lemma_string_reads_back(s, at, str);
    }
}

/// Whether `t` is a tree that the grammar reads as an expression and that
/// reads back from its text: a call of a function, a lambda over a named
/// collection, a literal that reads back, an alias, or an identifier that
/// does not start as a literal does.
pub open spec fn faithful_expression(t: ExprView) -> bool
    decreases t, 0nat,
{
    match t {
        ExprView::Function(name, args) => is_name(name) && forall|i: int|
            0 <= i < args.len() ==> faithful(#[trigger] args[i]),
        ExprView::Lambda(l, _, var, body) => {
            &&& *l matches ExprView::Identifier(c)
            &&& is_name(c)
            &&& is_name(var)
            &&& faithful(*body)
        },
        ExprView::Value(v) => reads_back(v),
        ExprView::Alias(n) => is_alias_name(n),
        ExprView::Identifier(n) => is_name(n) && !starts_as_literal(n),
        _ => false,
    }
}

/// Whether `t` is a tree that the grammar reads as an operand of `and` and
/// `or` and that reads back from its text: an expression, a comparison or an
/// `in` over expressions, or an `and` or an `or`, which the renderer puts in
/// parentheses. A `not` is none: the renderer writes no parentheses around
/// it, and what follows it would be read as part of it. Nor is a tree whose
/// text starts with `not`, as that of an identifier `notable` does: the
/// grammar would take the start for the word.
pub open spec fn faithful_operand(t: ExprView) -> bool
    decreases t, 1nat,
{
    !starts_with_not(text_of(t, true)->0) && match t {
        ExprView::Compare(l, _, r) => faithful_expression(*l) && faithful_expression(*r),
        ExprView::In(l, items) => faithful_expression(*l) && forall|i: int|
            0 <= i < items.len() ==> faithful(#[trigger] items[i]),
        ExprView::Or(l, r) | ExprView::And(l, r) => faithful_operand(*l) && faithful(*r),
        ExprView::Not(_) => false,
        _ => faithful_expression(t),
    }
}

/// Whether `t` is a tree that the grammar reads as a filter and that reads
/// back from its text: a faithful operand, or a `not` over a faithful
/// filter.
pub open spec fn faithful(t: ExprView) -> bool
    decreases t, 2nat,
{
    match t {
        ExprView::Not(e) => faithful(*e),
        _ => faithful_operand(t),
    }
}

/// A faithful operand is a faithful filter, and so is a faithful expression
/// whose text does not start with `not`.
proof fn lemma_levels(t: ExprView)
    ensures
        faithful_operand(t) ==> faithful(t),
        faithful_expression(t) && !starts_with_not(text_of(t, true)->0) ==> faithful_operand(t),
{
}

/// The text of `t` as an operand or an item.
pub open spec fn nested_text(t: ExprView) -> Seq<char> {
    text_of(t, true)->0
}

/// The text of `t` where it stands bare: at the root, in a list, or as the
/// body of a lambda.
pub open spec fn bare_text(t: ExprView) -> Seq<char> {
    text_of(t, false)->0
}

/// The text of the first `count` items of a list.
pub open spec fn list_text(items: Seq<ExprView>, count: nat) -> Seq<char> {
    text_of_list(items, count)->0
}

/// A blank of the grammar is white space.
proof fn lemma_blank_is_white_space()
    ensures
        forall|c: char| is_blank(c) ==> #[trigger] is_white_space(c),
{
}

/// A text ends as its last part does.
proof fn lemma_last(a: Seq<char>, b: Seq<char>)
    requires
        b.len() > 0,
    ensures
        (a + b).last() == b.last(),
{
}

/// A faithful tree has a text, which starts with no blank; that of an
/// operand does not start with `not`, and that of an expression not with
/// `(`.
#[verifier::rlimit(40)]
proof fn lemma_text(t: ExprView)
    requires
        faithful(t) || faithful_expression(t),
    ensures
        text_of(t, true) is Some,
        text_of(t, false) is Some,
        nested_text(t).len() > 0,
        !is_blank(nested_text(t)[0]),
        faithful_operand(t) ==> !starts_with_not(nested_text(t)),
        faithful_expression(t) ==> nested_text(t)[0] != '(',
        !(t is Or) && !(t is And) ==> text_of(t, false) == text_of(t, true),
        bare_text(t).len() > 0,
        !is_blank(bare_text(t)[0]),
        !is_white_space(bare_text(t)[0]),
        !is_white_space(bare_text(t).last()),
        !is_white_space(nested_text(t).last()),
    decreases t, 1nat,
{
    lemma_blank_is_white_space();
    lemma_visible_is_no_white_space();
    reveal_with_fuel(faithful, 3);
    reveal_with_fuel(faithful_operand, 3);
    reveal_with_fuel(faithful_expression, 3);
    lemma_words();
    match t {
        ExprView::Or(l, r) | ExprView::And(l, r) => {
            lemma_levels(*l);
            lemma_text(*l);
            lemma_text(*r);
            let word = if t is Or {
                " or "@
            } else {
                " and "@
            };
            assert(bare_text(t) == nested_text(*l) + word + nested_text(*r));
            assert(bare_text(t)[0] == nested_text(*l)[0]);
            lemma_last(nested_text(*l) + word, nested_text(*r));
            lemma_last("("@ + bare_text(t), ")"@);
        },
        ExprView::Not(e) => {
            lemma_text(*e);
            lemma_last("not "@, nested_text(*e));
        },
        ExprView::Compare(l, op, r) => {
            lemma_levels(*l);
            lemma_levels(*r);
            lemma_text(*l);
            lemma_text(*r);
            let x = nested_text(*l);
            assert(text_of(*l, false) == Some(x));
            assert(text_of(*r, false) == Some(nested_text(*r)));
            assert(nested_text(t) == x + " "@ + op.token() + " "@ + nested_text(*r));
            lemma_last(x + " "@ + op.token() + " "@, nested_text(*r));
            assert(nested_text(t)[0] == x[0]);
            if x.len() >= 3 {
                assert(nested_text(t)[1] == x[1]);
                assert(nested_text(t)[2] == x[2]);
            } else {
                assert(nested_text(t)[x.len() as int] == ' ');
            }
        },
        ExprView::In(l, items) => {
            lemma_levels(*l);
            lemma_text(*l);
            lemma_list_text(items, items.len());
            let x = nested_text(*l);
            assert(text_of(*l, false) == Some(x));
            assert(nested_text(t) == x + " in ("@ + list_text(items, items.len()) + ")"@);
            lemma_last(x + " in ("@ + list_text(items, items.len()), ")"@);
            assert(nested_text(t)[0] == x[0]);
            if x.len() >= 3 {
                assert(nested_text(t)[1] == x[1]);
                assert(nested_text(t)[2] == x[2]);
            } else {
                assert(nested_text(t)[x.len() as int] == ' ');
            }
        },
        ExprView::Function(name, args) => {
            lemma_list_text(args, args.len());
            assert(nested_text(t) == name + "("@ + list_text(args, args.len()) + ")"@);
            lemma_last(name + "("@ + list_text(args, args.len()), ")"@);
            assert(nested_text(t)[0] == name[0]);
            assert(nested_text(t)[1] == name[1]);
            if name.len() >= 3 {
                assert(nested_text(t)[2] == name[2]);
            } else {
                assert(nested_text(t)[2] == '(');
            }
        },
        ExprView::Lambda(l, op, var, body) => {
            lemma_text(*body);
            let c = l->Identifier_0;
            assert(text_of(*l, true) == Some(c));
            assert(text_of(*l, false) == Some(c));
            assert(nested_text(t) == c + "/"@ + op.token() + "("@ + var + ":"@ + bare_text(*body)
                + ")"@);
            lemma_last(c + "/"@ + op.token() + "("@ + var + ":"@ + bare_text(*body), ")"@);
            assert(nested_text(t)[0] == c[0]);
            assert(nested_text(t)[1] == c[1]);
            if c.len() >= 3 {
                assert(nested_text(t)[2] == c[2]);
            } else {
                assert(nested_text(t)[2] == '/');
            }
        },
        ExprView::Identifier(n) => {
            assert(in_class(n[n.len() - 1], CharClass::IdentifierPart));
        },
        ExprView::Alias(n) => {
            let name = n.subrange(1, n.len() as int);
            assert(in_class(name[name.len() - 1], CharClass::IdentifierPart));
            assert(n.last() == name[name.len() - 1]);
        },
        ExprView::Value(v) => {},
    }
}

/// The items of a list of faithful trees have a text, which starts with no
/// blank if the list is not empty.
proof fn lemma_list_text(items: Seq<ExprView>, count: nat)
    requires
        forall|i: int| 0 <= i < items.len() ==> faithful(#[trigger] items[i]),
        count <= items.len(),
    ensures
        text_of_list(items, count) is Some,
        count >= 1 ==> list_text(items, count).len() > 0 && !is_blank(list_text(items, count)[0]),
        count >= 1 ==> !is_white_space(list_text(items, count).last()),
        count >= 1 ==> list_text(items, 1) == bare_text(items[0]),
        count >= 2 ==> list_text(items, count) == list_text(items, (count - 1) as nat) + ", "@
            + bare_text(items[count - 1]),
    decreases items, count,
{
    lemma_visible_is_no_white_space();
    if count >= 1 {
        lemma_list_text(items, (count - 1) as nat);
        lemma_text(items[count - 1]);
        if count >= 2 {
            let before = list_text(items, (count - 1) as nat);
            assert(list_text(items, count)[0] == before[0]);
            lemma_last(before + ", "@, bare_text(items[count - 1]));
        }
    }
}

/// The token of a comparison operator is read as that operator.
proof fn lemma_token(s: Seq<char>, at: int, op: CompareOperator)
    requires
        has_text(s, at, op.token()),
    ensures
        comparison_operator(s, at) == Some((op, op.token().len())),
        2 <= op.token().len() <= 3,
        'a' <= op.token()[0] && op.token()[0] <= 'z',
{
    let t = op.token();
    assert(s[at + 0] == t[0]);
    assert(s[at + 1] == t[1]);
    if t.len() == 3 {
        assert(s[at + 2] == t[2]);
    }
}

/// The token of a quantifier is read as that quantifier.
proof fn lemma_quantifier(s: Seq<char>, at: int, op: LambdaOperator)
    requires
        has_text(s, at, op.token()),
    ensures
        lambda_operator(s, at) == Some((op, 3nat)),
        op.token().len() == 3,
{
    let t = op.token();
    assert(s[at + 0] == t[0]);
    assert(s[at + 1] == t[1]);
    assert(s[at + 2] == t[2]);
}

/// Where an operand may end, white space is one space at most, and after it
/// stands neither a comparison operator nor the start of a list.
proof fn lemma_after_operand(s: Seq<char>, at: int)
    requires
        0 <= at <= s.len(),
        ends_operand(s, at),
    ensures
        ends_expression(s, at),
        has_char(s, at, ' ') ==> past(s, at, 0) == at + 1,
        !has_char(s, at, ' ') ==> past(s, at, 0) == at,
        blanks(s, past(s, at, 0)) == 0,
        comparison_operator(s, past(s, at, 0)) is None,
        !opens_list(s, past(s, at, 0)),
        !has_char(s, at, ' ') ==> !has2(s, at, 'o', 'r') && !has3(s, at, 'a', 'n', 'd'),
{
    if has_char(s, at, ' ') {
        lemma_one_blank(s, at);
        lemma_no_blanks(s, at + 1);
    } else {
        lemma_no_blanks(s, at);
    }
}

/// A text that does not start with `not`, and that neither `o` nor `t`
/// follows, does not put the word `not` where it stands.
proof fn lemma_not_word(s: Seq<char>, at: int, x: Seq<char>)
    requires
        has_text(s, at, x),
        x.len() >= 1,
        !starts_with_not(x),
        at + x.len() == s.len() || (s[at + x.len()] != 'o' && s[at + x.len()] != 't'),
    ensures
        !has3(s, at, 'n', 'o', 't'),
{
    assert(s[at + 0] == x[0]);
    if x.len() >= 2 {
        assert(s[at + 1] == x[1]);
    }
    if x.len() >= 3 {
        assert(s[at + 2] == x[2]);
    }
}

/// No filter is read where `)` stands.
proof fn lemma_no_filter(s: Seq<char>, at: int)
    requires
        has_char(s, at, ')'),
    ensures
        filter(s, at) is None,
{
    lemma_filter(s, at);
    lemma_operand(s, at);
    lemma_expression(s, at);
    assert(identifier(s, at) is None);
    lemma_no_call(s, at);
    assert(!uuid_shape(s, at)) by {
        assert(!is_hex(s[at + 0]));
    }
    lemma_no_value(s, at);
    assert(alias(s, at) is None);
}

/// Where the text of a whole list stands, the text of each of its items
/// stands: the first at the start, each other after the text of those before
/// it, a comma and a space.
#[verifier::rlimit(40)]
proof fn lemma_item(items: Seq<ExprView>, j: nat, count: nat, s: Seq<char>, at: int)
    requires
        forall|i: int| 0 <= i < items.len() ==> faithful(#[trigger] items[i]),
        j < count <= items.len(),
        has_text(s, at, list_text(items, count)),
    ensures
        has_text(s, at, list_text(items, j + 1)),
        list_text(items, j + 1).len() <= list_text(items, count).len(),
        j == 0 ==> has_text(s, at, bare_text(items[0])) && list_text(items, 1) == bare_text(
            items[0],
        ),
        j >= 1 ==> {
            &&& has_char(s, at + list_text(items, j).len(), ',')
            &&& has_char(s, at + list_text(items, j).len() + 1, ' ')
            &&& has_text(s, at + list_text(items, j).len() + 2, bare_text(items[j as int]))
            &&& list_text(items, j + 1).len() == list_text(items, j).len() + 2 + bare_text(
                items[j as int],
            ).len()
        },
        j + 1 < count ==> has_char(s, at + list_text(items, j + 1).len(), ','),
    decreases count - j,
{
    lemma_words();
    lemma_list_text(items, count);
    lemma_list_text(items, j + 1);
    if j + 1 < count {
        lemma_item(items, j + 1, count, s, at);
        lemma_list_text(items, j + 2);
        let a = list_text(items, j + 1);
        let b = bare_text(items[j as int + 1]);
        lemma_split(s, at, a + ", "@, b);
        lemma_split(s, at, a, ", "@);
        assert(s[at + a.len() + 0] == ", "@[0]);
    }
    if j >= 1 {
        lemma_list_text(items, j);
        let a = list_text(items, j);
        let b = bare_text(items[j as int]);
        assert(list_text(items, j + 1) == a + ", "@ + b);
        lemma_split(s, at, a + ", "@, b);
        lemma_split(s, at, a, ", "@);
        assert(s[at + a.len() + 0] == ", "@[0]);
        assert(s[at + a.len() + 1] == ", "@[1]);
    }
}

/// A call of a function with faithful arguments reads back.
#[verifier::rlimit(40)]
proof fn lemma_call_reads_back(t: ExprView, s: Seq<char>, at: int)
    requires
        t is Function,
        faithful_expression(t),
        has_text(s, at, nested_text(t)),
        ends_expression(s, at + nested_text(t).len()),
    ensures
        expression(s, at) == Some((Ok::<ExprView, ParseError>(t), nested_text(t).len())),
    decreases t, 0nat,
{
    reveal_with_fuel(faithful, 3);
    reveal_with_fuel(faithful_operand, 3);
    reveal_with_fuel(faithful_expression, 3);
    lemma_words();
    lemma_text(t);
    let text = nested_text(t);
    match t {
        ExprView::Function(name, args) => {
            lemma_list_text(args, args.len());
            let list = list_text(args, args.len());
            assert(text == name + "("@ + list + ")"@);
            lemma_split(s, at, name + "("@ + list, ")"@);
            lemma_split(s, at, name + "("@, list);
            lemma_split(s, at, name, "("@);
            let open = at + name.len();
            let first = open + 1;
            let close = first + list.len();
            assert(s[open + 0] == "("@[0]);
            assert(s[close + 0] == ")"@[0]);
            lemma_identifier(s, at, name);
            lemma_no_blanks(s, open);
            if args.len() > 0 {
                assert(s[first + 0] == list[0]);
            }
            lemma_no_blanks(s, first);
            lemma_list_reads_back(args, s, first);
            lemma_no_blanks(s, close);
            lemma_all_read(args);
            lemma_function_call(s, at);
            lemma_expression(s, at);
        },
        _ => {},
    }
}

/// A lambda with a faithful body reads back.
#[verifier::rlimit(40)]
proof fn lemma_lambda_reads_back(t: ExprView, s: Seq<char>, at: int)
    requires
        t is Lambda,
        faithful_expression(t),
        has_text(s, at, nested_text(t)),
        ends_expression(s, at + nested_text(t).len()),
    ensures
        expression(s, at) == Some((Ok::<ExprView, ParseError>(t), nested_text(t).len())),
    decreases t, 0nat,
{
    reveal_with_fuel(faithful, 3);
    reveal_with_fuel(faithful_operand, 3);
    reveal_with_fuel(faithful_expression, 3);
    lemma_words();
    lemma_text(t);
    let text = nested_text(t);
    match t {
        ExprView::Lambda(l, op, var, body) => {
            let c = l->Identifier_0;
            let inner = bare_text(*body);
            lemma_text(*body);
            assert(text_of(*l, false) == Some(c));
            assert(text == c + "/"@ + op.token() + "("@ + var + ":"@ + inner + ")"@);
            lemma_split(s, at, c + "/"@ + op.token() + "("@ + var + ":"@ + inner, ")"@);
            lemma_split(s, at, c + "/"@ + op.token() + "("@ + var + ":"@, inner);
            lemma_split(s, at, c + "/"@ + op.token() + "("@ + var, ":"@);
            lemma_split(s, at, c + "/"@ + op.token() + "("@, var);
            lemma_split(s, at, c + "/"@ + op.token(), "("@);
            lemma_split(s, at, c + "/"@, op.token());
            lemma_split(s, at, c, "/"@);
            let slash = at + c.len();
            lemma_quantifier(s, slash + 1, op);
            let open = slash + 4;
            let var_at = open + 1;
            let colon = var_at + var.len();
            let body_at = colon + 1;
            let close = body_at + inner.len();
            assert(s[slash + 0] == "/"@[0]);
            assert(s[open + 0] == "("@[0]);
            assert(s[colon + 0] == ":"@[0]);
            assert(s[close + 0] == ")"@[0]);
            assert(s[var_at + 0] == var[0]);
            assert(s[body_at + 0] == inner[0]);
            lemma_identifier(s, at, c);
            lemma_identifier(s, var_at, var);
            lemma_no_blanks(s, slash);
            lemma_no_blanks(s, var_at);
            lemma_no_blanks(s, colon);
            lemma_no_blanks(s, body_at);
            lemma_no_blanks(s, close);
            lemma_bare_reads_back(*body, s, body_at);
            assert(lambda_head(s, at) == Some(
                LambdaHead { name: c.len(), op, var_at, var: var.len(), body_at },
            ));
            lemma_function_call(s, at);
            lemma_lambda(s, at);
            lemma_expression(s, at);
        },
        _ => {},
    }
}

/// A faithful expression reads back: where its text stands before the end
/// of an expression, the grammar reads the tree from it.
proof fn lemma_expression_reads_back(t: ExprView, s: Seq<char>, at: int)
    requires
        faithful_expression(t),
        has_text(s, at, nested_text(t)),
        ends_expression(s, at + nested_text(t).len()),
    ensures
        expression(s, at) == Some((Ok::<ExprView, ParseError>(t), nested_text(t).len())),
    decreases t, 1nat,
{
    reveal_with_fuel(faithful_expression, 2);
    match t {
        ExprView::Identifier(n) => {
            lemma_identifier_reads_back(s, at, n);
        },
        ExprView::Alias(n) => {
            lemma_alias_reads_back(s, at, n);
        },
        ExprView::Value(v) => {
            assert(expression(s, at) == Some(
                (Ok::<ExprView, ParseError>(t), nested_text(t).len()),
            ));
        },
        ExprView::Function(_, _) => lemma_call_reads_back(t, s, at),
        ExprView::Lambda(_, _, _, _) => lemma_lambda_reads_back(t, s, at),
        _ => {},
    }
}

/// A list of faithful trees reads back: where its text stands before `)`,
/// the grammar reads the trees from it.
#[verifier::rlimit(40)]
proof fn lemma_list_reads_back(items: Seq<ExprView>, s: Seq<char>, at: int)
    requires
        forall|i: int| 0 <= i < items.len() ==> faithful(#[trigger] items[i]),
        text_of_list(items, items.len()) is Some,
        has_text(s, at, list_text(items, items.len())),
        has_char(s, at + list_text(items, items.len()).len(), ')'),
    ensures
        filter_list(s, at) == (all_read(items), list_text(items, items.len()).len()),
    decreases items, items.len() + 1,
{
    lemma_filter_list(s, at);
    if items.len() == 0 {
        lemma_no_filter(s, at);
        assert(all_read(items) =~= Seq::<Read<ExprView>>::empty());
    } else {
        lemma_item(items, 0, items.len(), s, at);
        lemma_text(items[0]);
        let first = bare_text(items[0]);
        if items.len() == 1 {
            assert(list_text(items, 1) == first);
        }
        lemma_bare_reads_back(items[0], s, at);
        lemma_rest_reads_back(items, 1, s, at);
        assert(seq![Ok::<ExprView, ParseError>(items[0])] + all_read(
            items.subrange(1, items.len() as int),
        ) =~= all_read(items));
    }
}

/// The rest of a list of faithful trees reads back, from the item `k` on.
#[verifier::rlimit(40)]
proof fn lemma_rest_reads_back(items: Seq<ExprView>, k: nat, s: Seq<char>, at: int)
    requires
        forall|i: int| 0 <= i < items.len() ==> faithful(#[trigger] items[i]),
        1 <= k <= items.len(),
        text_of_list(items, items.len()) is Some,
        has_text(s, at, list_text(items, items.len())),
        has_char(s, at + list_text(items, items.len()).len(), ')'),
    ensures
        more_filters(s, at + list_text(items, k).len()) == (
            all_read(items.subrange(k as int, items.len() as int)),
            (list_text(items, items.len()).len() - list_text(items, k).len()) as nat,
        ),
        list_text(items, k).len() <= list_text(items, items.len()).len(),
    decreases items, items.len() - k,
{
    lemma_item(items, (k - 1) as nat, items.len(), s, at);
    let here = at + list_text(items, k).len();
    lemma_more_filters(s, here);
    if k == items.len() {
        lemma_no_blanks(s, here);
        assert(all_read(items.subrange(k as int, items.len() as int)) =~= Seq::<
            Read<ExprView>,
        >::empty());
    } else {
        lemma_item(items, k, items.len(), s, at);
        lemma_text(items[k as int]);
        let item = bare_text(items[k as int]);
        lemma_no_blanks(s, here);
        assert(s[here + 2 + 0] == item[0]);
        lemma_one_blank(s, here + 1);
        assert(next_item_at(s, here) == Some(here + 2));
        lemma_item(items, k, items.len(), s, at);
        let end = at + list_text(items, k + 1).len();
        assert(end == here + 2 + item.len());
        lemma_bare_reads_back(items[k as int], s, here + 2);
        lemma_rest_reads_back(items, k + 1, s, at);
        assert(seq![Ok::<ExprView, ParseError>(items[k as int])] + all_read(
            items.subrange(k as int + 1, items.len() as int),
        ) =~= all_read(items.subrange(k as int, items.len() as int)));
    }
}

/// What an operand that reads back gives: the tree, and its text with the
/// white space after it or without.
pub open spec fn operand_read(s: Seq<char>, at: int, t: ExprView) -> bool {
    match operand(s, at) {
        Some((r, n)) => {
            &&& r == Ok::<ExprView, ParseError>(t)
            &&& n >= nested_text(t).len()
            &&& past(s, at, n) == past(s, at, nested_text(t).len())
        },
        None => false,
    }
}

/// An `and` or an `or` in parentheses reads back as an operand.
#[verifier::rlimit(40)]
proof fn lemma_group_reads_back(t: ExprView, s: Seq<char>, at: int)
    requires
        t is Or || t is And,
        faithful_operand(t),
        has_text(s, at, nested_text(t)),
        ends_operand(s, at + nested_text(t).len()),
    ensures
        operand_read(s, at, t),
    decreases t, 3nat,
{
    reveal_with_fuel(faithful, 3);
    reveal_with_fuel(faithful_operand, 3);
    reveal_with_fuel(faithful_expression, 3);
    lemma_words();
    lemma_levels(t);
    lemma_text(t);
    let text = nested_text(t);
    let end = at + text.len();
    lemma_after_operand(s, end);
    assert(s[at + 0] == text[0]);
    lemma_operand(s, at);
    match t {
        ExprView::Or(l, r) | ExprView::And(l, r) => {
            lemma_levels(*l);
            lemma_text(*l);
            lemma_text(*r);
            let word = if t is Or {
                " or "@
            } else {
                " and "@
            };
            let body = nested_text(*l) + word + nested_text(*r);
            assert(text == "("@ + body + ")"@);
            assert(text_of(t, false) == Some(body));
            lemma_split(s, at, "("@ + body, ")"@);
            lemma_split(s, at, "("@, body);
            assert(s[at + 1 + body.len() + 0] == ")"@[0]);
            assert(body[0] == nested_text(*l)[0]);
            assert(s[at + 1 + 0] == body[0]);
            lemma_no_blanks(s, at + 1);
            lemma_join_reads_back(t, s, at + 1);
            lemma_no_blanks(s, at + 1 + body.len());
        },
        _ => {},
    }
}

/// A comparison of faithful expressions reads back as an operand.
#[verifier::rlimit(40)]
proof fn lemma_compare_reads_back(t: ExprView, s: Seq<char>, at: int)
    requires
        t is Compare,
        faithful_operand(t),
        has_text(s, at, nested_text(t)),
        ends_operand(s, at + nested_text(t).len()),
    ensures
        operand_read(s, at, t),
    decreases t, 3nat,
{
    reveal_with_fuel(faithful, 3);
    reveal_with_fuel(faithful_operand, 3);
    reveal_with_fuel(faithful_expression, 3);
    lemma_words();
    lemma_levels(t);
    lemma_text(t);
    let text = nested_text(t);
    let end = at + text.len();
    lemma_after_operand(s, end);
    assert(s[at + 0] == text[0]);
    lemma_operand(s, at);
    match t {
        ExprView::Compare(l, op, r) => {
            lemma_levels(*l);
            lemma_levels(*r);
            lemma_text(*l);
            lemma_text(*r);
            let lhs = nested_text(*l);
            let rhs = nested_text(*r);
            assert(text_of(*l, false) == Some(lhs));
            assert(text_of(*r, false) == Some(rhs));
            assert(text == lhs + " "@ + op.token() + " "@ + rhs);
            lemma_split(s, at, lhs + " "@ + op.token() + " "@, rhs);
            lemma_split(s, at, lhs + " "@ + op.token(), " "@);
            lemma_split(s, at, lhs + " "@, op.token());
            lemma_split(s, at, lhs, " "@);
            let space = at + lhs.len();
            let token = space + 1;
            lemma_token(s, token, op);
            let gap = token + op.token().len();
            let rhs_at = gap + 1;
            assert(s[space + 0] == " "@[0]);
            assert(s[gap + 0] == " "@[0]);
            assert(s[token + 0] == op.token()[0]);
            assert(s[rhs_at + 0] == rhs[0]);
            lemma_one_blank(s, space);
            lemma_one_blank(s, gap);
            lemma_expression_reads_back(*l, s, at);
            lemma_expression_reads_back(*r, s, rhs_at);
            lemma_follower(s, token);
            assert(follower(s, token).1 == op.token().len() + 1 + rhs.len());
        },
        _ => {},
    }
}

/// An `in` over a faithful expression and faithful items reads back as an
/// operand.
#[verifier::rlimit(40)]
proof fn lemma_in_reads_back(t: ExprView, s: Seq<char>, at: int)
    requires
        t is In,
        faithful_operand(t),
        has_text(s, at, nested_text(t)),
        ends_operand(s, at + nested_text(t).len()),
    ensures
        operand_read(s, at, t),
    decreases t, 3nat,
{
    reveal_with_fuel(faithful, 3);
    reveal_with_fuel(faithful_operand, 3);
    reveal_with_fuel(faithful_expression, 3);
    lemma_words();
    lemma_levels(t);
    lemma_text(t);
    let text = nested_text(t);
    let end = at + text.len();
    lemma_after_operand(s, end);
    assert(s[at + 0] == text[0]);
    lemma_operand(s, at);
    match t {
        ExprView::In(l, items) => {
            lemma_levels(*l);
            lemma_text(*l);
            lemma_list_text(items, items.len());
            let lhs = nested_text(*l);
            let list = list_text(items, items.len());
            assert(text_of(*l, false) == Some(lhs));
            assert(text == lhs + " in ("@ + list + ")"@);
            lemma_split(s, at, lhs + " in ("@ + list, ")"@);
            lemma_split(s, at, lhs + " in ("@, list);
            lemma_split(s, at, lhs, " in ("@);
            let space = at + lhs.len();
            let word = space + 1;
            let first = space + 5;
            let close = first + list.len();
            assert(s[space + 0] == " in ("@[0]);
            assert(s[space + 1] == " in ("@[1]);
            assert(s[space + 2] == " in ("@[2]);
            assert(s[space + 3] == " in ("@[3]);
            assert(s[space + 4] == " in ("@[4]);
            assert(s[close + 0] == ")"@[0]);
            if items.len() > 0 {
                assert(s[first + 0] == list[0]);
            }
            lemma_one_blank(s, space);
            lemma_one_blank(s, word + 2);
            lemma_no_blanks(s, first);
            lemma_no_blanks(s, close);
            lemma_expression_reads_back(*l, s, at);
            lemma_list_reads_back(items, s, first);
            lemma_all_read(items);
            lemma_follower(s, word);
            assert(follower(s, word).1 == 4 + list.len() + 1);
        },
        _ => {},
    }
}

/// A faithful expression reads back as an operand, with the white space
/// after it.
#[verifier::rlimit(40)]
proof fn lemma_plain_reads_back(t: ExprView, s: Seq<char>, at: int)
    requires
        faithful_expression(t),
        faithful_operand(t),
        has_text(s, at, nested_text(t)),
        ends_operand(s, at + nested_text(t).len()),
    ensures
        operand_read(s, at, t),
    decreases t, 3nat,
{
    reveal_with_fuel(faithful, 3);
    reveal_with_fuel(faithful_operand, 3);
    reveal_with_fuel(faithful_expression, 3);
    lemma_words();
    lemma_levels(t);
    lemma_text(t);
    let text = nested_text(t);
    let end = at + text.len();
    lemma_after_operand(s, end);
    assert(s[at + 0] == text[0]);
    lemma_operand(s, at);
    lemma_expression_reads_back(t, s, at);
    lemma_follower(s, past(s, end, 0));
    assert(past(s, at, text.len()) == past(s, end, 0));
}

/// A faithful operand reads back: where its text stands before the end of an
/// operand, the grammar reads the tree from it.
proof fn lemma_operand_reads_back(t: ExprView, s: Seq<char>, at: int)
    requires
        faithful_operand(t),
        has_text(s, at, nested_text(t)),
        ends_operand(s, at + nested_text(t).len()),
    ensures
        operand_read(s, at, t),
    decreases t, 4nat,
{
    reveal_with_fuel(faithful_operand, 2);
    match t {
        ExprView::Or(_, _) | ExprView::And(_, _) => lemma_group_reads_back(t, s, at),
        ExprView::Compare(_, _, _) => lemma_compare_reads_back(t, s, at),
        ExprView::In(_, _) => lemma_in_reads_back(t, s, at),
        ExprView::Not(_) => {},
        _ => lemma_plain_reads_back(t, s, at),
    }
}

/// An `and` or an `or` without its parentheses reads back as a filter.
#[verifier::rlimit(40)]
proof fn lemma_join_reads_back(t: ExprView, s: Seq<char>, at: int)
    requires
        t is Or || t is And,
        faithful_operand(t),
        text_of(t, false) is Some,
        has_text(s, at, text_of(t, false)->0),
        ends_filter(s, at + text_of(t, false)->0.len()),
    ensures
        filter(s, at) == Some(
            (Ok::<ExprView, ParseError>(t), text_of(t, false)->0.len()),
        ),
    decreases t, 2nat,
{
    reveal_with_fuel(faithful, 3);
    reveal_with_fuel(faithful_operand, 3);
    reveal_with_fuel(faithful_expression, 3);
    lemma_words();
    match t {
        ExprView::Or(l, r) | ExprView::And(l, r) => {
            lemma_levels(*l);
            lemma_text(*l);
            lemma_text(*r);
            let word = if t is Or {
                " or "@
            } else {
                " and "@
            };
            let lhs = nested_text(*l);
            let rhs = nested_text(*r);
            assert(text_of(t, false)->0 == lhs + word + rhs);
            lemma_split(s, at, lhs + word, rhs);
            lemma_split(s, at, lhs, word);
            let space = at + lhs.len();
            let rhs_at = space + word.len();
            assert(s[space + 0] == word[0]);
            assert(s[space + 1] == word[1]);
            assert(s[space + 2] == word[2]);
            assert(s[space + 3] == word[3]);
            if t is And {
                assert(s[space + 4] == word[4]);
            }
            assert(s[rhs_at + 0] == rhs[0]);
            lemma_not_word(s, at, lhs);
            lemma_operand_reads_back(*l, s, at);
            lemma_one_blank(s, space);
            lemma_one_blank(s, rhs_at - 1);
            lemma_filter_reads_back(*r, s, rhs_at);
            lemma_filter(s, at);
        },
        _ => {},
    }
}

/// A faithful tree reads back as a filter: where its text as an operand
/// stands before the end of a filter, the grammar reads the tree from it.
#[verifier::rlimit(40)]
proof fn lemma_filter_reads_back(t: ExprView, s: Seq<char>, at: int)
    requires
        faithful(t),
        has_text(s, at, nested_text(t)),
        ends_filter(s, at + nested_text(t).len()),
    ensures
        filter(s, at) == Some((Ok::<ExprView, ParseError>(t), nested_text(t).len())),
    decreases t, 5nat,
{
    reveal_with_fuel(faithful, 3);
    reveal_with_fuel(faithful_operand, 3);
    reveal_with_fuel(faithful_expression, 3);
    lemma_words();
    lemma_text(t);
    let text = nested_text(t);
    let end = at + text.len();
    lemma_filter(s, at);
    match t {
        ExprView::Not(e) => {
            lemma_text(*e);
            let inner = nested_text(*e);
            assert(text == "not "@ + inner);
            lemma_split(s, at, "not "@, inner);
            assert(s[at + 0] == "not "@[0]);
            assert(s[at + 1] == "not "@[1]);
            assert(s[at + 2] == "not "@[2]);
            assert(s[at + 3] == "not "@[3]);
            assert(s[at + 4 + 0] == inner[0]);
            lemma_one_blank(s, at + 3);
            lemma_filter_reads_back(*e, s, at + 4);
        },
        _ => {
            lemma_not_word(s, at, text);
            lemma_operand_reads_back(t, s, at);
            lemma_after_operand(s, end);
            lemma_no_blanks(s, end);
        },
    }
}

/// A faithful tree reads back as a filter where it stands bare.
proof fn lemma_bare_reads_back(t: ExprView, s: Seq<char>, at: int)
    requires
        faithful(t),
        has_text(s, at, bare_text(t)),
        ends_filter(s, at + bare_text(t).len()),
    ensures
        filter(s, at) == Some((Ok::<ExprView, ParseError>(t), bare_text(t).len())),
    decreases t, 6nat,
{
    reveal_with_fuel(faithful, 3);
    lemma_text(t);
    if t is Or || t is And {
        lemma_join_reads_back(t, s, at);
    } else {
        lemma_filter_reads_back(t, s, at);
    }
}

/// The text of a faithful tree parses to the tree.
pub proof fn lemma_text_parses_back(t: ExprView)
    requires
        faithful(t),
    ensures
        text_of(t, false) is Some,
        parse_text(text_of(t, false)->0) == Ok::<ExprView, ParseError>(t),
{
    reveal_with_fuel(faithful, 3);
    lemma_text(t);
    let s = text_of(t, false)->0;
    assert(has_text(s, 0, s));
    lemma_bare_reads_back(t, s, 0);
}

/// A text whose tree is faithful parses to the same tree after it was
/// rendered: rendering and parsing again changes nothing.
pub proof fn lemma_round_trip(f: Seq<char>)
    requires
        parse_text(f) is Ok,
        faithful(parse_text(f)->Ok_0),
    ensures
        text_of(parse_text(f)->Ok_0, false) is Some,
        parse_text(text_of(parse_text(f)->Ok_0, false)->0) == parse_text(f),
{
    lemma_text_parses_back(parse_text(f)->Ok_0);
}

/// The text of a faithful tree parses to the tree after trimming too:
/// it neither starts nor ends with white space.
pub proof fn lemma_trimmed_text_parses_back(t: ExprView)
    requires
        faithful(t),
    ensures
        text_of(t, false) is Some,
        trimmed(text_of(t, false)->0) == text_of(t, false)->0,
        parse_text(trimmed(text_of(t, false)->0)) == Ok::<ExprView, ParseError>(t),
{
    lemma_text_parses_back(t);
    lemma_text(t);
    lemma_trimmed_is_whole(text_of(t, false)->0);
}

} // verus!
