//! The shape of the trees that the grammar reads, and which of them read
//! back from their text.

use vstd::prelude::*;
use super::grammar::{
    alias, all_or_first_error, comparison_operator, has2, has3, has_char, identifier, remaining,
    value, CharClass, Read,
};
use super::model::ExprView;
use super::parse::trimmed;
use super::readback::{literal_readable, readable, readable_expression, readable_operand};
use super::render::text_of;
use super::roundtrip::{
    faithful, faithful_expression, faithful_operand, is_alias_name, is_name,
    lemma_trimmed_text_parses_back, reads_back, starts_as_literal, starts_with_not,
};
use super::rules::{
    arguments_at, expression, filter, filter_list, follower, function_call, lambda, lambda_head,
    lemma_expression, lemma_filter, lemma_filter_list, lemma_follower, lemma_function_call,
    lemma_lambda, lemma_more_filters, lemma_operand, more_filters, next_item_at, opens_list,
    operand, parse_text, past, taken_by, AfterView,
};
use super::scan::lemma_run;

verus! {

/// Whether `t` has the shape of an expression of the grammar: a call of a
/// function with a name, a lambda over a named collection with a named
/// variable, a literal, an alias with a name, or an identifier that does not
/// start as a literal does; the arguments and the body of the shape of a
/// filter.
pub open spec fn grammatical_expression(t: ExprView) -> bool
    decreases t, 0nat,
{
    match t {
        ExprView::Function(name, args) => is_name(name) && forall|i: int|
            0 <= i < args.len() ==> grammatical(#[trigger] args[i]),
        ExprView::Lambda(l, _, var, body) => {
            &&& *l matches ExprView::Identifier(c)
            &&& is_name(c)
            &&& is_name(var)
            &&& grammatical(*body)
        },
        ExprView::Value(_) => true,
        ExprView::Alias(n) => is_alias_name(n),
        ExprView::Identifier(n) => is_name(n) && !starts_as_literal(n),
        _ => false,
    }
}

/// Whether `t` has the shape of a filter of the grammar: an expression; a
/// comparison of two expressions; an `in` of an expression and filters; or
/// an `and`, an `or` or a `not` over filters.
pub open spec fn grammatical(t: ExprView) -> bool
    decreases t, 1nat,
{
    match t {
        ExprView::Or(l, r) | ExprView::And(l, r) => grammatical(*l) && grammatical(*r),
        ExprView::Not(e) => grammatical(*e),
        ExprView::Compare(l, _, r) => grammatical_expression(*l) && grammatical_expression(*r),
        ExprView::In(l, items) => grammatical_expression(*l) && forall|i: int|
            0 <= i < items.len() ==> grammatical(#[trigger] items[i]),
        _ => grammatical_expression(t),
    }
}

/// Whether each result of a list that is a tree has the shape of a filter.
pub open spec fn all_grammatical(results: Seq<Read<ExprView>>) -> bool {
    forall|i: int|
        0 <= i < results.len() ==> match #[trigger] results[i] {
            Ok(t) => grammatical(t),
            Err(_) => true,
        }
}

/// Whether every literal of `t` reads back.
pub open spec fn literals_read_back(t: ExprView) -> bool
    decreases t,
{
    match t {
        ExprView::Or(l, r) | ExprView::And(l, r) => literals_read_back(*l) && literals_read_back(
            *r,
        ),
        ExprView::Not(e) => literals_read_back(*e),
        ExprView::Compare(l, _, r) => literals_read_back(*l) && literals_read_back(*r),
        ExprView::In(l, items) => literals_read_back(*l) && forall|i: int|
            0 <= i < items.len() ==> literals_read_back(#[trigger] items[i]),
        ExprView::Function(_, args) => forall|i: int|
            0 <= i < args.len() ==> literals_read_back(#[trigger] args[i]),
        ExprView::Lambda(l, _, _, body) => literals_read_back(*l) && literals_read_back(*body),
        ExprView::Value(v) => reads_back(v),
        _ => true,
    }
}

/// Whether every literal of `t` is of a kind that reads back wherever it has
/// a text.
pub open spec fn literals_are_readable(t: ExprView) -> bool
    decreases t,
{
    match t {
        ExprView::Or(l, r) | ExprView::And(l, r) => literals_are_readable(*l)
            && literals_are_readable(*r),
        ExprView::Not(e) => literals_are_readable(*e),
        ExprView::Compare(l, _, r) => literals_are_readable(*l) && literals_are_readable(*r),
        ExprView::In(l, items) => literals_are_readable(*l) && forall|i: int|
            0 <= i < items.len() ==> literals_are_readable(#[trigger] items[i]),
        ExprView::Function(_, args) => forall|i: int|
            0 <= i < args.len() ==> literals_are_readable(#[trigger] args[i]),
        ExprView::Lambda(l, _, _, body) => literals_are_readable(*l) && literals_are_readable(
            *body,
        ),
        ExprView::Value(v) => literal_readable(v),
        _ => true,
    }
}

/// Whether the place of no part of the expression `t` keeps it from reading
/// back: the arguments of a call and the body of a lambda are clear.
pub open spec fn clear_expression(t: ExprView) -> bool
    decreases t, 0nat,
{
    match t {
        ExprView::Function(_, args) => forall|i: int|
            0 <= i < args.len() ==> clear(#[trigger] args[i]),
        ExprView::Lambda(_, _, _, body) => clear(*body),
        _ => true,
    }
}

/// Whether the place of no part of the operand `t` keeps it from reading
/// back: it is no `not`, which the renderer writes without the parentheses
/// that it was read in; its text does not start with `not`, which the
/// grammar would take for the word; and its parts are clear.
pub open spec fn clear_operand(t: ExprView) -> bool
    decreases t, 1nat,
{
    !starts_with_not(text_of(t, true)->0) && match t {
        ExprView::Compare(l, _, r) => clear_expression(*l) && clear_expression(*r),
        ExprView::In(l, items) => clear_expression(*l) && forall|i: int|
            0 <= i < items.len() ==> clear(#[trigger] items[i]),
        ExprView::Or(l, r) | ExprView::And(l, r) => clear_operand(*l) && clear(*r),
        ExprView::Not(_) => false,
        _ => clear_expression(t),
    }
}

/// Whether the place of no part of the filter `t` keeps it from reading
/// back: it is a clear operand, or a `not` over a clear filter.
pub open spec fn clear(t: ExprView) -> bool
    decreases t, 2nat,
{
    match t {
        ExprView::Not(e) => clear(*e),
        _ => clear_operand(t),
    }
}

/// An identifier of the text is a name.
proof fn lemma_identifier_is_name(s: Seq<char>, at: int)
    requires
        identifier(s, at) is Some,
    ensures
        at + identifier(s, at)->0 <= s.len(),
        is_name(s.subrange(at, at + identifier(s, at)->0)),
{
    lemma_run(s, at + 1, CharClass::IdentifierPart);
}

/// An identifier that stands where no literal does, does not start as a
/// literal does.
proof fn lemma_identifier_is_no_literal(s: Seq<char>, at: int)
    requires
        identifier(s, at) is Some,
        value(s, at) is None,
    ensures
        !starts_as_literal(s.subrange(at, at + identifier(s, at)->0)),
{
    lemma_identifier_is_name(s, at);
    let n = s.subrange(at, at + identifier(s, at)->0);
    assert forall|i: int| 0 <= i < n.len() implies #[trigger] n[i] == s[at + i] by {}
    if n.len() > 0 {
        assert(n[0] == s[at + 0]);
    }
    if n.len() > 1 {
        assert(n[1] == s[at + 1]);
    }
    if n.len() > 2 {
        assert(n[2] == s[at + 2]);
    }
    if n.len() > 3 {
        assert(n[3] == s[at + 3]);
    }
    if n.len() > 4 {
        assert(n[4] == s[at + 4]);
    }
}

/// An alias of the text has the name of an alias.
proof fn lemma_alias_has_a_name(s: Seq<char>, at: int)
    requires
        alias(s, at) is Some,
    ensures
        match alias(s, at) {
            Some((Ok(ExprView::Alias(n)), _)) => is_alias_name(n),
            _ => false,
        },
{
    lemma_identifier_is_name(s, at + 1);
    let n = identifier(s, at + 1)->0;
    let whole = s.subrange(at, at + 1 + n);
    assert(whole.subrange(1, whole.len() as int) =~= s.subrange(at + 1, at + 1 + n));
}

/// The trees of a list that holds no error are those of its results.
proof fn lemma_all_have_the_shape(results: Seq<Read<ExprView>>)
    requires
        all_grammatical(results),
        all_or_first_error(results) is Ok,
    ensures
        forall|i: int|
            0 <= i < all_or_first_error(results)->Ok_0.len() ==> grammatical(
                #[trigger] all_or_first_error(results)->Ok_0[i],
            ),
    decreases results.len(),
{
    if results.len() > 0 {
        let before = results.drop_last();
        assert forall|i: int| 0 <= i < before.len() implies match #[trigger] before[i] {
            Ok(t) => grammatical(t),
            Err(_) => true,
        } by {
            assert(before[i] == results[i]);
        }
        lemma_all_have_the_shape(before);
        assert(results.last() == results[results.len() - 1]);
    }
}

/// What the rule `filter` reads has the shape of a filter.
proof fn lemma_filter_shape(s: Seq<char>, at: int)
    ensures
        filter(s, at) matches Some((Ok(t), _)) ==> grammatical(t),
    decreases remaining(s, at), 4nat,
{
    lemma_filter(s, at);
    lemma_operand_shape(s, at);
    if has3(s, at, 'n', 'o', 't') {
        lemma_filter_shape(s, past(s, at, 3));
    }
    let lhs = operand(s, at);
    if lhs is Some {
        let word = past(s, at, taken_by(lhs));
        if has2(s, word, 'o', 'r') {
            lemma_filter_shape(s, past(s, word, 2));
        }
        if has3(s, word, 'a', 'n', 'd') {
            lemma_filter_shape(s, past(s, word, 3));
        }
    }
}

/// What the rule `operand` reads has the shape of a filter.
proof fn lemma_operand_shape(s: Seq<char>, at: int)
    ensures
        operand(s, at) matches Some((Ok(t), _)) ==> grammatical(t),
    decreases remaining(s, at), 3nat,
{
    lemma_operand(s, at);
    if has_char(s, at, '(') {
        lemma_filter_shape(s, past(s, at, 1));
    }
    lemma_expression_shape(s, at);
    lemma_follower_shape(s, past(s, at, taken_by(expression(s, at))));
}

/// What the rule `follower` reads holds an expression, or filters.
proof fn lemma_follower_shape(s: Seq<char>, at: int)
    ensures
        match follower(s, at).0 {
            Ok(AfterView::Compare(_, r)) => grammatical_expression(r),
            Ok(AfterView::In(items)) => forall|i: int|
                0 <= i < items.len() ==> grammatical(#[trigger] items[i]),
            _ => true,
        },
    decreases remaining(s, at), 2nat,
{
    lemma_follower(s, at);
    match comparison_operator(s, at) {
        Some((_, n)) => {
            lemma_expression_shape(s, past(s, at, n));
        },
        None => {},
    }
    if opens_list(s, at) {
        let first = past(s, past(s, at, 2), 1);
        lemma_list_shape(s, first);
        if all_or_first_error(filter_list(s, first).0) is Ok {
            lemma_all_have_the_shape(filter_list(s, first).0);
        }
    }
}

/// What the rule `expression` reads has the shape of an expression.
proof fn lemma_expression_shape(s: Seq<char>, at: int)
    ensures
        expression(s, at) matches Some((Ok(t), _)) ==> grammatical_expression(t),
    decreases remaining(s, at), 1nat,
{
    lemma_expression(s, at);
    lemma_call_shape(s, at);
    lemma_lambda_shape(s, at);
    if function_call(s, at) is None && lambda(s, at) is None && value(s, at) is None {
        if alias(s, at) is Some {
            lemma_alias_has_a_name(s, at);
        } else if identifier(s, at) is Some {
            lemma_identifier_is_name(s, at);
            lemma_identifier_is_no_literal(s, at);
        }
    }
}

/// What the rule `function_call` reads has the shape of an expression.
proof fn lemma_call_shape(s: Seq<char>, at: int)
    ensures
        function_call(s, at) matches Some((Ok(t), _)) ==> grammatical_expression(t),
    decreases remaining(s, at), 0nat,
{
    lemma_function_call(s, at);
    match arguments_at(s, at) {
        Some(first) => {
            lemma_identifier_is_name(s, at);
            lemma_list_shape(s, first);
            if all_or_first_error(filter_list(s, first).0) is Ok {
                lemma_all_have_the_shape(filter_list(s, first).0);
            }
        },
        None => {},
    }
}

/// What the rule `lambda` reads has the shape of an expression.
proof fn lemma_lambda_shape(s: Seq<char>, at: int)
    ensures
        lambda(s, at) matches Some((Ok(t), _)) ==> grammatical_expression(t),
    decreases remaining(s, at), 0nat,
{
    lemma_lambda(s, at);
    match lambda_head(s, at) {
        Some(head) => {
            lemma_identifier_is_name(s, at);
            lemma_identifier_is_name(s, head.var_at);
            lemma_filter_shape(s, head.body_at);
        },
        None => {},
    }
}

/// What the rule `filter_list` reads has the shape of filters.
proof fn lemma_list_shape(s: Seq<char>, at: int)
    ensures
        all_grammatical(filter_list(s, at).0),
    decreases remaining(s, at), 6nat,
{
    lemma_filter_list(s, at);
    lemma_filter_shape(s, at);
    lemma_more_shape(s, at + taken_by(filter(s, at)));
}

/// What the rule `more_filters` reads has the shape of filters.
proof fn lemma_more_shape(s: Seq<char>, at: int)
    ensures
        all_grammatical(more_filters(s, at).0),
    decreases remaining(s, at), 5nat,
{
    lemma_more_filters(s, at);
    match next_item_at(s, at) {
        Some(next) => {
            lemma_filter_shape(s, next);
            if filter(s, next) is Some {
                lemma_more_shape(s, next + taken_by(filter(s, next)));
            }
        },
        None => {},
    }
}

/// A tree of the shape of a filter whose parts stand clear and whose
/// literals read back is faithful.
pub proof fn lemma_clear_is_faithful(t: ExprView)
    requires
        grammatical(t),
        literals_read_back(t),
    ensures
        clear(t) ==> faithful(t),
        clear_operand(t) ==> faithful_operand(t),
        grammatical_expression(t) && clear_expression(t) ==> faithful_expression(t),
    decreases t,
{
    reveal_with_fuel(grammatical, 3);
    reveal_with_fuel(grammatical_expression, 3);
    reveal_with_fuel(clear, 3);
    reveal_with_fuel(clear_operand, 3);
    reveal_with_fuel(clear_expression, 3);
    reveal_with_fuel(faithful, 3);
    reveal_with_fuel(faithful_operand, 3);
    reveal_with_fuel(faithful_expression, 3);
    match t {
        ExprView::Or(l, r) | ExprView::And(l, r) => {
            lemma_clear_is_faithful(*l);
            lemma_clear_is_faithful(*r);
        },
        ExprView::Not(e) => {
            lemma_clear_is_faithful(*e);
        },
        ExprView::Compare(l, _, r) => {
            lemma_clear_is_faithful(*l);
            lemma_clear_is_faithful(*r);
        },
        ExprView::In(l, items) => {
            lemma_clear_is_faithful(*l);
            assert forall|i: int| 0 <= i < items.len() && clear(#[trigger] items[i]) implies faithful(
                items[i],
            ) by {
                lemma_clear_is_faithful(items[i]);
            }
        },
        ExprView::Function(_, args) => {
            assert forall|i: int| 0 <= i < args.len() && clear(#[trigger] args[i]) implies faithful(
                args[i],
            ) by {
                lemma_clear_is_faithful(args[i]);
            }
        },
        ExprView::Lambda(_, _, _, body) => {
            lemma_clear_is_faithful(*body);
        },
        _ => {},
    }
}

/// A tree of the shape of a filter whose parts stand clear and whose
/// literals are of the kinds that read back is one that `readable`
/// describes.
pub proof fn lemma_clear_is_readable(t: ExprView)
    requires
        grammatical(t),
        literals_are_readable(t),
    ensures
        clear(t) ==> readable(t),
        clear_operand(t) ==> readable_operand(t),
        grammatical_expression(t) && clear_expression(t) ==> readable_expression(t),
    decreases t,
{
    reveal_with_fuel(grammatical, 3);
    reveal_with_fuel(grammatical_expression, 3);
    reveal_with_fuel(clear, 3);
    reveal_with_fuel(clear_operand, 3);
    reveal_with_fuel(clear_expression, 3);
    reveal_with_fuel(readable, 3);
    reveal_with_fuel(readable_operand, 3);
    reveal_with_fuel(readable_expression, 3);
    match t {
        ExprView::Or(l, r) | ExprView::And(l, r) => {
            lemma_clear_is_readable(*l);
            lemma_clear_is_readable(*r);
        },
        ExprView::Not(e) => {
            lemma_clear_is_readable(*e);
        },
        ExprView::Compare(l, _, r) => {
            lemma_clear_is_readable(*l);
            lemma_clear_is_readable(*r);
        },
        ExprView::In(l, items) => {
            lemma_clear_is_readable(*l);
            assert forall|i: int| 0 <= i < items.len() && clear(#[trigger] items[i]) implies readable(
                items[i],
            ) by {
                lemma_clear_is_readable(items[i]);
            }
        },
        ExprView::Function(_, args) => {
            assert forall|i: int| 0 <= i < args.len() && clear(#[trigger] args[i]) implies readable(
                args[i],
            ) by {
                lemma_clear_is_readable(args[i]);
            }
        },
        ExprView::Lambda(_, _, _, body) => {
            lemma_clear_is_readable(*body);
        },
        _ => {},
    }
}

/// Every tree that the parser gives has the shape of a filter.
pub proof fn lemma_parsed_is_grammatical(f: Seq<char>)
    ensures
        parse_text(f) matches Ok(t) ==> grammatical(t),
{
    lemma_filter_shape(f, 0);
}

/// A text parses to the same tree after its tree was rendered, where nothing
/// keeps the tree from reading back: each of its literals reads back, no
/// `not` is the left operand of an `and` or an `or`, and no operand has a
/// text that starts with `not`.
pub proof fn lemma_parsed_round_trip(f: Seq<char>)
    requires
        parse_text(f) is Ok,
        clear(parse_text(f)->Ok_0),
        literals_read_back(parse_text(f)->Ok_0),
    ensures
        faithful(parse_text(f)->Ok_0),
        text_of(parse_text(f)->Ok_0, false) is Some,
        parse_text(trimmed(text_of(parse_text(f)->Ok_0, false)->0)) == parse_text(f),
{
    let t = parse_text(f)->Ok_0;
    lemma_parsed_is_grammatical(f);
    lemma_clear_is_faithful(t);
    lemma_trimmed_text_parses_back(t);
}

/// A tree that the parser gave is one that `readable` describes, and so
/// parses back from what the renderer writes for it, where its parts stand
/// clear and its literals are of the kinds that read back.
pub proof fn lemma_parsed_is_readable(f: Seq<char>)
    requires
        parse_text(f) is Ok,
        clear(parse_text(f)->Ok_0),
        literals_are_readable(parse_text(f)->Ok_0),
    ensures
        readable(parse_text(f)->Ok_0),
{
    lemma_parsed_is_grammatical(f);
    lemma_clear_is_readable(parse_text(f)->Ok_0);
}

} // verus!
