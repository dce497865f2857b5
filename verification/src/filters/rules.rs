//! The grammar of filter text: the rules of expressions.
//!
//! The rules call one another in a circle. Each is stated in two parts: a
//! function that says which rules are read where, and a function without
//! recursion, its name ending in `_rule`, that says what the rule gives for
//! what those rules gave. Each rule comes with a lemma that unfolds it once.

use vstd::prelude::*;
use super::errors::ParseError;
use super::grammar::{
    alias, all_or_first_error, blanks, comparison_operator, has2, has3, has_char, identifier,
    lambda_operator, remaining, value, Match, Read,
};
use super::model::{CompareOperator, ExprView, LambdaOperator};

verus! {

/// What follows the left operand of a comparison or of an `in`.
pub ghost enum AfterView {
    Compare(CompareOperator, ExprView),
    In(Seq<ExprView>),
    End,
}

/// The results of a list of filters, and the characters that the list took.
pub type ListMatch = (Seq<Read<ExprView>>, nat);

/// The position after `len` characters at `at` and after the white space
/// that follows them.
pub open spec fn past(s: Seq<char>, at: int, len: nat) -> int {
    at + len + blanks(s, at + len)
}

/// The number of characters that a match took, and 0 for none.
pub open spec fn taken_by<T>(m: Option<(T, nat)>) -> nat {
    match m {
        Some((_, n)) => n,
        None => 0,
    }
}

/// The tree of a `not` over an operand that was read.
pub open spec fn negated(inner: Read<ExprView>) -> Read<ExprView> {
    match inner {
        Ok(e) => Ok(ExprView::Not(Box::new(e))),
        Err(e) => Err(e),
    }
}

/// The tree of an `or`, or of an `and` if not `is_or`, over two operands that
/// were read: the error of the left operand, else that of the right one, else
/// the tree.
pub open spec fn joined(lhs: Read<ExprView>, rhs: Read<ExprView>, is_or: bool) -> Read<ExprView> {
    match (lhs, rhs) {
        (Err(e), _) => Err(e),
        (Ok(_), Err(e)) => Err(e),
        (Ok(l), Ok(r)) => Ok(
            if is_or {
                ExprView::Or(Box::new(l), Box::new(r))
            } else {
                ExprView::And(Box::new(l), Box::new(r))
            },
        ),
    }
}

/// The tree of an expression and of what follows it: the error in what
/// follows, else the error in the expression, else the tree.
pub open spec fn followed(lhs: Read<ExprView>, after: Read<AfterView>) -> Read<ExprView> {
    match after {
        Err(e) => Err(e),
        Ok(AfterView::Compare(op, rhs)) => match lhs {
            Err(e) => Err(e),
            Ok(l) => Ok(ExprView::Compare(Box::new(l), op, Box::new(rhs))),
        },
        Ok(AfterView::In(items)) => match lhs {
            Err(e) => Err(e),
            Ok(l) => Ok(ExprView::In(Box::new(l), items)),
        },
        Ok(AfterView::End) => lhs,
    }
}

/// What a filter gives, for what `not` and a filter gave, what an operand
/// gave, and what `or` and a filter, and `and` and a filter, gave after the
/// operand.
pub open spec fn filter_rule(
    s: Seq<char>,
    at: int,
    after_not: Match<ExprView>,
    lhs: Match<ExprView>,
    after_or: Match<ExprView>,
    after_and: Match<ExprView>,
) -> Match<ExprView> {
    match (after_not, lhs) {
        (Some((inner, n)), _) => Some((negated(inner), (past(s, at, 3) - at) as nat + n)),
        (None, None) => None,
        (None, Some((l, n))) => match (after_or, after_and) {
            (Some((r, m)), _) => Some(
                (joined(l, r, true), (past(s, past(s, at, n), 2) - at) as nat + m),
            ),
            (None, Some((r, m))) => Some(
                (joined(l, r, false), (past(s, past(s, at, n), 3) - at) as nat + m),
            ),
            (None, None) => Some((l, n)),
        },
    }
}

/// A filter: `not` and a filter; or an operand, `or` and a filter; or an
/// operand, `and` and a filter; or an operand alone.
///
/// What follows `or` or `and` is a whole filter, so neither binds more
/// tightly than the other: the one that comes first in the text is the outer
/// node, and the rest of the text is its right operand.
#[verifier::opaque]
pub open spec fn filter(s: Seq<char>, at: int) -> Match<ExprView>
    decreases remaining(s, at), 4nat,
{
    let lhs = operand(s, at);
    let word = past(s, at, taken_by(lhs));
    filter_rule(
        s,
        at,
        if has3(s, at, 'n', 'o', 't') {
            filter(s, past(s, at, 3))
        } else {
            None
        },
        lhs,
        if lhs is Some && has2(s, word, 'o', 'r') {
            filter(s, past(s, word, 2))
        } else {
            None
        },
        if lhs is Some && has3(s, word, 'a', 'n', 'd') {
            filter(s, past(s, word, 3))
        } else {
            None
        },
    )
}

/// What an operand gives, for what a filter gave after `(`, what an
/// expression gave, and what followed the expression.
pub open spec fn operand_rule(
    s: Seq<char>,
    at: int,
    inner: Match<ExprView>,
    lhs: Match<ExprView>,
    after: (Read<AfterView>, nat),
) -> Match<ExprView> {
    let close = past(s, past(s, at, 1), taken_by(inner));
    match (inner, lhs) {
        (Some((e, _)), _) if has_char(s, close, ')') => Some((e, (close + 1 - at) as nat)),
        (_, Some((l, n))) => Some((followed(l, after.0), (past(s, at, n) - at) as nat + after.1)),
        (_, None) => None,
    }
}

/// An operand of `and` and `or`: a filter between parentheses; or an
/// expression, the white space after it, and what follows it.
#[verifier::opaque]
pub open spec fn operand(s: Seq<char>, at: int) -> Match<ExprView>
    decreases remaining(s, at), 3nat,
{
    let lhs = expression(s, at);
    operand_rule(
        s,
        at,
        if has_char(s, at, '(') {
            filter(s, past(s, at, 1))
        } else {
            None
        },
        lhs,
        follower(s, past(s, at, taken_by(lhs))),
    )
}

/// Whether the text holds at `at` the word `in` and, after white space, `(`.
pub open spec fn opens_list(s: Seq<char>, at: int) -> bool {
    has2(s, at, 'i', 'n') && has_char(s, past(s, at, 2), '(')
}

/// What follows an expression, for what a comparison operator gave, what an
/// expression gave after it, and what a list of filters gave after `in (`.
pub open spec fn follower_rule(
    s: Seq<char>,
    at: int,
    op: Option<(CompareOperator, nat)>,
    rhs: Match<ExprView>,
    list: ListMatch,
) -> (Read<AfterView>, nat) {
    let close = past(s, past(s, past(s, at, 2), 1), list.1);
    match (op, rhs) {
        (Some((o, n)), Some((r, m))) => (
            match r {
                Ok(e) => Ok(AfterView::Compare(o, e)),
                Err(e) => Err(e),
            },
            (past(s, at, n) - at) as nat + m,
        ),
        _ => if opens_list(s, at) && has_char(s, close, ')') {
            (
                match all_or_first_error(list.0) {
                    Ok(items) => Ok(AfterView::In(items)),
                    Err(e) => Err(e),
                },
                (close + 1 - at) as nat,
            )
        } else {
            (Ok(AfterView::End), 0)
        },
    }
}

/// What follows an expression: a comparison operator and an expression; or
/// `in` and a list of filters between parentheses; or nothing, which always
/// matches.
#[verifier::opaque]
pub open spec fn follower(s: Seq<char>, at: int) -> (Read<AfterView>, nat)
    decreases remaining(s, at), 2nat,
{
    let op = comparison_operator(s, at);
    follower_rule(
        s,
        at,
        op,
        match op {
            Some((_, n)) => expression(s, past(s, at, n)),
            None => None,
        },
        if opens_list(s, at) {
            filter_list(s, past(s, past(s, at, 2), 1))
        } else {
            (Seq::empty(), 0)
        },
    )
}

/// What an expression gives, for what a function call and a lambda gave.
pub open spec fn expression_rule(
    s: Seq<char>,
    at: int,
    call: Match<ExprView>,
    quantified: Match<ExprView>,
) -> Match<ExprView> {
    if call is Some {
        call
    } else if quantified is Some {
        quantified
    } else {
        match value(s, at) {
            Some((Ok(v), n)) => Some((Ok(ExprView::Value(v)), n)),
            Some((Err(e), n)) => Some((Err(e), n)),
            None => if alias(s, at) is Some {
                alias(s, at)
            } else {
                match identifier(s, at) {
                    Some(n) => Some((Ok(ExprView::Identifier(s.subrange(at, at + n))), n)),
                    None => None,
                }
            },
        }
    }
}

/// An expression: the first of a function call, a lambda, a literal, an
/// alias and an identifier that the text holds at `at`.
#[verifier::opaque]
pub open spec fn expression(s: Seq<char>, at: int) -> Match<ExprView>
    decreases remaining(s, at), 1nat,
{
    expression_rule(s, at, function_call(s, at), lambda(s, at))
}

/// Where the arguments of a function call start: after an identifier, white
/// space, `(` and white space.
pub open spec fn arguments_at(s: Seq<char>, at: int) -> Option<int> {
    match identifier(s, at) {
        Some(name) if has_char(s, past(s, at, name), '(') => Some(
            past(s, past(s, at, name), 1),
        ),
        _ => None,
    }
}

/// What a function call gives, for what the list of its arguments gave.
pub open spec fn function_call_rule(s: Seq<char>, at: int, args: ListMatch) -> Match<ExprView> {
    match arguments_at(s, at) {
        Some(first) if has_char(s, past(s, first, args.1), ')') => Some(
            (
                match all_or_first_error(args.0) {
                    Ok(list) => Ok(
                        ExprView::Function(s.subrange(at, at + identifier(s, at)->0), list),
                    ),
                    Err(e) => Err(e),
                },
                (past(s, first, args.1) + 1 - at) as nat,
            ),
        ),
        _ => None,
    }
}

/// A function call: an identifier and a list of filters between parentheses.
#[verifier::opaque]
pub open spec fn function_call(s: Seq<char>, at: int) -> Match<ExprView>
    decreases remaining(s, at), 0nat,
{
    function_call_rule(
        s,
        at,
        match arguments_at(s, at) {
            Some(first) => filter_list(s, first),
            None => (Seq::empty(), 0),
        },
    )
}

/// The head of a lambda, up to where its body starts.
pub ghost struct LambdaHead {
    /// The length of the collection's name.
    pub name: nat,
    pub op: LambdaOperator,
    /// Where the variable starts, and its length.
    pub var_at: int,
    pub var: nat,
    /// Where the body starts.
    pub body_at: int,
}

/// The head of a lambda: an identifier, `/`, `any` or `all`, `(`, a variable
/// and a colon. Only around the variable and the colon may white space stand.
pub open spec fn lambda_head(s: Seq<char>, at: int) -> Option<LambdaHead> {
    match identifier(s, at) {
        None => None,
        Some(name) => match lambda_operator(s, at + name + 1) {
            Some((op, _)) if has_char(s, at + name, '/') && has_char(s, at + name + 4, '(') => {
                let var_at = past(s, at + name + 4, 1);
                match identifier(s, var_at) {
                    Some(var) if has_char(s, past(s, var_at, var), ':') => Some(
                        LambdaHead {
                            name,
                            op,
                            var_at,
                            var,
                            body_at: past(s, past(s, var_at, var), 1),
                        },
                    ),
                    _ => None,
                }
            },
            _ => None,
        },
    }
}

/// What a lambda gives, for what the filter of its body gave.
pub open spec fn lambda_rule(s: Seq<char>, at: int, body: Match<ExprView>) -> Match<ExprView> {
    match (lambda_head(s, at), body) {
        (Some(head), Some((b, n))) if has_char(s, past(s, head.body_at, n), ')') => Some(
            (
                match b {
                    Ok(e) => Ok(
                        ExprView::Lambda(
                            Box::new(ExprView::Identifier(s.subrange(at, at + head.name))),
                            head.op,
                            s.subrange(head.var_at, head.var_at + head.var),
                            Box::new(e),
                        ),
                    ),
                    Err(e) => Err(e),
                },
                (past(s, head.body_at, n) + 1 - at) as nat,
            ),
        ),
        _ => None,
    }
}

/// A lambda: its head, a filter and `)`.
#[verifier::opaque]
pub open spec fn lambda(s: Seq<char>, at: int) -> Match<ExprView>
    decreases remaining(s, at), 0nat,
{
    lambda_rule(
        s,
        at,
        match lambda_head(s, at) {
            Some(head) => filter(s, head.body_at),
            None => None,
        },
    )
}

/// What a list gives, for what its first filter gave and what the rest of the
/// list gave.
pub open spec fn list_rule(first: Match<ExprView>, lead: nat, rest: ListMatch) -> ListMatch {
    match first {
        None => (Seq::empty(), 0),
        Some((item, n)) => (seq![item] + rest.0, lead + n + rest.1),
    }
}

/// A list of filters with a comma between one and the next, and white space
/// around the comma: as many filters as there are, none too.
#[verifier::opaque]
pub open spec fn filter_list(s: Seq<char>, at: int) -> ListMatch
    decreases remaining(s, at), 6nat,
{
    let first = filter(s, at);
    list_rule(first, 0, more_filters(s, at + taken_by(first)))
}

/// Where the filter after a comma starts, if the text holds at `at` white
/// space and a comma.
pub open spec fn next_item_at(s: Seq<char>, at: int) -> Option<int> {
    if has_char(s, past(s, at, 0), ',') {
        Some(past(s, past(s, at, 0), 1))
    } else {
        None
    }
}

/// The rest of a list of filters after one of them: a comma and a filter, as
/// many times as there are. A comma that no filter follows is not taken.
#[verifier::opaque]
pub open spec fn more_filters(s: Seq<char>, at: int) -> ListMatch
    decreases remaining(s, at), 5nat,
{
    match next_item_at(s, at) {
        None => (Seq::empty(), 0),
        Some(next) => {
            let item = filter(s, next);
            list_rule(
                item,
                (next - at) as nat,
                if item is Some {
                    more_filters(s, next + taken_by(item))
                } else {
                    (Seq::empty(), 0)
                },
            )
        },
    }
}

/// The tree of a whole text: what the rule `filter` reads at its start, if it
/// takes the text to its end; the error `Parsing` where it does not match or
/// leaves text over.
pub open spec fn parse_text(s: Seq<char>) -> Read<ExprView> {
    match filter(s, 0) {
        Some((tree, n)) if n == s.len() => tree,
        _ => Err(ParseError::Parsing),
    }
}

/// The rule `filter`, unfolded once.
pub proof fn lemma_filter(s: Seq<char>, at: int)
    ensures
        filter(s, at) == filter_rule(
            s,
            at,
            if has3(s, at, 'n', 'o', 't') {
                filter(s, past(s, at, 3))
            } else {
                None
            },
            operand(s, at),
            if operand(s, at) is Some && has2(s, past(s, at, taken_by(operand(s, at))), 'o', 'r') {
                filter(s, past(s, past(s, at, taken_by(operand(s, at))), 2))
            } else {
                None
            },
            if operand(s, at) is Some && has3(
                s,
                past(s, at, taken_by(operand(s, at))),
                'a',
                'n',
                'd',
            ) {
                filter(s, past(s, past(s, at, taken_by(operand(s, at))), 3))
            } else {
                None
            },
        ),
{
    reveal(filter);
    reveal(operand);
}

/// The rule `operand`, unfolded once.
pub proof fn lemma_operand(s: Seq<char>, at: int)
    ensures
        operand(s, at) == operand_rule(
            s,
            at,
            if has_char(s, at, '(') {
                filter(s, past(s, at, 1))
            } else {
                None
            },
            expression(s, at),
            follower(s, past(s, at, taken_by(expression(s, at)))),
        ),
{
    reveal(operand);
    reveal(filter);
    reveal(expression);
    reveal(follower);
}

/// The rule `follower`, unfolded once.
pub proof fn lemma_follower(s: Seq<char>, at: int)
    ensures
        follower(s, at) == follower_rule(
            s,
            at,
            comparison_operator(s, at),
            match comparison_operator(s, at) {
                Some((_, n)) => expression(s, past(s, at, n)),
                None => None,
            },
            if opens_list(s, at) {
                filter_list(s, past(s, past(s, at, 2), 1))
            } else {
                (Seq::empty(), 0)
            },
        ),
{
    reveal(follower);
    reveal(expression);
    reveal(filter_list);
}

/// The rule `expression`, unfolded once.
pub proof fn lemma_expression(s: Seq<char>, at: int)
    ensures
        expression(s, at) == expression_rule(s, at, function_call(s, at), lambda(s, at)),
{
    reveal(expression);
    reveal(function_call);
    reveal(lambda);
}

/// The rule `function_call`, unfolded once.
pub proof fn lemma_function_call(s: Seq<char>, at: int)
    ensures
        function_call(s, at) == function_call_rule(
            s,
            at,
            match arguments_at(s, at) {
                Some(first) => filter_list(s, first),
                None => (Seq::empty(), 0),
            },
        ),
{
    reveal(function_call);
    reveal(filter_list);
}

/// The rule `lambda`, unfolded once.
pub proof fn lemma_lambda(s: Seq<char>, at: int)
    ensures
        lambda(s, at) == lambda_rule(
            s,
            at,
            match lambda_head(s, at) {
                Some(head) => filter(s, head.body_at),
                None => None,
            },
        ),
{
    reveal(lambda);
    reveal(filter);
}

/// The rule `filter_list`, unfolded once.
pub proof fn lemma_filter_list(s: Seq<char>, at: int)
    ensures
        filter_list(s, at) == list_rule(
            filter(s, at),
            0,
            more_filters(s, at + taken_by(filter(s, at))),
        ),
{
    reveal(filter_list);
    reveal(filter);
    reveal(more_filters);
}

/// The rule `more_filters`, unfolded once.
pub proof fn lemma_more_filters(s: Seq<char>, at: int)
    ensures
        more_filters(s, at) == match next_item_at(s, at) {
            None => (Seq::empty(), 0),
            Some(next) => list_rule(
                filter(s, next),
                (next - at) as nat,
                if filter(s, next) is Some {
                    more_filters(s, next + taken_by(filter(s, next)))
                } else {
                    (Seq::empty(), 0)
                },
            ),
        },
{
    reveal(more_filters);
    reveal(filter);
}

} // verus!
