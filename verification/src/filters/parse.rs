//! The parser: filter text to an expression tree.
//!
//! Each function reads one rule of the grammar at a position of the text and
//! gives what the rule gives there.

use vstd::prelude::*;
use super::errors::ParseError;
use super::grammar::{all_or_first_error, comparison_operator, lambda_operator, Match, Read};
use super::rules::{
    expression, filter, filter_list, follower, function_call, joined, lambda, lemma_expression,
    lemma_filter, lemma_filter_list, lemma_follower, lemma_function_call, lemma_lambda,
    lemma_more_filters, lemma_operand, more_filters, operand, parse_text, AfterView,
};
use super::model::{lemma_views_of_push, views_of, CompareOperator, Expr, ExprView, LambdaOperator};
use super::scan::{holds, holds2, holds3, identifier_end, skip_blanks};
use super::text::{chars_of, is_white_space, string_of};
use super::values::{in_text, read_value_at};
use super::shape::{grammatical, lemma_parsed_is_grammatical};

verus! {

/// A tree that was read, as the grammar states it.
pub open spec fn expr_read(r: Result<Expr, ParseError>) -> Read<ExprView> {
    match r {
        Ok(e) => Ok(e@),
        Err(e) => Err(e),
    }
}

/// What a reader of trees gave, as the grammar states it: the tree and how
/// many characters from `at` it took.
pub open spec fn expr_taken(r: Option<(Result<Expr, ParseError>, usize)>, at: usize) -> Match<
    ExprView,
> {
    match r {
        Some((read, end)) => Some((expr_read(read), (end - at) as nat)),
        None => None,
    }
}

/// A list of trees that was read, as the grammar states it.
pub open spec fn list_read(r: Result<Vec<Expr>, ParseError>) -> Read<Seq<ExprView>> {
    match r {
        Ok(items) => Ok(views_of(items@)),
        Err(e) => Err(e),
    }
}

/// What follows the left operand of a comparison or of an `in`.
pub enum After {
    Compare(CompareOperator, Expr),
    In(Vec<Expr>),
    End,
}

impl View for After {
    type V = AfterView;

    open spec fn view(&self) -> AfterView {
        match *self {
            After::Compare(op, rhs) => AfterView::Compare(op, rhs@),
            After::In(items) => AfterView::In(views_of(items@)),
            After::End => AfterView::End,
        }
    }
}

/// What was read after an expression, as the grammar states it.
pub open spec fn after_read(r: Result<After, ParseError>) -> Read<AfterView> {
    match r {
        Ok(a) => Ok(a@),
        Err(e) => Err(e),
    }
}

/// The tree of an `or`, or of an `and` if not `is_or`.
fn join(lhs: Result<Expr, ParseError>, rhs: Result<Expr, ParseError>, is_or: bool) -> (r: Result<
    Expr,
    ParseError,
>)
    ensures
        expr_read(r) == joined(expr_read(lhs), expr_read(rhs), is_or),
{
    let l = match lhs {
        Ok(l) => l,
        Err(e) => {
            return Err(e);
        },
    };
    let r = match rhs {
        Ok(r) => r,
        Err(e) => {
            return Err(e);
        },
    };
    if is_or {
        Ok(Expr::Or(Box::new(l), Box::new(r)))
    } else {
        Ok(Expr::And(Box::new(l), Box::new(r)))
    }
}

/// Reads a comparison operator at `at`.
fn read_comparison_operator(s: &Vec<char>, at: usize) -> (r: Option<(CompareOperator, usize)>)
    requires
        at <= s.len(),
    ensures
        match r {
            Some((op, end)) => comparison_operator(s@, at as int) == Some(
                (op, (end - at) as nat),
            ) && at < end,
            None => comparison_operator(s@, at as int) is None,
        },
        in_text(r, at, s@.len()),
{
    if holds2(s, at, 'e', 'q') {
        Some((CompareOperator::Equal, at + 2))
    } else if holds2(s, at, 'n', 'e') {
        Some((CompareOperator::NotEqual, at + 2))
    } else if holds2(s, at, 'g', 't') {
        Some((CompareOperator::GreaterThan, at + 2))
    } else if holds2(s, at, 'g', 'e') {
        Some((CompareOperator::GreaterOrEqual, at + 2))
    } else if holds2(s, at, 'l', 't') {
        Some((CompareOperator::LessThan, at + 2))
    } else if holds2(s, at, 'l', 'e') {
        Some((CompareOperator::LessOrEqual, at + 2))
    } else if holds3(s, at, 'h', 'a', 's') {
        Some((CompareOperator::Has, at + 3))
    } else {
        None
    }
}

/// Reads the quantifier of a lambda at `at`.
fn read_lambda_operator(s: &Vec<char>, at: usize) -> (r: Option<LambdaOperator>)
    requires
        at <= s.len(),
    ensures
        match r {
            Some(op) => lambda_operator(s@, at as int) == Some((op, 3nat)) && at + 3 <= s.len(),
            None => lambda_operator(s@, at as int) is None,
        },
{
    if holds3(s, at, 'a', 'n', 'y') {
        Some(LambdaOperator::Any)
    } else if holds3(s, at, 'a', 'l', 'l') {
        Some(LambdaOperator::All)
    } else {
        None
    }
}

/// Reads a filter at `at`.
pub(crate) fn parse_filter(s: &Vec<char>, at: usize) -> (r: Option<(Result<Expr, ParseError>, usize)>)
    requires
        at <= s.len(),
    ensures
        expr_taken(r, at) == filter(s@, at as int),
        in_text(r, at, s@.len()),
    decreases s.len() - at, 4nat,
{
    proof {
        lemma_filter(s@, at as int);
    }
    if holds3(s, at, 'n', 'o', 't') {
        let inner_at = skip_blanks(s, at + 3);
        match parse_filter(s, inner_at) {
            Some((inner, end)) => {
                let tree = match inner {
                    Ok(e) => Ok(Expr::Not(Box::new(e))),
                    Err(e) => Err(e),
                };
                return Some((tree, end));
            },
            None => {},
        }
    }
    let (lhs, lhs_end) = match parse_operand(s, at) {
        Some(m) => m,
        None => {
            return None;
        },
    };
    let word = skip_blanks(s, lhs_end);
    if holds2(s, word, 'o', 'r') {
        let rhs_at = skip_blanks(s, word + 2);
        match parse_filter(s, rhs_at) {
            Some((rhs, end)) => {
                return Some((join(lhs, rhs, true), end));
            },
            None => {},
        }
    }
    if holds3(s, word, 'a', 'n', 'd') {
        let rhs_at = skip_blanks(s, word + 3);
        match parse_filter(s, rhs_at) {
            Some((rhs, end)) => {
                return Some((join(lhs, rhs, false), end));
            },
            None => {},
        }
    }
    Some((lhs, lhs_end))
}

/// Reads an operand of `and` and `or` at `at`.
pub(crate) fn parse_operand(s: &Vec<char>, at: usize) -> (r: Option<(Result<Expr, ParseError>, usize)>)
    requires
        at <= s.len(),
    ensures
        expr_taken(r, at) == operand(s@, at as int),
        in_text(r, at, s@.len()),
    decreases s.len() - at, 3nat,
{
    proof {
        lemma_operand(s@, at as int);
    }
    if holds(s, at, '(') {
        let inner_at = skip_blanks(s, at + 1);
        match parse_filter(s, inner_at) {
            Some((inner, end)) => {
                let close = skip_blanks(s, end);
                if holds(s, close, ')') {
                    return Some((inner, close + 1));
                }
            },
            None => {},
        }
    }
    let (lhs, lhs_end) = match parse_expression(s, at) {
        Some(m) => m,
        None => {
            return None;
        },
    };
    let after_at = skip_blanks(s, lhs_end);
    let (after, end) = parse_follower(s, after_at);
    let tree = match after {
        Err(e) => Err(e),
        Ok(After::Compare(op, rhs)) => match lhs {
            Err(e) => Err(e),
            Ok(l) => Ok(Expr::Compare(Box::new(l), op, Box::new(rhs))),
        },
        Ok(After::In(items)) => match lhs {
            Err(e) => Err(e),
            Ok(l) => Ok(Expr::In(Box::new(l), items)),
        },
        Ok(After::End) => lhs,
    };
    Some((tree, end))
}

/// Reads at `at` what follows an expression.
pub(crate) fn parse_follower(s: &Vec<char>, at: usize) -> (r: (Result<After, ParseError>, usize))
    requires
        at <= s.len(),
    ensures
        (after_read(r.0), (r.1 - at) as nat) == follower(s@, at as int),
        at <= r.1 <= s.len(),
    decreases s.len() - at, 2nat,
{
    proof {
        lemma_follower(s@, at as int);
    }
    match read_comparison_operator(s, at) {
        Some((op, op_end)) => {
            let rhs_at = skip_blanks(s, op_end);
            match parse_expression(s, rhs_at) {
                Some((rhs, end)) => {
                    let after = match rhs {
                        Ok(r) => Ok(After::Compare(op, r)),
                        Err(e) => Err(e),
                    };
                    return (after, end);
                },
                None => {},
            }
        },
        None => {},
    }
    if holds2(s, at, 'i', 'n') {
        let open = skip_blanks(s, at + 2);
        if holds(s, open, '(') {
            let first = skip_blanks(s, open + 1);
            let (items, list_end) = parse_filter_list(s, first);
            let close = skip_blanks(s, list_end);
            if holds(s, close, ')') {
                let after = match items {
                    Ok(list) => Ok(After::In(list)),
                    Err(e) => Err(e),
                };
                return (after, close + 1);
            }
        }
    }
    (Ok(After::End), at)
}

/// Reads an expression at `at`.
pub(crate) fn parse_expression(s: &Vec<char>, at: usize) -> (r: Option<(Result<Expr, ParseError>, usize)>)
    requires
        at <= s.len(),
    ensures
        expr_taken(r, at) == expression(s@, at as int),
        in_text(r, at, s@.len()),
    decreases s.len() - at, 1nat,
{
    proof {
        lemma_expression(s@, at as int);
    }
    let r = parse_function_call(s, at);
    if r.is_some() {
        return r;
    }
    let r = parse_lambda(s, at);
    if r.is_some() {
        return r;
    }
    match read_value_at(s, at) {
        Some((Ok(v), end)) => {
            return Some((Ok(Expr::Value(v)), end));
        },
        Some((Err(e), end)) => {
            return Some((Err(e), end));
        },
        None => {},
    }
    if holds(s, at, '@') {
        match identifier_end(s, at + 1) {
            Some(end) => {
                return Some((Ok(Expr::Alias(string_of(s, at, end))), end));
            },
            None => {},
        }
    }
    match identifier_end(s, at) {
        Some(end) => Some((Ok(Expr::Identifier(string_of(s, at, end))), end)),
        None => None,
    }
}

/// Reads a function call at `at`.
pub(crate) fn parse_function_call(s: &Vec<char>, at: usize) -> (r: Option<
    (Result<Expr, ParseError>, usize),
>)
    requires
        at <= s.len(),
    ensures
        expr_taken(r, at) == function_call(s@, at as int),
        in_text(r, at, s@.len()),
    decreases s.len() - at, 0nat,
{
    proof {
        lemma_function_call(s@, at as int);
    }
    let name_end = match identifier_end(s, at) {
        Some(end) => end,
        None => {
            return None;
        },
    };
    let open = skip_blanks(s, name_end);
    if !holds(s, open, '(') {
        return None;
    }
    let first = skip_blanks(s, open + 1);
    let (args, list_end) = parse_filter_list(s, first);
    let close = skip_blanks(s, list_end);
    if !holds(s, close, ')') {
        return None;
    }
    let tree = match args {
        Ok(list) => Ok(Expr::Function(string_of(s, at, name_end), list)),
        Err(e) => Err(e),
    };
    Some((tree, close + 1))
}

/// Reads a lambda at `at`.
pub(crate) fn parse_lambda(s: &Vec<char>, at: usize) -> (r: Option<(Result<Expr, ParseError>, usize)>)
    requires
        at <= s.len(),
    ensures
        expr_taken(r, at) == lambda(s@, at as int),
        in_text(r, at, s@.len()),
    decreases s.len() - at, 0nat,
{
    proof {
        lemma_lambda(s@, at as int);
    }
    let name_end = match identifier_end(s, at) {
        Some(end) => end,
        None => {
            return None;
        },
    };
    if !holds(s, name_end, '/') {
        return None;
    }
    let op = match read_lambda_operator(s, name_end + 1) {
        Some(op) => op,
        None => {
            return None;
        },
    };
    if !holds(s, name_end + 4, '(') {
        return None;
    }
    let var_at = skip_blanks(s, name_end + 5);
    let var_end = match identifier_end(s, var_at) {
        Some(end) => end,
        None => {
            return None;
        },
    };
    let colon = skip_blanks(s, var_end);
    if !holds(s, colon, ':') {
        return None;
    }
    let body_at = skip_blanks(s, colon + 1);
    let (body, body_end) = match parse_filter(s, body_at) {
        Some(m) => m,
        None => {
            return None;
        },
    };
    let close = skip_blanks(s, body_end);
    if !holds(s, close, ')') {
        return None;
    }
    let collection = Expr::Identifier(string_of(s, at, name_end));
    assert(collection@ == ExprView::Identifier(s@.subrange(at as int, name_end as int)));
    let tree = match body {
        Ok(b) => Ok(Expr::Lambda(Box::new(collection), op, string_of(s, var_at, var_end), Box::new(b))),
        Err(e) => Err(e),
    };
    Some((tree, close + 1))
}

/// The trees that were read so far, and the first error among them.
pub open spec fn list_state(items: Seq<Expr>, failed: Option<ParseError>) -> Read<Seq<ExprView>> {
    match failed {
        Some(e) => Err(e),
        None => Ok(views_of(items)),
    }
}

/// Keeps one more tree of a list, or the first error.
fn keep(
    items: &mut Vec<Expr>,
    failed: &mut Option<ParseError>,
    item: Result<Expr, ParseError>,
    Ghost(done): Ghost<Seq<Read<ExprView>>>,
)
    requires
        all_or_first_error(done) == list_state(old(items)@, *old(failed)),
    ensures
        all_or_first_error(done.push(expr_read(item))) == list_state(final(items)@, *final(failed)),
{
    proof {
        super::values::lemma_all_or_first_error_push(done, expr_read(item));
    }
    if failed.is_none() {
        match item {
            Ok(e) => {
                proof {
                    lemma_views_of_push(items@, e);
                }
                items.push(e);
            },
            Err(e) => {
                *failed = Some(e);
            },
        }
    }
}

/// Reads a list of filters at `at`: the trees or the first error among them,
/// and where the list ends.
pub(crate) fn parse_filter_list(s: &Vec<char>, at: usize) -> (r: (Result<Vec<Expr>, ParseError>, usize))
    requires
        at <= s.len(),
    ensures
        list_read(r.0) == all_or_first_error(filter_list(s@, at as int).0),
        (r.1 - at) as nat == filter_list(s@, at as int).1,
        at <= r.1 <= s.len(),
    decreases s.len() - at, 6nat,
{
    proof {
        lemma_filter_list(s@, at as int);
    }
    let mut items: Vec<Expr> = Vec::new();
    let mut failed: Option<ParseError> = None;
    let ghost mut done: Seq<Read<ExprView>> = Seq::empty();
    let mut end: usize = at;
    assert(views_of(items@) =~= Seq::<ExprView>::empty());
    match parse_filter(s, at) {
        None => {
            return (Ok(items), at);
        },
        Some((first, first_end)) => {
            keep(&mut items, &mut failed, first, Ghost(done));
            proof {
                done = done.push(expr_read(first));
                assert(done =~= seq![expr_read(first)]);
            }
            end = first_end;
        },
    }
    loop
        invariant
            at <= end <= s.len(),
            filter_list(s@, at as int).0 == done + more_filters(s@, end as int).0,
            filter_list(s@, at as int).1 == (end - at) + more_filters(s@, end as int).1,
            all_or_first_error(done) == list_state(items@, failed),
        ensures
            at <= end <= s.len(),
            filter_list(s@, at as int).0 == done,
            filter_list(s@, at as int).1 == (end - at),
            all_or_first_error(done) == list_state(items@, failed),
        decreases s.len() - end,
    {
        proof {
            lemma_more_filters(s@, end as int);
        }
        let ghost rest_before = more_filters(s@, end as int).0;
        let comma = skip_blanks(s, end);
        if !holds(s, comma, ',') {
            assert(done + Seq::<Read<ExprView>>::empty() =~= done);
            break;
        }
        let next = skip_blanks(s, comma + 1);
        match parse_filter(s, next) {
            None => {
                assert(done + Seq::<Read<ExprView>>::empty() =~= done);
                break;
            },
            Some((item, item_end)) => {
                keep(&mut items, &mut failed, item, Ghost(done));
                proof {
                    let rest = more_filters(s@, item_end as int).0;
                    assert(rest_before == seq![expr_read(item)] + rest);
                    assert(done + rest_before =~= done.push(expr_read(item)) + rest);
                    done = done.push(expr_read(item));
                }
                end = item_end;
            },
        }
    }
    let list = match failed {
        Some(e) => Err(e),
        None => Ok(items),
    };
    (list, end)
}

/// The length of the run of white space that starts at `at`.
pub open spec fn white_from(s: Seq<char>, at: int) -> nat
    decreases s.len() - at,
{
    if 0 <= at < s.len() && is_white_space(s[at]) {
        1 + white_from(s, at + 1)
    } else {
        0
    }
}

/// The length of the run of white space that ends before `end`.
pub open spec fn white_before(s: Seq<char>, end: int) -> nat
    decreases end,
{
    if 0 < end <= s.len() && is_white_space(s[end - 1]) {
        1 + white_before(s, end - 1)
    } else {
        0
    }
}

/// `s` without the white space at its start and at its end.
pub open spec fn trimmed(s: Seq<char>) -> Seq<char> {
    let start = white_from(s, 0);
    if start >= s.len() {
        Seq::empty()
    } else {
        s.subrange(start as int, s.len() - white_before(s, s.len() as int))
    }
}

/// A text that neither starts nor ends with white space is trimmed to itself.
pub proof fn lemma_trimmed_is_whole(s: Seq<char>)
    ensures
        s.len() == 0 || (!is_white_space(s[0]) && !is_white_space(s.last())) ==> trimmed(s) == s,
{
    if s.len() > 0 && !is_white_space(s[0]) && !is_white_space(s.last()) {
        assert(white_from(s, 0) == 0);
        assert(white_before(s, s.len() as int) == 0);
        assert(s.subrange(0, s.len() as int) =~= s);
    } else if s.len() == 0 {
        assert(s =~= Seq::<char>::empty());
    }
}

/// The bounds of `s` without the white space at its start and at its end.
fn trim_bounds(s: &Vec<char>) -> (r: (usize, usize))
    ensures
        r.0 <= r.1 <= s.len(),
        s@.subrange(r.0 as int, r.1 as int) == trimmed(s@),
{
    let mut start: usize = 0;
    while start < s.len() && s[start].is_whitespace()
        invariant
            start <= s.len(),
            white_from(s@, 0) == start + white_from(s@, start as int),
        decreases s.len() - start,
    {
        start += 1;
    }
    if start == s.len() {
        assert(s@.subrange(start as int, start as int) =~= Seq::<char>::empty());
        return (start, start);
    }
    assert(white_from(s@, start as int) == 0);
    let mut end: usize = s.len();
    while end > start && s[end - 1].is_whitespace()
        invariant
            start < end <= s.len(),
            !is_white_space(s@[start as int]),
            white_before(s@, s@.len() as int) == (s@.len() - end) + white_before(s@, end as int),
        decreases end,
    {
        end -= 1;
    }
    assert(white_before(s@, end as int) == 0);
    (start, end)
}

/// Parses the text of a filter into its tree.
///
/// White space at the start and at the end of the text is dropped first. The
/// result is the tree that the grammar reads from the whole of what is left;
/// or the error of the first literal in it that denotes nothing; or `Parsing`
/// where the text does not follow the grammar. A tree that it gives has the
/// shape of a filter of the grammar.
pub fn parse_str(query: &str) -> (r: Result<Expr, ParseError>)
    ensures
        expr_read(r) == parse_text(trimmed(query@)),
        r matches Ok(tree) ==> grammatical(tree@),
{
    proof {
        lemma_parsed_is_grammatical(trimmed(query@));
    }
    let all = chars_of(query);
    let (start, end) = trim_bounds(&all);
    let mut s: Vec<char> = Vec::new();
    let mut i: usize = start;
    while i < end
        invariant
            start <= i <= end <= all.len(),
            s@ == all@.subrange(start as int, i as int),
        decreases end - i,
    {
        s.push(all[i]);
        assert(all@.subrange(start as int, i as int).push(all@[i as int]) =~= all@.subrange(
            start as int,
            i + 1,
        ));
        i += 1;
    }
    match parse_filter(&s, 0) {
        Some((tree, tree_end)) => {
            if tree_end == s.len() {
                tree
            } else {
                Err(ParseError::Parsing)
            }
        },
        None => Err(ParseError::Parsing),
    }
}

} // verus!
