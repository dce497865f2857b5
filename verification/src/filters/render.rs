//! The canonical text of an expression.
//!
//! `text_of` says what the text is; `to_query_string` computes it. An
//! expression has a text unless it holds a number, a date, a time or an
//! instant that denotes no value.

use vstd::prelude::*;
use super::literals::{
    date_to_text, decimal_to_text, instant_to_text, time_to_text, write_date,
    write_decimal, write_instant, write_time, write_uuid,
};
use super::model::{
    all_well_formed, well_formed, well_formed_value, Expr, ExprView, Value, ValueView,
};
use super::errors::ParseError;
use super::uuids::uuid_to_text;
use super::parse::trimmed;
use super::readback::{
    all_written_back, lemma_rendered_parses_back, list_written_back, readable, written_back,
};
use super::rules::parse_text;

verus! {

/// An expression has no text: one of its literals denotes no value.
#[derive(Clone, Copy, Debug, PartialEq, Eq, Structural)]
pub struct RenderError;

/// `s` with every single quote doubled.
pub open spec fn double_quotes(s: Seq<char>) -> Seq<char>
    decreases s.len(),
{
    if s.len() == 0 {
        Seq::empty()
    } else if s.last() == '\'' {
        double_quotes(s.drop_last()) + "''"@
    } else {
        double_quotes(s.drop_last()).push(s.last())
    }
}

/// The text of a literal.
pub open spec fn text_of_value(value: ValueView) -> Option<Seq<char>> {
    match value {
        ValueView::Null => Some("null"@),
        ValueView::Bool(b) => Some(
            if b {
                "true"@
            } else {
                "false"@
            },
        ),
        ValueView::Number(unscaled, scale) => decimal_to_text(unscaled, scale),
        ValueView::Uuid(bits) => Some(uuid_to_text(bits)),
        ValueView::DateTime(t) => instant_to_text(t.seconds, t.nanoseconds, true),
        ValueView::Date(d) => date_to_text(d.year, d.month, d.day),
        ValueView::Time(t) => time_to_text(t.second_of_day, t.nanosecond),
        ValueView::String(s) => Some("'"@ + double_quotes(s) + "'"@),
    }
}

/// `body` as it stands, or between parentheses if `nested`.
pub open spec fn grouped(body: Seq<char>, nested: bool) -> Seq<char> {
    if nested {
        "("@ + body + ")"@
    } else {
        body
    }
}

/// The text of an expression. `nested` says that the expression is an operand
/// of an `and`, an `or` or a `not`: an `and` or an `or` then stands in
/// parentheses. It stands bare at the root, as an operand of a comparison or
/// of an `in`, as an item of a list and as the body of a lambda.
pub open spec fn text_of(expr: ExprView, nested: bool) -> Option<Seq<char>>
    decreases expr, 0nat,
{
    match expr {
        ExprView::Or(l, r) => match (text_of(*l, true), text_of(*r, true)) {
            (Some(lhs), Some(rhs)) => Some(grouped(lhs + " or "@ + rhs, nested)),
            _ => None,
        },
        ExprView::And(l, r) => match (text_of(*l, true), text_of(*r, true)) {
            (Some(lhs), Some(rhs)) => Some(grouped(lhs + " and "@ + rhs, nested)),
            _ => None,
        },
        ExprView::Compare(l, op, r) => match (text_of(*l, false), text_of(*r, false)) {
            (Some(lhs), Some(rhs)) => Some(lhs + " "@ + op.token() + " "@ + rhs),
            _ => None,
        },
        ExprView::In(l, items) => match (text_of(*l, false), text_of_list(items, items.len())) {
            (Some(lhs), Some(list)) => Some(lhs + " in ("@ + list + ")"@),
            _ => None,
        },
        ExprView::Not(e) => match text_of(*e, true) {
            Some(inner) => Some("not "@ + inner),
            None => None,
        },
        ExprView::Function(name, args) => match text_of_list(args, args.len()) {
            Some(list) => Some(name + "("@ + list + ")"@),
            None => None,
        },
        ExprView::Lambda(l, op, var, body) => match (text_of(*l, false), text_of(*body, false)) {
            (Some(lhs), Some(inner)) => Some(
                lhs + "/"@ + op.token() + "("@ + var + ":"@ + inner + ")"@,
            ),
            _ => None,
        },
        ExprView::Identifier(name) => Some(name),
        ExprView::Alias(name) => Some(name),
        ExprView::Value(v) => text_of_value(v),
    }
}

/// The texts of the first `count` expressions of `items`, with a comma and a
/// space between one and the next.
pub open spec fn text_of_list(items: Seq<ExprView>, count: nat) -> Option<Seq<char>>
    decreases items, count,
{
    if count == 0 || count > items.len() {
        Some(Seq::empty())
    } else {
        match (text_of_list(items, (count - 1) as nat), text_of(items[count - 1], false)) {
            (Some(before), Some(item)) => Some(
                if count == 1 {
                    item
                } else {
                    before + ", "@ + item
                },
            ),
            _ => None,
        }
    }
}

/// Appends `s` to `out` with every single quote doubled.
fn write_doubling_quotes(out: &mut String, s: &str)
    ensures
        final(out)@ == old(out)@ + double_quotes(s@),
{
    let ghost start = out@;
    for c in it: s.chars()
        invariant
            it.seq() == s@,
            out@ == start + double_quotes(s@.take(it.index() as int)),
    {
        let ghost before = s@.take(it.index() as int);
        let ghost after = s@.take(it.index() + 1);
        assert(after.drop_last() =~= before);
        assert(after.last() == c);
        if c == '\'' {
            out.append("''");
            assert(start + double_quotes(before) + "''"@ =~= start + double_quotes(after));
        } else {
            out.push(c);
            assert((start + double_quotes(before)).push(c) =~= start + double_quotes(after));
        }
    }
    assert(s@.take(s@.len() as int) =~= s@);
}

/// Appends the text of a literal to `out`.
fn write_value(out: &mut String, value: &Value) -> (r: Result<(), RenderError>)
    ensures
        match text_of_value(value@) {
            Some(text) => r is Ok && final(out)@ == old(out)@ + text,
            None => r is Err && final(out)@ == old(out)@,
        },
        r is Ok ==> written_back(value@),
        well_formed_value(value@) ==> r is Ok,
{
    let text = match value {
        Value::Null => {
            out.append("null");
            return Ok(());
        },
        Value::Bool(b) => {
            if *b {
                out.append("true");
            } else {
                out.append("false");
            }
            return Ok(());
        },
        Value::String(s) => {
            let ghost start = out@;
            out.append("'");
            write_doubling_quotes(out, s.as_str());
            out.append("'");
            assert(out@ =~= start + ("'"@ + double_quotes(s@) + "'"@));
            return Ok(());
        },
        Value::Uuid(bits) => Some(write_uuid(*bits)),
        Value::Number(n) => write_decimal(n),
        Value::DateTime(t) => write_instant(*t, true),
        Value::Date(d) => write_date(*d),
        Value::Time(t) => write_time(*t),
    };
    match text {
        Some(s) => {
            out.append(s.as_str());
            Ok(())
        },
        None => Err(RenderError),
    }
}

/// A sequence is a prefix of itself with anything appended.
proof fn lemma_prefix_of_appended(a: Seq<char>, b: Seq<char>)
    ensures
        a.is_prefix_of(a + b),
{
    assert(a =~= (a + b).subrange(0, a.len() as int));
}

/// A prefix of a prefix is a prefix.
proof fn lemma_prefix_of_prefix(a: Seq<char>, b: Seq<char>, c: Seq<char>)
    requires
        a.is_prefix_of(b),
        b.is_prefix_of(c),
    ensures
        a.is_prefix_of(c),
{
    assert(a =~= c.subrange(0, a.len() as int));
}

/// A list has no text once a shorter part of it has none.
proof fn lemma_text_of_list_none(items: Seq<ExprView>, short: nat, long: nat)
    requires
        short <= long <= items.len(),
        text_of_list(items, short) is None,
    ensures
        text_of_list(items, long) is None,
    decreases long,
{
    if short < long {
        lemma_text_of_list_none(items, short, (long - 1) as nat);
    }
}

/// Appends the text of `expr` to `out`, which holds `start` and then `done`.
fn write_operand(
    out: &mut String,
    expr: &Expr,
    nested: bool,
    Ghost(start): Ghost<Seq<char>>,
    Ghost(done): Ghost<Seq<char>>,
) -> (r: Result<(), RenderError>)
    requires
        old(out)@ == start + done,
    ensures
        match text_of(expr@, nested) {
            Some(text) => r is Ok && final(out)@ == start + (done + text),
            None => r is Err && start.is_prefix_of(final(out)@),
        },
        r is Ok ==> all_written_back(expr@),
        well_formed(expr@) ==> r is Ok,
    decreases expr, 3nat,
{
    let r = write_string(out, expr, nested);
    proof {
        lemma_prefix_of_appended(start, done);
        match text_of(expr@, nested) {
            Some(text) => {
                assert(start + done + text =~= start + (done + text));
            },
            None => {
                lemma_prefix_of_prefix(start, start + done, out@);
            },
        }
    }
    r
}

/// Appends `s` to `out`, which holds `start` and then `done`.
fn write_str(out: &mut String, s: &str, Ghost(start): Ghost<Seq<char>>, Ghost(done): Ghost<
    Seq<char>,
>)
    requires
        old(out)@ == start + done,
    ensures
        final(out)@ == start + (done + s@),
{
    out.append(s);
    assert(start + done + s@ =~= start + (done + s@));
}

/// Appends the texts of `items` to `out`, with a comma and a space between one
/// and the next.
fn write_list(out: &mut String, items: &Vec<Expr>) -> (r: Result<(), RenderError>)
    ensures
        match text_of_list(super::model::views_of(items@), items@.len()) {
            Some(text) => r is Ok && final(out)@ == old(out)@ + text,
            None => r is Err && old(out)@.is_prefix_of(final(out)@),
        },
        r is Ok ==> list_written_back(super::model::views_of(items@)),
        all_well_formed(super::model::views_of(items@)) ==> r is Ok,
    decreases items, 0nat,
{
    let ghost start = out@;
    let ghost views = super::model::views_of(items@);
    let mut i: usize = 0;
    assert(out@ =~= start + Seq::<char>::empty());
    assert(views.len() == items@.len());
    while i < items.len()
        invariant
            i <= items.len(),
            views == super::model::views_of(items@),
            views.len() == items@.len(),
            start == old(out)@,
            text_of_list(views, i as nat) is Some,
            out@ == start + text_of_list(views, i as nat)->0,
            forall|k: int| 0 <= k < i ==> all_written_back(#[trigger] views[k]),
        decreases items.len() - i,
    {
        let ghost before = text_of_list(views, i as nat)->0;
        let ghost sep = if i > 0 {
            before + ", "@
        } else {
            before
        };
        if i > 0 {
            write_str(out, ", ", Ghost(start), Ghost(before));
        }
        assert(views[i as int] == items@[i as int]@);
        match write_operand(out, &items[i], false, Ghost(start), Ghost(sep)) {
            Ok(()) => {},
            Err(e) => {
                proof {
                    assert(text_of_list(views, (i + 1) as nat) is None);
                    lemma_text_of_list_none(views, (i + 1) as nat, items@.len());
                }
                return Err(e);
            },
        }
        proof {
            let item = text_of(views[i as int], false)->0;
            if i == 0 {
                assert(before =~= Seq::<char>::empty());
                assert(sep + item =~= item);
            }
            assert(text_of_list(views, (i + 1) as nat) == Some(sep + item));
        }
        i += 1;
    }
    Ok(())
}

/// Appends the text of an `and` or an `or` to `out`.
fn write_join(out: &mut String, expr: &Expr, nested: bool) -> (r: Result<(), RenderError>)
    requires
        expr is Or || expr is And,
    ensures
        match text_of(expr@, nested) {
            Some(text) => r is Ok && final(out)@ == old(out)@ + text,
            None => r is Err && old(out)@.is_prefix_of(final(out)@),
        },
        r is Ok ==> all_written_back(expr@),
        well_formed(expr@) ==> r is Ok,
    decreases expr, 1nat,
{
    let ghost start = out@;
    let (l, r, word) = match expr {
        Expr::Or(l, r) => (l, r, " or "),
        Expr::And(l, r) => (l, r, " and "),
        _ => {
            return Ok(());
        },
    };
    let ghost open = if nested {
        "("@
    } else {
        Seq::<char>::empty()
    };
    assert(out@ =~= start + Seq::<char>::empty());
    if nested {
        write_str(out, "(", Ghost(start), Ghost(Seq::<char>::empty()));
    }
    assert(out@ =~= start + open);
    match write_operand(out, l, true, Ghost(start), Ghost(open)) {
        Ok(()) => {},
        Err(e) => {
            return Err(e);
        },
    }
    let ghost lhs = text_of(l@, true)->0;
    write_str(out, word, Ghost(start), Ghost(open + lhs));
    match write_operand(out, r, true, Ghost(start), Ghost(open + lhs + word@)) {
        Ok(()) => {},
        Err(e) => {
            return Err(e);
        },
    }
    let ghost rhs = text_of(r@, true)->0;
    if nested {
        write_str(out, ")", Ghost(start), Ghost(open + lhs + word@ + rhs));
        assert(open + lhs + word@ + rhs + ")"@ =~= "("@ + (lhs + word@ + rhs) + ")"@);
    } else {
        assert(open + lhs + word@ + rhs =~= lhs + word@ + rhs);
    }
    Ok(())
}

/// Appends the text of a comparison to `out`.
fn write_compare(out: &mut String, expr: &Expr) -> (r: Result<(), RenderError>)
    requires
        expr is Compare,
    ensures
        match text_of(expr@, true) {
            Some(text) => r is Ok && final(out)@ == old(out)@ + text,
            None => r is Err && old(out)@.is_prefix_of(final(out)@),
        },
        r is Ok ==> all_written_back(expr@),
        well_formed(expr@) ==> r is Ok,
    decreases expr, 1nat,
{
    let ghost start = out@;
    let ghost empty = Seq::<char>::empty();
    if let Expr::Compare(l, op, r) = expr {
        assert(out@ =~= start + empty);
        match write_operand(out, l, false, Ghost(start), Ghost(empty)) {
            Ok(()) => {},
            Err(e) => {
                return Err(e);
            },
        }
        let ghost lhs = text_of(l@, false)->0;
        write_str(out, " ", Ghost(start), Ghost(empty + lhs));
        write_str(out, op.as_str(), Ghost(start), Ghost(empty + lhs + " "@));
        write_str(out, " ", Ghost(start), Ghost(empty + lhs + " "@ + op.token()));
        match write_operand(out, r, false, Ghost(start), Ghost(empty + lhs + " "@ + op.token() + " "@)) {
            Ok(()) => {},
            Err(e) => {
                return Err(e);
            },
        }
        let ghost rhs = text_of(r@, false)->0;
        assert(empty + lhs + " "@ + op.token() + " "@ + rhs =~= lhs + " "@ + op.token() + " "@
            + rhs);
    }
    Ok(())
}

/// Appends the text of an `in` to `out`.
fn write_in(out: &mut String, expr: &Expr) -> (r: Result<(), RenderError>)
    requires
        expr is In,
    ensures
        match text_of(expr@, true) {
            Some(text) => r is Ok && final(out)@ == old(out)@ + text,
            None => r is Err && old(out)@.is_prefix_of(final(out)@),
        },
        r is Ok ==> all_written_back(expr@),
        well_formed(expr@) ==> r is Ok,
    decreases expr, 1nat,
{
    let ghost start = out@;
    let ghost empty = Seq::<char>::empty();
    if let Expr::In(l, items) = expr {
        assert(out@ =~= start + empty);
        match write_operand(out, l, false, Ghost(start), Ghost(empty)) {
            Ok(()) => {},
            Err(e) => {
                return Err(e);
            },
        }
        let ghost lhs = text_of(l@, false)->0;
        write_str(out, " in (", Ghost(start), Ghost(empty + lhs));
        let ghost mid = out@;
        let ghost views = super::model::views_of(items@);
        assert(views.len() == items@.len());
        match write_list(out, items) {
            Ok(()) => {},
            Err(e) => {
                proof {
                    lemma_prefix_of_appended(start, empty + lhs + " in ("@);
                    lemma_prefix_of_prefix(start, mid, out@);
                }
                return Err(e);
            },
        }
        let ghost list = text_of_list(views, views.len())->0;
        assert(out@ =~= start + (empty + lhs + " in ("@ + list));
        write_str(out, ")", Ghost(start), Ghost(empty + lhs + " in ("@ + list));
        assert(empty + lhs + " in ("@ + list + ")"@ =~= lhs + " in ("@ + list + ")"@);
    }
    Ok(())
}

/// Appends the text of a function call to `out`.
fn write_call(out: &mut String, expr: &Expr) -> (r: Result<(), RenderError>)
    requires
        expr is Function,
    ensures
        match text_of(expr@, true) {
            Some(text) => r is Ok && final(out)@ == old(out)@ + text,
            None => r is Err && old(out)@.is_prefix_of(final(out)@),
        },
        r is Ok ==> all_written_back(expr@),
        well_formed(expr@) ==> r is Ok,
    decreases expr, 1nat,
{
    let ghost start = out@;
    let ghost empty = Seq::<char>::empty();
    if let Expr::Function(name, args) = expr {
        assert(out@ =~= start + empty);
        write_str(out, name.as_str(), Ghost(start), Ghost(empty));
        write_str(out, "(", Ghost(start), Ghost(empty + name@));
        let ghost mid = out@;
        let ghost views = super::model::views_of(args@);
        assert(views.len() == args@.len());
        match write_list(out, args) {
            Ok(()) => {},
            Err(e) => {
                proof {
                    lemma_prefix_of_appended(start, empty + name@ + "("@);
                    lemma_prefix_of_prefix(start, mid, out@);
                }
                return Err(e);
            },
        }
        let ghost list = text_of_list(views, views.len())->0;
        assert(out@ =~= start + (empty + name@ + "("@ + list));
        write_str(out, ")", Ghost(start), Ghost(empty + name@ + "("@ + list));
        assert(empty + name@ + "("@ + list + ")"@ =~= name@ + "("@ + list + ")"@);
    }
    Ok(())
}

/// Appends the text of a lambda to `out`.
fn write_lambda(out: &mut String, expr: &Expr) -> (r: Result<(), RenderError>)
    requires
        expr is Lambda,
    ensures
        match text_of(expr@, true) {
            Some(text) => r is Ok && final(out)@ == old(out)@ + text,
            None => r is Err && old(out)@.is_prefix_of(final(out)@),
        },
        r is Ok ==> all_written_back(expr@),
        well_formed(expr@) ==> r is Ok,
    decreases expr, 1nat,
{
    let ghost start = out@;
    let ghost empty = Seq::<char>::empty();
    if let Expr::Lambda(l, op, var, body) = expr {
        assert(out@ =~= start + empty);
        match write_operand(out, l, false, Ghost(start), Ghost(empty)) {
            Ok(()) => {},
            Err(e) => {
                return Err(e);
            },
        }
        let ghost lhs = text_of(l@, false)->0;
        write_str(out, "/", Ghost(start), Ghost(empty + lhs));
        write_str(out, op.as_str(), Ghost(start), Ghost(empty + lhs + "/"@));
        write_str(out, "(", Ghost(start), Ghost(empty + lhs + "/"@ + op.token()));
        write_str(out, var.as_str(), Ghost(start), Ghost(empty + lhs + "/"@ + op.token() + "("@));
        write_str(
            out,
            ":",
            Ghost(start),
            Ghost(empty + lhs + "/"@ + op.token() + "("@ + var@),
        );
        let ghost head = empty + lhs + "/"@ + op.token() + "("@ + var@ + ":"@;
        match write_operand(out, body, false, Ghost(start), Ghost(head)) {
            Ok(()) => {},
            Err(e) => {
                return Err(e);
            },
        }
        let ghost inner = text_of(body@, false)->0;
        write_str(out, ")", Ghost(start), Ghost(head + inner));
        assert(head + inner + ")"@ =~= lhs + "/"@ + op.token() + "("@ + var@ + ":"@ + inner + ")"@);
    }
    Ok(())
}

/// Appends the text of `expr` to `out`.
fn write_string(out: &mut String, expr: &Expr, nested: bool) -> (r: Result<(), RenderError>)
    ensures
        match text_of(expr@, nested) {
            Some(text) => r is Ok && final(out)@ == old(out)@ + text,
            None => r is Err && old(out)@.is_prefix_of(final(out)@),
        },
        r is Ok ==> all_written_back(expr@),
        well_formed(expr@) ==> r is Ok,
    decreases expr, 2nat,
{
    let ghost start = out@;
    match expr {
        Expr::Or(_, _) => write_join(out, expr, nested),
        Expr::And(_, _) => write_join(out, expr, nested),
        Expr::Compare(_, _, _) => write_compare(out, expr),
        Expr::In(_, _) => write_in(out, expr),
        Expr::Not(inner) => {
            out.append("not ");
            match write_operand(out, inner, true, Ghost(start), Ghost("not "@)) {
                Ok(()) => Ok(()),
                Err(e) => Err(e),
            }
        },
        Expr::Function(_, _) => write_call(out, expr),
        Expr::Lambda(_, _, _, _) => write_lambda(out, expr),
        Expr::Identifier(name) => {
            out.append(name.as_str());
            Ok(())
        },
        Expr::Alias(name) => {
            out.append(name.as_str());
            Ok(())
        },
        Expr::Value(v) => {
            let r = write_value(out, v);
            assert(start.is_prefix_of(start));
            r
        },
    }
}

/// Appends the canonical text of `expr` to `writer`.
///
/// It succeeds on every well-formed tree. It fails where a literal of `expr`
/// has no text; `writer` then holds what was written before that literal.
/// Where it succeeds, what the crates that wrote the literals gave holds of
/// each literal of `expr`.
pub fn write_query_string(writer: &mut String, expr: &Expr) -> (r: Result<(), RenderError>)
    ensures
        match text_of(expr@, false) {
            Some(text) => r is Ok && final(writer)@ == old(writer)@ + text,
            None => r is Err && old(writer)@.is_prefix_of(final(writer)@),
        },
        r is Ok ==> all_written_back(expr@),
        well_formed(expr@) ==> r is Ok,
{
    write_string(writer, expr, false)
}

/// The canonical text of `expr`.
///
/// An `and` or an `or` that is an operand of an `and`, an `or` or a `not`
/// stands in parentheses; elsewhere it stands bare. It succeeds on every
/// well-formed tree, and fails where a literal of `expr` has no text.
///
/// The text of a tree that `readable` describes parses back to the tree.
/// Where it succeeds, what the crates that wrote the literals gave holds of
/// each literal of `expr`.
pub fn to_query_string(expr: &Expr) -> (r: Result<String, RenderError>)
    ensures
        match text_of(expr@, false) {
            Some(text) => r is Ok && r->Ok_0@ == text,
            None => r is Err,
        },
        r is Ok && readable(expr@) ==> parse_text(trimmed(r->Ok_0@)) == Ok::<
            ExprView,
            ParseError,
        >(expr@),
        r is Ok ==> all_written_back(expr@),
        well_formed(expr@) ==> r is Ok,
{
    let mut output = String::new();
    match write_string(&mut output, expr, false) {
        Ok(()) => {
            assert(output@ =~= text_of(expr@, false)->0);
            proof {
                if readable(expr@) {
                    lemma_rendered_parses_back(expr@);
                }
            }
            Ok(output)
        },
        Err(e) => Err(e),
    }
}

} // verus!
