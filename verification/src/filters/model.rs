//! The expression tree shared by the parser, the validator and the renderer.
//!
//! Executable trees own their children through `Box`, `Vec` and `String`.
//! Contracts speak of their views, in which strings and lists are sequences.

use vstd::prelude::*;
use vstd::std_specs::cmp::PartialEqSpecImpl;
use super::literals::{order_decimals, order_of_decimals};

verus! {

/// The quantifier of a lambda expression.
#[derive(Clone, Copy, Debug, PartialEq, Eq, Structural)]
pub enum LambdaOperator {
    Any,
    All,
}

/// The operator of a binary comparison.
#[derive(Clone, Copy, Debug, PartialEq, Eq, Structural)]
pub enum CompareOperator {
    Equal,
    NotEqual,
    GreaterThan,
    GreaterOrEqual,
    LessThan,
    LessOrEqual,
    /// Flag or enumeration test.
    Has,
}

/// An arbitrary-precision decimal: the integer written in `unscaled`, in
/// decimal digits, divided by ten to the power `scale`.
///
/// Two numbers are equal when they have the same value, as `1.0` and `1.00`
/// have; two that are not well formed are equal when they are written alike.
#[derive(Debug, Eq)]
pub struct Number {
    pub unscaled: String,
    pub scale: i64,
}

/// A calendar date of the proleptic Gregorian calendar.
#[derive(Clone, Copy, Debug, PartialEq, Eq, Structural)]
pub struct Date {
    pub year: i32,
    /// 1 for January to 12 for December.
    pub month: u32,
    /// The day of the month, from 1.
    pub day: u32,
}

/// A time of day.
#[derive(Clone, Copy, Debug, PartialEq, Eq, Structural)]
pub struct Time {
    /// Whole seconds since midnight.
    pub second_of_day: u32,
    /// The fraction of the second, in nanoseconds; a leap second counts on
    /// from 1,000,000,000.
    pub nanosecond: u32,
}

/// An instant on the UTC time line.
#[derive(Clone, Copy, Debug, PartialEq, Eq, Structural)]
pub struct DateTime {
    /// Whole seconds since 1970-01-01T00:00:00Z.
    pub seconds: i64,
    /// The fraction of the second, in nanoseconds.
    pub nanoseconds: u32,
}

/// A literal.
#[derive(Debug, PartialEq, Eq)]
pub enum Value {
    Null,
    Bool(bool),
    Number(Number),
    /// The 128 bits of a UUID, its first byte the most significant.
    Uuid(u128),
    DateTime(DateTime),
    Date(Date),
    Time(Time),
    String(String),
}

/// A node of a filter expression.
#[derive(Debug, PartialEq, Eq)]
pub enum Expr {
    Or(Box<Expr>, Box<Expr>),
    And(Box<Expr>, Box<Expr>),
    Not(Box<Expr>),
    Compare(Box<Expr>, CompareOperator, Box<Expr>),
    /// Membership of the left operand in a list.
    In(Box<Expr>, Vec<Expr>),
    /// A function's name and its arguments.
    Function(String, Vec<Expr>),
    /// The collection, the quantifier, the bound variable and the body.
    Lambda(Box<Expr>, LambdaOperator, String, Box<Expr>),
    Identifier(String),
    /// A parameter alias; the name includes its leading `@`.
    Alias(String),
    Value(Value),
}

/// What a `Value` holds, with its strings as sequences.
pub ghost enum ValueView {
    Null,
    Bool(bool),
    Number(Seq<char>, i64),
    Uuid(u128),
    DateTime(DateTime),
    Date(Date),
    Time(Time),
    String(Seq<char>),
}

/// What an `Expr` holds, with its strings and lists as sequences.
pub ghost enum ExprView {
    Or(Box<ExprView>, Box<ExprView>),
    And(Box<ExprView>, Box<ExprView>),
    Not(Box<ExprView>),
    Compare(Box<ExprView>, CompareOperator, Box<ExprView>),
    In(Box<ExprView>, Seq<ExprView>),
    Function(Seq<char>, Seq<ExprView>),
    Lambda(Box<ExprView>, LambdaOperator, Seq<char>, Box<ExprView>),
    Identifier(Seq<char>),
    Alias(Seq<char>),
    Value(ValueView),
}

/// Whether `text` writes an integer: decimal digits, one at least, with or
/// without `-` before them.
pub open spec fn is_integer_text(text: Seq<char>) -> bool {
    let digits = if text.len() > 0 && text[0] == '-' {
        text.subrange(1, text.len() as int)
    } else {
        text
    };
    digits.len() > 0 && forall|i: int| 0 <= i < digits.len() ==> '0' <= #[trigger] digits[i] <= '9'
}

/// Whether the year `year` has a 29th of February.
pub open spec fn is_leap_year(year: int) -> bool {
    year % 4 == 0 && (year % 100 != 0 || year % 400 == 0)
}

/// The number of days of the month `month` of the year `year`.
pub open spec fn days_in_month(year: int, month: int) -> int {
    if month == 2 {
        if is_leap_year(year) {
            29
        } else {
            28
        }
    } else if month == 4 || month == 6 || month == 9 || month == 11 {
        30
    } else {
        31
    }
}

/// Whether `d` is a date of the calendar, in a year from 262143 BCE to
/// 262142 CE.
pub open spec fn is_date(d: Date) -> bool {
    &&& -262_143 <= d.year <= 262_142
    &&& 1 <= d.month <= 12
    &&& 1 <= d.day <= days_in_month(d.year as int, d.month as int)
}

/// Whether `t` is a time of day: before midnight, and with a fraction past
/// the second only in the last second of a minute, where a leap second may
/// stand.
pub open spec fn is_time(t: Time) -> bool {
    &&& t.second_of_day < 86_400
    &&& t.nanosecond < 2_000_000_000
    &&& t.nanosecond < 1_000_000_000 || t.second_of_day % 60 == 59
}

/// Whether `t` is an instant of the years 0 to 9999, with a fraction past
/// the second only in the last second of a minute.
pub open spec fn is_instant(t: DateTime) -> bool {
    &&& -62_167_219_200 <= t.seconds <= 253_402_300_799
    &&& t.nanoseconds < 2_000_000_000
    &&& t.nanoseconds < 1_000_000_000 || t.seconds as int % 60 == 59
}

/// Whether `t` is an instant of the years 0 to 9999 at a whole millisecond
/// and in no leap second.
pub open spec fn is_plain_instant(t: DateTime) -> bool {
    &&& is_instant(t)
    &&& t.nanoseconds < 1_000_000_000
    &&& t.nanoseconds % 1_000_000 == 0
}

/// Whether a literal denotes a value: its number is written as an integer
/// and a scale, its date, time or instant exists.
pub open spec fn well_formed_value(v: ValueView) -> bool {
    match v {
        ValueView::Number(unscaled, _) => is_integer_text(unscaled),
        ValueView::Date(d) => is_date(d),
        ValueView::Time(t) => is_time(t),
        ValueView::DateTime(t) => is_instant(t),
        _ => true,
    }
}

/// Whether every literal of a tree denotes a value.
pub open spec fn well_formed(t: ExprView) -> bool
    decreases t,
{
    match t {
        ExprView::Or(l, r) | ExprView::And(l, r) => well_formed(*l) && well_formed(*r),
        ExprView::Not(e) => well_formed(*e),
        ExprView::Compare(l, _, r) => well_formed(*l) && well_formed(*r),
        ExprView::In(l, items) => well_formed(*l) && all_well_formed(items),
        ExprView::Function(_, args) => all_well_formed(args),
        ExprView::Lambda(l, _, _, body) => well_formed(*l) && well_formed(*body),
        ExprView::Identifier(_) => true,
        ExprView::Alias(_) => true,
        ExprView::Value(v) => well_formed_value(v),
    }
}

/// Whether every literal of every tree of a list denotes a value.
pub open spec fn all_well_formed(items: Seq<ExprView>) -> bool
    decreases items,
{
    forall|i: int| 0 <= i < items.len() ==> well_formed(#[trigger] items[i])
}

impl View for Number {
    type V = (Seq<char>, i64);

    open spec fn view(&self) -> (Seq<char>, i64) {
        (self.unscaled@, self.scale)
    }
}

impl View for Value {
    type V = ValueView;

    open spec fn view(&self) -> ValueView {
        match *self {
            Value::Null => ValueView::Null,
            Value::Bool(b) => ValueView::Bool(b),
            Value::Number(n) => ValueView::Number(n.unscaled@, n.scale),
            Value::Uuid(u) => ValueView::Uuid(u),
            Value::DateTime(t) => ValueView::DateTime(t),
            Value::Date(d) => ValueView::Date(d),
            Value::Time(t) => ValueView::Time(t),
            Value::String(s) => ValueView::String(s@),
        }
    }
}

/// The views of a list of expressions, in order.
pub open spec fn views_of(exprs: Seq<Expr>) -> Seq<ExprView>
    decreases exprs, 0int,
{
    Seq::new(
        exprs.len(),
        |i: int|
            if 0 <= i < exprs.len() {
                view_of(exprs[i])
            } else {
                ExprView::Value(ValueView::Null)
            },
    )
}

/// The view of one expression.
pub open spec fn view_of(expr: Expr) -> ExprView
    decreases expr, 1int,
{
    match expr {
        Expr::Or(l, r) => ExprView::Or(Box::new(view_of(*l)), Box::new(view_of(*r))),
        Expr::And(l, r) => ExprView::And(Box::new(view_of(*l)), Box::new(view_of(*r))),
        Expr::Not(e) => ExprView::Not(Box::new(view_of(*e))),
        Expr::Compare(l, op, r) => ExprView::Compare(
            Box::new(view_of(*l)),
            op,
            Box::new(view_of(*r)),
        ),
        Expr::In(l, items) => ExprView::In(Box::new(view_of(*l)), views_of(items@)),
        Expr::Function(name, args) => ExprView::Function(name@, views_of(args@)),
        Expr::Lambda(l, op, var, body) => ExprView::Lambda(
            Box::new(view_of(*l)),
            op,
            var@,
            Box::new(view_of(*body)),
        ),
        Expr::Identifier(name) => ExprView::Identifier(name@),
        Expr::Alias(name) => ExprView::Alias(name@),
        Expr::Value(v) => ExprView::Value(v@),
    }
}

impl View for Expr {
    type V = ExprView;

    open spec fn view(&self) -> ExprView {
        view_of(*self)
    }
}

/// A list of expressions grown by one has the views of the old list and then
/// the view of the new expression.
pub proof fn lemma_views_of_push(exprs: Seq<Expr>, expr: Expr)
    ensures
        views_of(exprs.push(expr)) == views_of(exprs).push(view_of(expr)),
{
    assert(views_of(exprs.push(expr)) =~= views_of(exprs).push(view_of(expr)));
}

impl PartialEq for Number {
    fn eq(&self, other: &Self) -> (r: bool) {
        match order_decimals(self, other) {
            Some(order) => order == 0,
            None => self.unscaled == other.unscaled && self.scale == other.scale,
        }
    }
}

impl PartialEqSpecImpl for Number {
    open spec fn obeys_eq_spec() -> bool {
        true
    }

    open spec fn eq_spec(&self, other: &Self) -> bool {
        match order_of_decimals(self.unscaled@, self.scale, other.unscaled@, other.scale) {
            Some(order) => order == 0,
            None => self.unscaled@ == other.unscaled@ && self.scale == other.scale,
        }
    }
}

impl Clone for Number {
    fn clone(&self) -> (r: Self)
        ensures
            r@ == self@,
    {
        Number { unscaled: self.unscaled.clone(), scale: self.scale }
    }
}

impl Clone for Value {
    fn clone(&self) -> (r: Self)
        ensures
            r@ == self@,
    {
        match self {
            Value::Null => Value::Null,
            Value::Bool(b) => Value::Bool(*b),
            Value::Number(n) => Value::Number(n.clone()),
            Value::Uuid(u) => Value::Uuid(*u),
            Value::DateTime(t) => Value::DateTime(*t),
            Value::Date(d) => Value::Date(*d),
            Value::Time(t) => Value::Time(*t),
            Value::String(s) => Value::String(s.clone()),
        }
    }
}

/// Clones every expression of a list, in order.
pub(crate) fn clone_all(items: &Vec<Expr>) -> (out: Vec<Expr>)
    ensures
        views_of(out@) == views_of(items@),
    decreases items,
{
    let mut out: Vec<Expr> = Vec::new();
    let mut i: usize = 0;
    while i < items.len()
        invariant
            i <= items.len(),
            out.len() == i,
            forall|j: int| 0 <= j < i ==> view_of(#[trigger] out@[j]) == view_of(items@[j]),
        decreases items.len() - i,
    {
        out.push(items[i].clone());
        i += 1;
    }
    assert(views_of(out@) =~= views_of(items@));
    out
}

impl Clone for Expr {
    fn clone(&self) -> (r: Self)
        ensures
            r@ == self@,
        decreases *self,
    {
        match self {
            Expr::Or(l, r) => Expr::Or(Box::new((**l).clone()), Box::new((**r).clone())),
            Expr::And(l, r) => Expr::And(Box::new((**l).clone()), Box::new((**r).clone())),
            Expr::Not(e) => Expr::Not(Box::new((**e).clone())),
            Expr::Compare(l, op, r) => Expr::Compare(
                Box::new((**l).clone()),
                *op,
                Box::new((**r).clone()),
            ),
            Expr::In(l, items) => Expr::In(Box::new((**l).clone()), clone_all(items)),
            Expr::Function(name, args) => Expr::Function(name.clone(), clone_all(args)),
            Expr::Lambda(l, op, var, body) => Expr::Lambda(
                Box::new((**l).clone()),
                *op,
                var.clone(),
                Box::new((**body).clone()),
            ),
            Expr::Identifier(name) => Expr::Identifier(name.clone()),
            Expr::Alias(name) => Expr::Alias(name.clone()),
            Expr::Value(v) => Expr::Value(v.clone()),
        }
    }
}

impl CompareOperator {
    /// The operator's token in filter text.
    pub open spec fn token(self) -> Seq<char> {
        match self {
            CompareOperator::Equal => seq!['e', 'q'],
            CompareOperator::NotEqual => seq!['n', 'e'],
            CompareOperator::GreaterThan => seq!['g', 't'],
            CompareOperator::GreaterOrEqual => seq!['g', 'e'],
            CompareOperator::LessThan => seq!['l', 't'],
            CompareOperator::LessOrEqual => seq!['l', 'e'],
            CompareOperator::Has => seq!['h', 'a', 's'],
        }
    }

    /// The operator's token in filter text.
    pub fn as_str(&self) -> (s: &'static str)
        ensures
            s@ == self.token(),
    {
        proof {
            reveal_strlit("eq");
            reveal_strlit("ne");
            reveal_strlit("gt");
            reveal_strlit("ge");
            reveal_strlit("lt");
            reveal_strlit("le");
            reveal_strlit("has");
        }
        let s = match self {
            CompareOperator::Equal => "eq",
            CompareOperator::NotEqual => "ne",
            CompareOperator::GreaterThan => "gt",
            CompareOperator::GreaterOrEqual => "ge",
            CompareOperator::LessThan => "lt",
            CompareOperator::LessOrEqual => "le",
            CompareOperator::Has => "has",
        };
        assert(s@ =~= self.token());
        s
    }

    /// The operator's token, as an owned string.
    pub fn to_string(&self) -> (s: String)
        ensures
            s@ == self.token(),
    {
        self.as_str().to_owned()
    }
}

impl LambdaOperator {
    /// The quantifier's token in filter text.
    pub open spec fn token(self) -> Seq<char> {
        match self {
            LambdaOperator::Any => seq!['a', 'n', 'y'],
            LambdaOperator::All => seq!['a', 'l', 'l'],
        }
    }

    /// The quantifier's token in filter text.
    pub fn as_str(&self) -> (s: &'static str)
        ensures
            s@ == self.token(),
    {
        proof {
            reveal_strlit("any");
            reveal_strlit("all");
        }
        let s = match self {
            LambdaOperator::Any => "any",
            LambdaOperator::All => "all",
        };
        assert(s@ =~= self.token());
        s
    }

    /// The quantifier's token, as an owned string.
    pub fn to_string(&self) -> (s: String)
        ensures
            s@ == self.token(),
    {
        self.as_str().to_owned()
    }
}

} // verus!
