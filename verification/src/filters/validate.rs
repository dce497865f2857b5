//! Type checking of an expression against a schema of identifiers and a
//! schema of functions.
//!
//! `type_of` says what the type of an expression is, or the first violation in
//! it, reading left to right and depth first. `Expr::validate` computes it.

use vstd::prelude::*;
use super::errors::{ValidationError, ValidationErrorView};
use super::model::{Expr, ExprView, Value, ValueView};
use super::schema::{FunctionsTypeMap, IdentifiersTypeMap, Signature, SignatureView};
use super::types::{compatible, Type};

verus! {

/// The outcome of validation, as contracts see it.
pub type Outcome = Result<Type, ValidationErrorView>;

/// The type of a literal.
pub open spec fn type_of_value(value: ValueView) -> Type {
    match value {
        ValueView::Null => Type::Null,
        ValueView::Bool(_) => Type::Boolean,
        ValueView::Number(_, _) => Type::Number,
        ValueView::Uuid(_) => Type::Uuid,
        ValueView::DateTime(_) => Type::DateTime,
        ValueView::Date(_) => Type::Date,
        ValueView::Time(_) => Type::Time,
        ValueView::String(_) => Type::String,
    }
}

/// The type that a name has in the schema, or the error for a name that the
/// schema lacks.
pub open spec fn type_of_name(name: Seq<char>, identifiers: Map<Seq<char>, Type>) -> Outcome {
    if identifiers.contains_key(name) {
        Ok(identifiers[name])
    } else {
        Err(ValidationErrorView::UndefinedIdentifier { name })
    }
}

/// What `and` and `or` give for operands of types `lhs` and `rhs`.
pub open spec fn join_outcome(lhs: Type, rhs: Type) -> Outcome {
    if lhs == Type::Boolean && rhs == Type::Boolean {
        Ok(Type::Boolean)
    } else {
        Err(ValidationErrorView::LogicalJoinRequiresBooleans { lhs, rhs })
    }
}

/// What `not` gives for an operand of type `given`, and a lambda for a body
/// of that type.
pub open spec fn not_outcome(given: Type) -> Outcome {
    if given == Type::Boolean {
        Ok(Type::Boolean)
    } else {
        Err(ValidationErrorView::LogicalNotRequiresBoolean { given })
    }
}

/// What a comparison gives for operands of types `lhs` and `rhs`.
pub open spec fn compare_outcome(lhs: Type, rhs: Type) -> Outcome {
    if compatible(lhs, rhs) {
        Ok(Type::Boolean)
    } else {
        Err(ValidationErrorView::ComparingIncompatibleTypes { lhs, rhs })
    }
}

/// Whether a function of this signature takes `given` arguments.
pub open spec fn arity_accepts(signature: SignatureView, given: int) -> bool {
    match signature.1 {
        None => signature.0.len() == given,
        Some(_) => signature.0.len() <= given,
    }
}

/// The type that a function of this signature expects of its argument at
/// `index`, counted from 0: that of the required parameter there, and past
/// those the variadic type.
pub open spec fn expected_type(signature: SignatureView, index: int) -> Type {
    if 0 <= index < signature.0.len() {
        signature.0[index]
    } else {
        match signature.1 {
            Some(t) => t,
            None => Type::Null,
        }
    }
}

/// The type of `expr`, or the first violation in it.
pub open spec fn type_of(
    expr: ExprView,
    identifiers: Map<Seq<char>, Type>,
    functions: Map<Seq<char>, SignatureView>,
) -> Outcome
    decreases expr, 0nat,
{
    match expr {
        ExprView::Or(l, r) | ExprView::And(l, r) => match type_of(*l, identifiers, functions) {
            Err(e) => Err(e),
            Ok(lhs) => match type_of(*r, identifiers, functions) {
                Err(e) => Err(e),
                Ok(rhs) => join_outcome(lhs, rhs),
            },
        },
        ExprView::Not(e) => match type_of(*e, identifiers, functions) {
            Err(e) => Err(e),
            Ok(given) => not_outcome(given),
        },
        ExprView::Compare(l, _, r) => match type_of(*l, identifiers, functions) {
            Err(e) => Err(e),
            Ok(lhs) => match type_of(*r, identifiers, functions) {
                Err(e) => Err(e),
                Ok(rhs) => compare_outcome(lhs, rhs),
            },
        },
        ExprView::In(l, items) => match type_of(*l, identifiers, functions) {
            Err(e) => Err(e),
            Ok(lhs) => members_outcome(lhs, items, 0, identifiers, functions),
        },
        ExprView::Function(name, args) => if !functions.contains_key(name) {
            Err(ValidationErrorView::UndefinedFunction { name })
        } else if !arity_accepts(functions[name], args.len() as int) {
            Err(
                ValidationErrorView::IncorrectFunctionArgumentsCount {
                    name,
                    is_variadic: functions[name].1 is Some,
                    expected: functions[name].0.len() as int,
                    given: args.len() as int,
                },
            )
        } else {
            arguments_outcome(name, functions[name], args, 0, identifiers, functions)
        },
        ExprView::Lambda(l, _, var, body) => match type_of(*l, identifiers, functions) {
            Err(e) => Err(e),
            Ok(_) => match type_of(*body, identifiers.insert(var, Type::Null), functions) {
                Err(e) => Err(e),
                Ok(given) => not_outcome(given),
            },
        },
        ExprView::Identifier(name) => type_of_name(name, identifiers),
        ExprView::Alias(name) => type_of_name(name, identifiers),
        ExprView::Value(v) => Ok(type_of_value(v)),
    }
}

/// What the list of an `in` gives from the item at `from` on, for a left
/// operand of type `lhs`: the first violation in an item, or the first item
/// whose type is not compatible with `lhs`.
pub open spec fn members_outcome(
    lhs: Type,
    items: Seq<ExprView>,
    from: int,
    identifiers: Map<Seq<char>, Type>,
    functions: Map<Seq<char>, SignatureView>,
) -> Outcome
    decreases items, items.len() - from,
{
    if 0 <= from < items.len() {
        match type_of(items[from], identifiers, functions) {
            Err(e) => Err(e),
            Ok(rhs) => if compatible(lhs, rhs) {
                members_outcome(lhs, items, from + 1, identifiers, functions)
            } else {
                Err(ValidationErrorView::ComparingIncompatibleTypes { lhs, rhs })
            },
        }
    } else {
        Ok(Type::Boolean)
    }
}

/// What the arguments of a call of `name` give from the one at `from` on: the
/// first violation in an argument, or the first argument whose type is not
/// compatible with the type expected there, or the function's return type.
pub open spec fn arguments_outcome(
    name: Seq<char>,
    signature: SignatureView,
    args: Seq<ExprView>,
    from: int,
    identifiers: Map<Seq<char>, Type>,
    functions: Map<Seq<char>, SignatureView>,
) -> Outcome
    decreases args, args.len() - from,
{
    if 0 <= from < args.len() {
        match type_of(args[from], identifiers, functions) {
            Err(e) => Err(e),
            Ok(given) => if compatible(given, expected_type(signature, from)) {
                arguments_outcome(name, signature, args, from + 1, identifiers, functions)
            } else {
                Err(
                    ValidationErrorView::IncorrectFunctionArgumentType {
                        name,
                        position: from + 1,
                        expected: expected_type(signature, from),
                        given,
                    },
                )
            },
        }
    } else {
        Ok(signature.2)
    }
}

/// An executable outcome as contracts see it.
pub open spec fn outcome_view(r: Result<Type, ValidationError>) -> Outcome {
    match r {
        Ok(t) => Ok(t),
        Err(e) => Err(e@),
    }
}

/// The schema `base` with each name of `bound` mapped to the wildcard, the
/// later names over the earlier ones.
pub open spec fn scoped(base: Map<Seq<char>, Type>, bound: Seq<Seq<char>>) -> Map<Seq<char>, Type>
    decreases bound.len(),
{
    if bound.len() == 0 {
        base
    } else {
        scoped(base, bound.drop_last()).insert(bound.last(), Type::Null)
    }
}

/// The views of a list of names.
pub open spec fn names_of(bound: Seq<String>) -> Seq<Seq<char>> {
    Seq::new(bound.len(), |i: int| bound[i]@)
}

/// In a scoped schema a bound name is the wildcard, and any other name is
/// what it is in the base schema.
proof fn lemma_scoped_lookup(base: Map<Seq<char>, Type>, bound: Seq<Seq<char>>, name: Seq<char>)
    ensures
        scoped(base, bound).contains_key(name) <==> bound.contains(name) || base.contains_key(
            name,
        ),
        bound.contains(name) ==> scoped(base, bound)[name] == Type::Null,
        !bound.contains(name) && base.contains_key(name) ==> scoped(base, bound)[name]
            == base[name],
    decreases bound.len(),
{
    if bound.len() > 0 {
        let rest = bound.drop_last();
        lemma_scoped_lookup(base, rest, name);
        assert(bound.contains(name) <==> rest.contains(name) || bound.last() == name) by {
            if bound.contains(name) {
                let i = choose|i: int| 0 <= i < bound.len() && bound[i] == name;
                if i < bound.len() - 1 {
                    assert(rest[i] == name);
                }
            }
            if rest.contains(name) {
                let i = choose|i: int| 0 <= i < rest.len() && rest[i] == name;
                assert(bound[i] == name);
            }
            if bound.last() == name {
                assert(bound[bound.len() - 1] == name);
            }
        }
    }
}

/// The type of `name` under the schema `identifiers` scoped by `bound`.
fn lookup(identifiers: &IdentifiersTypeMap, bound: &Vec<String>, name: &String) -> (r: Result<
    Type,
    ValidationError,
>)
    ensures
        outcome_view(r) == type_of_name(name@, scoped(identifiers@, names_of(bound@))),
{
    let ghost names = names_of(bound@);
    let mut i: usize = 0;
    let mut found = false;
    while i < bound.len()
        invariant
            i <= bound.len(),
            names == names_of(bound@),
            found <==> exists|j: int| 0 <= j < i && names[j] == name@,
        decreases bound.len() - i,
    {
        if bound[i] == *name {
            assert(names[i as int] == name@);
            found = true;
        }
        i += 1;
    }
    proof {
        lemma_scoped_lookup(identifiers@, names, name@);
        assert(found <==> names.contains(name@));
    }
    if found {
        Ok(Type::Null)
    } else {
        match identifiers.get(name.as_str()) {
            Some(t) => Ok(t),
            None => Err(ValidationError::UndefinedIdentifier { name: name.clone() }),
        }
    }
}

/// The names of `bound` and then `var`.
fn extended(bound: &Vec<String>, var: &String) -> (r: Vec<String>)
    ensures
        names_of(r@) == names_of(bound@).push(var@),
{
    let mut r: Vec<String> = Vec::new();
    let mut i: usize = 0;
    while i < bound.len()
        invariant
            i <= bound.len(),
            r.len() == i,
            forall|j: int| 0 <= j < i ==> r@[j]@ == bound@[j]@,
        decreases bound.len() - i,
    {
        r.push(bound[i].clone());
        i += 1;
    }
    r.push(var.clone());
    assert(names_of(r@) =~= names_of(bound@).push(var@));
    r
}

/// The type of a literal.
fn value_type(value: &Value) -> (r: Type)
    ensures
        r == type_of_value(value@),
{
    match value {
        Value::Null => Type::Null,
        Value::Bool(_) => Type::Boolean,
        Value::Number(_) => Type::Number,
        Value::Uuid(_) => Type::Uuid,
        Value::DateTime(_) => Type::DateTime,
        Value::Date(_) => Type::Date,
        Value::Time(_) => Type::Time,
        Value::String(_) => Type::String,
    }
}

/// The type that `signature` expects of the argument at `index`.
fn expected_at(signature: &Signature, index: usize) -> (r: Type)
    ensures
        r == expected_type((signature.0@, signature.1, signature.2), index as int),
{
    if index < signature.0.len() {
        signature.0[index]
    } else {
        match signature.1 {
            Some(t) => t,
            None => Type::Null,
        }
    }
}

/// Validates the items of an `in` list against the type of its left operand.
fn validate_members(
    lhs: Type,
    items: &Vec<Expr>,
    identifiers: &IdentifiersTypeMap,
    bound: &Vec<String>,
    functions: &FunctionsTypeMap,
) -> (r: Result<Type, ValidationError>)
    ensures
        outcome_view(r) == members_outcome(
            lhs,
            super::model::views_of(items@),
            0,
            scoped(identifiers@, names_of(bound@)),
            functions@,
        ),
    decreases items,
{
    let ghost ids = scoped(identifiers@, names_of(bound@));
    let ghost views = super::model::views_of(items@);
    let mut i: usize = 0;
    while i < items.len()
        invariant
            i <= items.len(),
            ids == scoped(identifiers@, names_of(bound@)),
            views == super::model::views_of(items@),
            members_outcome(lhs, views, 0, ids, functions@) == members_outcome(
                lhs,
                views,
                i as int,
                ids,
                functions@,
            ),
        decreases items.len() - i,
    {
        assert(views[i as int] == items@[i as int]@);
        let rhs = match validate_scoped(&items[i], identifiers, bound, functions) {
            Ok(t) => t,
            Err(e) => {
                return Err(e);
            },
        };
        if !(lhs == rhs) {
            return Err(ValidationError::ComparingIncompatibleTypes { lhs, rhs });
        }
        i += 1;
    }
    Ok(Type::Boolean)
}

/// Validates the arguments of a call of `name` against its signature.
fn validate_arguments(
    name: &String,
    signature: &Signature,
    args: &Vec<Expr>,
    identifiers: &IdentifiersTypeMap,
    bound: &Vec<String>,
    functions: &FunctionsTypeMap,
) -> (r: Result<Type, ValidationError>)
    ensures
        outcome_view(r) == arguments_outcome(
            name@,
            (signature.0@, signature.1, signature.2),
            super::model::views_of(args@),
            0,
            scoped(identifiers@, names_of(bound@)),
            functions@,
        ),
    decreases args,
{
    let ghost ids = scoped(identifiers@, names_of(bound@));
    let ghost views = super::model::views_of(args@);
    let ghost sig = (signature.0@, signature.1, signature.2);
    let mut i: usize = 0;
    while i < args.len()
        invariant
            i <= args.len(),
            ids == scoped(identifiers@, names_of(bound@)),
            views == super::model::views_of(args@),
            sig == (signature.0@, signature.1, signature.2),
            arguments_outcome(name@, sig, views, 0, ids, functions@) == arguments_outcome(
                name@,
                sig,
                views,
                i as int,
                ids,
                functions@,
            ),
        decreases args.len() - i,
    {
        assert(views[i as int] == args@[i as int]@);
        let given = match validate_scoped(&args[i], identifiers, bound, functions) {
            Ok(t) => t,
            Err(e) => {
                return Err(e);
            },
        };
        let expected = expected_at(signature, i);
        if !(given == expected) {
            return Err(
                ValidationError::IncorrectFunctionArgumentType {
                    name: name.clone(),
                    position: i + 1,
                    expected,
                    given,
                },
            );
        }
        i += 1;
    }
    Ok(signature.2)
}

/// Validates `expr` under the schema `identifiers` scoped by the lambda
/// variables `bound`, the innermost last.
fn validate_scoped(
    expr: &Expr,
    identifiers: &IdentifiersTypeMap,
    bound: &Vec<String>,
    functions: &FunctionsTypeMap,
) -> (r: Result<Type, ValidationError>)
    ensures
        outcome_view(r) == type_of(expr@, scoped(identifiers@, names_of(bound@)), functions@),
    decreases expr,
{
    match expr {
        Expr::Or(l, r) | Expr::And(l, r) => {
            let lhs = match validate_scoped(l, identifiers, bound, functions) {
                Ok(t) => t,
                Err(e) => {
                    return Err(e);
                },
            };
            let rhs = match validate_scoped(r, identifiers, bound, functions) {
                Ok(t) => t,
                Err(e) => {
                    return Err(e);
                },
            };
            if lhs.is_boolean() && rhs.is_boolean() {
                Ok(Type::Boolean)
            } else {
                Err(ValidationError::LogicalJoinRequiresBooleans { lhs, rhs })
            }
        },
        Expr::Not(inner) => {
            let given = match validate_scoped(inner, identifiers, bound, functions) {
                Ok(t) => t,
                Err(e) => {
                    return Err(e);
                },
            };
            if given.is_boolean() {
                Ok(Type::Boolean)
            } else {
                Err(ValidationError::LogicalNotRequiresBoolean { given })
            }
        },
        Expr::Compare(l, _, r) => {
            let lhs = match validate_scoped(l, identifiers, bound, functions) {
                Ok(t) => t,
                Err(e) => {
                    return Err(e);
                },
            };
            let rhs = match validate_scoped(r, identifiers, bound, functions) {
                Ok(t) => t,
                Err(e) => {
                    return Err(e);
                },
            };
            if lhs == rhs {
                Ok(Type::Boolean)
            } else {
                Err(ValidationError::ComparingIncompatibleTypes { lhs, rhs })
            }
        },
        Expr::In(l, items) => {
            let lhs = match validate_scoped(l, identifiers, bound, functions) {
                Ok(t) => t,
                Err(e) => {
                    return Err(e);
                },
            };
            validate_members(lhs, items, identifiers, bound, functions)
        },
        Expr::Function(name, args) => {
            let signature = match functions.get(name.as_str()) {
                Some(s) => s,
                None => {
                    return Err(ValidationError::UndefinedFunction { name: name.clone() });
                },
            };
            let required = signature.0.len();
            let fits = match signature.1 {
                None => required == args.len(),
                Some(_) => required <= args.len(),
            };
            if !fits {
                assert(super::model::views_of(args@).len() == args@.len());
                return Err(
                    ValidationError::IncorrectFunctionArgumentsCount {
                        name: name.clone(),
                        is_variadic: signature.1.is_some(),
                        expected: required,
                        given: args.len(),
                    },
                );
            }
            validate_arguments(name, signature, args, identifiers, bound, functions)
        },
        Expr::Lambda(l, _, var, body) => {
            match validate_scoped(l, identifiers, bound, functions) {
                Ok(_) => {},
                Err(e) => {
                    return Err(e);
                },
            }
            let inner = extended(bound, var);
            assert(names_of(inner@).drop_last() =~= names_of(bound@));
            let given = match validate_scoped(body, identifiers, &inner, functions) {
                Ok(t) => t,
                Err(e) => {
                    return Err(e);
                },
            };
            if given.is_boolean() {
                Ok(Type::Boolean)
            } else {
                Err(ValidationError::LogicalNotRequiresBoolean { given })
            }
        },
        Expr::Identifier(name) => lookup(identifiers, bound, name),
        Expr::Alias(name) => lookup(identifiers, bound, name),
        Expr::Value(v) => Ok(value_type(v)),
    }
}

impl Expr {
    /// The type of the expression under the two schemas, or the first
    /// violation in it.
    ///
    /// The body of a lambda is checked with its variable added to the
    /// identifiers as the wildcard; the caller's schema is not changed.
    pub fn validate(&self, identifiers: &IdentifiersTypeMap, functions: &FunctionsTypeMap) -> (r:
        Result<Type, ValidationError>)
        ensures
            outcome_view(r) == type_of(self@, identifiers@, functions@),
    {
        let bound: Vec<String> = Vec::new();
        assert(names_of(bound@) =~= Seq::<Seq<char>>::empty());
        validate_scoped(self, identifiers, &bound, functions)
    }

    /// Whether the expression is well typed and Boolean: the violation if it
    /// is not well typed, else whether its type is exactly `Boolean`.
    pub fn are_types_valid(
        &self,
        identifiers: &IdentifiersTypeMap,
        functions: &FunctionsTypeMap,
    ) -> (r: Result<bool, ValidationError>)
        ensures
            match type_of(self@, identifiers@, functions@) {
                Ok(t) => r == Ok::<bool, ValidationError>(t == Type::Boolean),
                Err(e) => r is Err && r->Err_0@ == e,
            },
    {
        match self.validate(identifiers, functions) {
            Ok(t) => Ok(t.is_boolean()),
            Err(e) => Err(e),
        }
    }
}

/// `and` and `or` over two well-typed operands give Boolean when both
/// operands are exactly Boolean; for any other pair of types, the wildcard
/// included, they fail with `LogicalJoinRequiresBooleans` and the two types.
pub proof fn lemma_join_requires_booleans(
    l: ExprView,
    r: ExprView,
    identifiers: Map<Seq<char>, Type>,
    functions: Map<Seq<char>, SignatureView>,
)
    requires
        type_of(l, identifiers, functions) is Ok,
        type_of(r, identifiers, functions) is Ok,
    ensures
        ({
            let lhs = type_of(l, identifiers, functions)->Ok_0;
            let rhs = type_of(r, identifiers, functions)->Ok_0;
            let or = type_of(ExprView::Or(Box::new(l), Box::new(r)), identifiers, functions);
            let and = type_of(ExprView::And(Box::new(l), Box::new(r)), identifiers, functions);
            &&& or == and
            &&& lhs == Type::Boolean && rhs == Type::Boolean ==> or == Ok::<
                Type,
                ValidationErrorView,
            >(Type::Boolean)
            &&& !(lhs == Type::Boolean && rhs == Type::Boolean) ==> or == Err::<
                Type,
                ValidationErrorView,
            >(ValidationErrorView::LogicalJoinRequiresBooleans { lhs, rhs })
        }),
{
}

/// `not` over a well-typed operand gives Boolean when the operand is exactly
/// Boolean; for any other type, the wildcard included, it fails with
/// `LogicalNotRequiresBoolean` and that type.
pub proof fn lemma_not_requires_boolean(
    e: ExprView,
    identifiers: Map<Seq<char>, Type>,
    functions: Map<Seq<char>, SignatureView>,
)
    requires
        type_of(e, identifiers, functions) is Ok,
    ensures
        ({
            let given = type_of(e, identifiers, functions)->Ok_0;
            let not = type_of(ExprView::Not(Box::new(e)), identifiers, functions);
            &&& given == Type::Boolean ==> not == Ok::<Type, ValidationErrorView>(Type::Boolean)
            &&& given != Type::Boolean ==> not == Err::<Type, ValidationErrorView>(
                ValidationErrorView::LogicalNotRequiresBoolean { given },
            )
        }),
{
}

/// A comparison of two well-typed operands is accepted exactly when their
/// types are compatible, whatever the operator. Accepted, it is Boolean;
/// refused, the error holds the two types.
pub proof fn lemma_compare_accepts_compatible(
    l: ExprView,
    op: super::model::CompareOperator,
    r: ExprView,
    identifiers: Map<Seq<char>, Type>,
    functions: Map<Seq<char>, SignatureView>,
)
    requires
        type_of(l, identifiers, functions) is Ok,
        type_of(r, identifiers, functions) is Ok,
    ensures
        ({
            let lhs = type_of(l, identifiers, functions)->Ok_0;
            let rhs = type_of(r, identifiers, functions)->Ok_0;
            let cmp = type_of(
                ExprView::Compare(Box::new(l), op, Box::new(r)),
                identifiers,
                functions,
            );
            &&& cmp is Ok <==> compatible(lhs, rhs)
            &&& cmp is Ok ==> cmp == Ok::<Type, ValidationErrorView>(Type::Boolean)
            &&& cmp is Err ==> cmp == Err::<Type, ValidationErrorView>(
                ValidationErrorView::ComparingIncompatibleTypes { lhs, rhs },
            )
        }),
{
}

/// Over well-typed items, the list of an `in` is accepted from `from` on
/// exactly when every item from there on has a type compatible with `lhs`.
proof fn lemma_members_accept_compatible(
    lhs: Type,
    items: Seq<ExprView>,
    from: int,
    identifiers: Map<Seq<char>, Type>,
    functions: Map<Seq<char>, SignatureView>,
)
    requires
        0 <= from <= items.len(),
        forall|i: int| 0 <= i < items.len() ==> type_of(items[i], identifiers, functions) is Ok,
    ensures
        ({
            let out = members_outcome(lhs, items, from, identifiers, functions);
            &&& out is Ok <==> forall|i: int|
                from <= i < items.len() ==> compatible(
                    lhs,
                    type_of(items[i], identifiers, functions)->Ok_0,
                )
            &&& out is Ok ==> out == Ok::<Type, ValidationErrorView>(Type::Boolean)
        }),
    decreases items.len() - from,
{
    if from < items.len() {
        lemma_members_accept_compatible(lhs, items, from + 1, identifiers, functions);
    }
}

/// An `in` over a well-typed left operand and well-typed items is accepted
/// exactly when the type of every item is compatible with the type of the left
/// operand. Accepted, it is Boolean.
pub proof fn lemma_in_accepts_compatible(
    l: ExprView,
    items: Seq<ExprView>,
    identifiers: Map<Seq<char>, Type>,
    functions: Map<Seq<char>, SignatureView>,
)
    requires
        type_of(l, identifiers, functions) is Ok,
        forall|i: int| 0 <= i < items.len() ==> type_of(items[i], identifiers, functions) is Ok,
    ensures
        ({
            let lhs = type_of(l, identifiers, functions)->Ok_0;
            let out = type_of(ExprView::In(Box::new(l), items), identifiers, functions);
            &&& out is Ok <==> forall|i: int|
                0 <= i < items.len() ==> compatible(
                    lhs,
                    type_of(items[i], identifiers, functions)->Ok_0,
                )
            &&& out is Ok ==> out == Ok::<Type, ValidationErrorView>(Type::Boolean)
        }),
{
    let lhs = type_of(l, identifiers, functions)->Ok_0;
    lemma_members_accept_compatible(lhs, items, 0, identifiers, functions);
}

/// A call of a function that is not variadic, with a number of arguments
/// other than the number of its parameters, fails with
/// `IncorrectFunctionArgumentsCount`, whatever the arguments are.
pub proof fn lemma_fixed_arity_is_exact(
    name: Seq<char>,
    args: Seq<ExprView>,
    identifiers: Map<Seq<char>, Type>,
    functions: Map<Seq<char>, SignatureView>,
)
    requires
        functions.contains_key(name),
        functions[name].1 is None,
        functions[name].0.len() != args.len(),
    ensures
        type_of(ExprView::Function(name, args), identifiers, functions) == Err::<
            Type,
            ValidationErrorView,
        >(
            ValidationErrorView::IncorrectFunctionArgumentsCount {
                name,
                is_variadic: false,
                expected: functions[name].0.len() as int,
                given: args.len() as int,
            },
        ),
{
}

/// Arguments that are well typed, each compatible with the type expected in
/// its place, give the function's return type.
proof fn lemma_arguments_accepted(
    name: Seq<char>,
    signature: SignatureView,
    args: Seq<ExprView>,
    from: int,
    identifiers: Map<Seq<char>, Type>,
    functions: Map<Seq<char>, SignatureView>,
)
    requires
        0 <= from <= args.len(),
        forall|i: int|
            from <= i < args.len() ==> {
                &&& type_of(args[i], identifiers, functions) is Ok
                &&& compatible(
                    type_of(args[i], identifiers, functions)->Ok_0,
                    expected_type(signature, i),
                )
            },
    ensures
        arguments_outcome(name, signature, args, from, identifiers, functions) == Ok::<
            Type,
            ValidationErrorView,
        >(signature.2),
    decreases args.len() - from,
{
    if from < args.len() {
        lemma_arguments_accepted(name, signature, args, from + 1, identifiers, functions);
    }
}

/// A variadic function with `K` required parameters takes any number of
/// arguments from `K` up: the call is then judged by its arguments alone, and
/// where each is well typed and compatible with the type expected in its
/// place, the call has the function's return type.
pub proof fn lemma_variadic_arity_is_a_minimum(
    name: Seq<char>,
    args: Seq<ExprView>,
    identifiers: Map<Seq<char>, Type>,
    functions: Map<Seq<char>, SignatureView>,
)
    requires
        functions.contains_key(name),
        functions[name].1 is Some,
        functions[name].0.len() <= args.len(),
    ensures
        type_of(ExprView::Function(name, args), identifiers, functions) == arguments_outcome(
            name,
            functions[name],
            args,
            0,
            identifiers,
            functions,
        ),
        (forall|i: int|
            0 <= i < args.len() ==> {
                &&& type_of(args[i], identifiers, functions) is Ok
                &&& compatible(
                    type_of(args[i], identifiers, functions)->Ok_0,
                    expected_type(functions[name], i),
                )
            }) ==> type_of(ExprView::Function(name, args), identifiers, functions) == Ok::<
            Type,
            ValidationErrorView,
        >(functions[name].2),
{
    if forall|i: int|
        0 <= i < args.len() ==> {
            &&& type_of(args[i], identifiers, functions) is Ok
            &&& compatible(
                type_of(args[i], identifiers, functions)->Ok_0,
                expected_type(functions[name], i),
            )
        } {
        lemma_arguments_accepted(name, functions[name], args, 0, identifiers, functions);
    }
}

/// A lambda over a well-typed collection is Boolean when its body is
/// Boolean under the identifiers extended with the bound variable as the
/// wildcard. The variable shadows an identifier of the same name in the body
/// only.
pub proof fn lemma_lambda_body_is_scoped(
    l: ExprView,
    op: super::model::LambdaOperator,
    var: Seq<char>,
    body: ExprView,
    identifiers: Map<Seq<char>, Type>,
    functions: Map<Seq<char>, SignatureView>,
)
    requires
        type_of(body, identifiers.insert(var, Type::Null), functions) == Ok::<
            Type,
            ValidationErrorView,
        >(Type::Boolean),
    ensures
        type_of(ExprView::Lambda(Box::new(l), op, var, Box::new(body)), identifiers, functions)
            == match type_of(l, identifiers, functions) {
            Err(e) => Err::<Type, ValidationErrorView>(e),
            Ok(_) => Ok::<Type, ValidationErrorView>(Type::Boolean),
        },
{
}

} // verus!
