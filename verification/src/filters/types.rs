//! The static types of expressions, with `Null` as the wildcard.

use vstd::prelude::*;
use vstd::std_specs::cmp::PartialEqSpec;
use vstd::std_specs::cmp::PartialEqSpecImpl;

verus! {

/// The static type of an expression: one per kind of literal.
///
/// `Null` is a wildcard. `==` on this type is `compatible`, not sameness:
/// `Null` equals every type and every type equals `Null`.
#[derive(Copy, Clone, Debug, Eq)]
pub enum Type {
    Null,
    Boolean,
    Number,
    Uuid,
    DateTime,
    Date,
    Time,
    String,
}

/// Whether two types may be compared: they are the same, or one of them is
/// the wildcard.
pub open spec fn compatible(a: Type, b: Type) -> bool {
    a == b || a == Type::Null || b == Type::Null
}

impl Type {
    /// Whether this is exactly `Boolean`; the wildcard is not.
    pub fn is_boolean(&self) -> (r: bool)
        ensures
            r == (*self == Type::Boolean),
    {
        match self {
            Type::Boolean => true,
            _ => false,
        }
    }

    /// Whether this is the wildcard.
    pub fn is_null(&self) -> (r: bool)
        ensures
            r == (*self == Type::Null),
    {
        match self {
            Type::Null => true,
            _ => false,
        }
    }

    /// Whether `self` and `other` are the same variant, the wildcard counting
    /// as a variant like the others.
    pub fn same_variant(&self, other: &Type) -> (r: bool)
        ensures
            r == (*self == *other),
    {
        match (self, other) {
            (Type::Null, Type::Null) => true,
            (Type::Boolean, Type::Boolean) => true,
            (Type::Number, Type::Number) => true,
            (Type::Uuid, Type::Uuid) => true,
            (Type::DateTime, Type::DateTime) => true,
            (Type::Date, Type::Date) => true,
            (Type::Time, Type::Time) => true,
            (Type::String, Type::String) => true,
            _ => false,
        }
    }
}

impl PartialEq for Type {
    fn eq(&self, other: &Self) -> (r: bool) {
        self.same_variant(other) || other.is_null() || self.is_null()
    }
}

impl PartialEqSpecImpl for Type {
    open spec fn obeys_eq_spec() -> bool {
        true
    }

    open spec fn eq_spec(&self, other: &Self) -> bool {
        compatible(*self, *other)
    }
}

/// What `==` means on `Type`: the wildcard equals every type, on either
/// side, and two types of which neither is the wildcard are equal exactly
/// when they are the same variant.
pub proof fn lemma_type_equality(a: Type, b: Type)
    ensures
        PartialEqSpec::eq_spec(&Type::Null, &a),
        PartialEqSpec::eq_spec(&a, &Type::Null),
        a != Type::Null && b != Type::Null ==> (PartialEqSpec::eq_spec(&a, &b) <==> a == b),
        PartialEqSpec::eq_spec(&a, &b) == compatible(a, b),
{
}

/// Compatibility is reflexive and symmetric.
pub proof fn lemma_compatible_reflexive_symmetric(a: Type, b: Type)
    ensures
        compatible(a, a),
        compatible(a, b) == compatible(b, a),
{
}

/// Compatibility is not transitive: the wildcard links two types that are not
/// compatible with each other.
pub proof fn lemma_compatible_not_transitive()
    ensures
        compatible(Type::Number, Type::Null),
        compatible(Type::Null, Type::String),
        !compatible(Type::Number, Type::String),
{
}

} // verus!
