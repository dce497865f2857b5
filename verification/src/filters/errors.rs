//! What parsing and validation report when they fail.

use vstd::prelude::*;
use super::types::Type;

verus! {

/// Why a filter text was not parsed. Each variant but the first names the
/// kind of literal that was malformed.
#[derive(Clone, Copy, Debug, PartialEq, Eq, Structural)]
pub enum ParseError {
    /// The text does not follow the grammar.
    Parsing,
    ParsingUuid,
    ParsingNumber,
    ParsingDate,
    ParsingTime,
    ParsingDateTime,
    /// A numeric time zone offset was malformed.
    ParsingTimeZone,
    /// A time zone name is not known.
    ParsingTimeZoneNamed,
    /// An escape `\u` names no Unicode scalar value.
    ParsingUnicodeCodePoint,
}

/// The first violation that validation met.
#[derive(Clone, Debug, PartialEq, Eq)]
#[allow(inconsistent_fields)]
pub enum ValidationError {
    /// An operand of `and` or `or` is not Boolean.
    LogicalJoinRequiresBooleans { lhs: Type, rhs: Type },
    /// The operand of `not`, or the body of a lambda, is not Boolean.
    LogicalNotRequiresBoolean { given: Type },
    /// Two compared operands have types that are not compatible.
    ComparingIncompatibleTypes { lhs: Type, rhs: Type },
    UndefinedIdentifier { name: String },
    UndefinedFunction { name: String },
    /// `expected` is the number of required parameters.
    IncorrectFunctionArgumentsCount { name: String, is_variadic: bool, expected: usize, given: usize },
    /// `position` counts the arguments from 1.
    IncorrectFunctionArgumentType { name: String, position: usize, expected: Type, given: Type },
}

/// What a `ValidationError` holds, with its names as sequences.
#[allow(inconsistent_fields)]
pub ghost enum ValidationErrorView {
    LogicalJoinRequiresBooleans { lhs: Type, rhs: Type },
    LogicalNotRequiresBoolean { given: Type },
    ComparingIncompatibleTypes { lhs: Type, rhs: Type },
    UndefinedIdentifier { name: Seq<char> },
    UndefinedFunction { name: Seq<char> },
    IncorrectFunctionArgumentsCount { name: Seq<char>, is_variadic: bool, expected: int, given: int },
    IncorrectFunctionArgumentType { name: Seq<char>, position: int, expected: Type, given: Type },
}

impl View for ValidationError {
    type V = ValidationErrorView;

    open spec fn view(&self) -> ValidationErrorView {
        match *self {
            ValidationError::LogicalJoinRequiresBooleans { lhs, rhs } =>
                ValidationErrorView::LogicalJoinRequiresBooleans { lhs, rhs },
            ValidationError::LogicalNotRequiresBoolean { given } =>
                ValidationErrorView::LogicalNotRequiresBoolean { given },
            ValidationError::ComparingIncompatibleTypes { lhs, rhs } =>
                ValidationErrorView::ComparingIncompatibleTypes { lhs, rhs },
            ValidationError::UndefinedIdentifier { name } =>
                ValidationErrorView::UndefinedIdentifier { name: name@ },
            ValidationError::UndefinedFunction { name } =>
                ValidationErrorView::UndefinedFunction { name: name@ },
            ValidationError::IncorrectFunctionArgumentsCount { name, is_variadic, expected, given } =>
                ValidationErrorView::IncorrectFunctionArgumentsCount {
                    name: name@,
                    is_variadic,
                    expected: expected as int,
                    given: given as int,
                },
            ValidationError::IncorrectFunctionArgumentType { name, position, expected, given } =>
                ValidationErrorView::IncorrectFunctionArgumentType {
                    name: name@,
                    position: position as int,
                    expected,
                    given,
                },
        }
    }
}

} // verus!
