//! Parsing, type checking and rendering of OData v4 `$filter` expressions.

pub mod filters;
