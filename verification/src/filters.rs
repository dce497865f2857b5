//! The `$filter` expression tree with its parser, validator and renderer.

pub mod errors;
pub mod grammar;
pub mod literals;
pub mod model;
pub mod parse;
pub mod readback;
pub mod render;
pub mod roundtrip;
pub mod rules;
pub mod scan;
pub mod schema;
pub mod shape;
pub mod text;
pub mod types;
pub mod uuids;
pub mod validate;
pub mod values;

pub use errors::{ParseError, ValidationError};
pub use parse::parse_str;
pub use model::{CompareOperator, Date, DateTime, Expr, LambdaOperator, Number, Time, Value};
pub use render::{to_query_string, write_query_string, RenderError};
pub use schema::{FunctionsTypeMap, IdentifiersTypeMap};
pub use types::Type;
