//! KDL document language: syntax tree, spans, parser, and decoding of
//! documents into Rust values.
pub mod ast;
pub mod containers;
pub mod convert_ast;
pub mod decode;
pub mod errors;
pub mod grammar;
pub mod report;
pub mod span;
pub mod text;
pub mod traits;
pub mod wrappers;

pub use traits::{Decode, DecodeChildren, DecodePartial, DecodeScalar, DecodeSpan};
pub use wrappers::{parse, parse_ast, parse_with_context};
