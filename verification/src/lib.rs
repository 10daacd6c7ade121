//! Parser for arithmetic expressions of the shape `<number><operator><number>`,
//! with optional spaces between the tokens.
//!
//! The library is built from small extraction primitives that split an input
//! string into a consumed prefix and the unconsumed remainder, and from the
//! structured parsers [`parse::Number`], [`parse::Op`] and [`parse::Expr`]
//! composed out of them. Every parse step is a pure function of its input:
//! it returns the remainder together with the parsed value, or a
//! [`parse::ParseError`] saying exactly why the input was rejected.

pub mod parse;
pub mod scan;
