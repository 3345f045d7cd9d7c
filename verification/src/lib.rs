//! An engineering calculator: a tokenizer and a parser for arithmetic
//! expressions, and the state of a calculator front end (the expression being
//! typed, the history of results, the angle mode and the last error).
//!
//! Numbers are kept as the decimal text the user typed; turning a parsed
//! expression into a floating-point value is left to the front end.

pub mod text;
pub mod token;
pub mod error;
pub mod expr;
pub mod grammar;
pub mod written;
pub mod eval;
pub mod calculator;
