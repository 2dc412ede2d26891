//! Lexical front end pieces for a dynamic-language interpreter: the
//! string-literal sub-lexer (scanning, escape decoding, UTF-16 surrogate
//! reconstruction) together with the pure record keeping of its
//! conformance-suite runner.

pub mod cursor;
pub mod error;
pub mod laws;
pub mod position;
pub mod results;
pub mod runner;
pub mod string;
pub mod token;
pub mod unicode;

pub use position::Position;
pub use position::Span;
