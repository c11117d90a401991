//! Parsing and interpretation of G-code programs.

pub mod interpreter;
pub mod interpreter_laws;
pub mod letter;
pub mod letter_map;
pub mod number;
pub mod parser;
pub mod parser_laws;

pub use letter::GcodeLetter;
pub use number::{Decimal, GcodeNumber};
pub use parser::{parse, GcodeLine, GcodeWord, ParserError, ParserErrorReason};
