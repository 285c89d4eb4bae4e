//! A compact structured-document notation and a transcoder to typesetting
//! markup.
//!
//! The library parses source text into an immutable, position-tagged value
//! tree (nil, text, dictionary, table, composition, pattern) and transcodes
//! such a tree into markup for the output typesetting language, keeping
//! output line numbers aligned with source line numbers.

mod block;
mod chars;
mod error;
mod parser;
mod value;
mod writer;

pub use block::BlockFlags;
pub use parser::{parse_dictionary_str, parse_expression_str, parse_table_str};

pub use error::{ParseError, ParseErrorKind, PreprocessorError, PreprocessorErrorView};
pub use value::{DictionaryValue, Element, ParsedValue, PatternValue, Position, TableValue};
pub use writer::{write_tex, BreakMode, LastType, Writer, WriterView};
