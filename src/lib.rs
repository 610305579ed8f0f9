//! Converts the leading indentation of text from one style (tabs or a fixed
//! number of spaces) to another, leaving everything after it untouched.
pub mod convert;
pub mod laws;
pub mod parse;
pub mod style;
pub mod text;

pub use convert::{detect_indentation, reindent};
pub use parse::{parse_indentation, ParseIndentationError};
pub use style::Indentation;
