//! Parsing and argument resolution for format strings extended with custom
//! format specifiers.

pub mod cursor;
pub mod text;
pub mod ident;
pub mod field;
pub mod template;
pub mod compile_time;
pub mod resolve;

pub use compile_time::spec;
