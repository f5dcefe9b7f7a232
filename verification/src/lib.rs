//! A shell-like splitter of command lines into arguments.
//!
//! A line is cut at unquoted spaces. Single quotes keep their content
//! verbatim; double quotes do too, except that a backslash before `"` or `\`
//! stands for that character. The grammar is given as a small machine over
//! sequences of characters, the parser is proved to compute what the machine
//! says, and a few laws of the grammar are proved about the machine itself.

pub mod grammar;
pub mod laws;
pub mod parser;
pub mod text;

pub use grammar::{tokenize, Machine, State};
pub use parser::Parser;
