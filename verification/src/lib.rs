//! A verified parser for one line of interactive shell input.
//!
//! A line holds at most one command: a name word, argument words, and an
//! optional trailing `#`-comment. Words may be single- or double-quoted
//! literals with escape sequences, delimiter-counted raw (`r"…"`) and path
//! (`p"…"`) literals, variable references (`$NAME`, `%NAME`, `$?` and the
//! other special forms), or unquoted runs. Parsing tracks byte-accurate
//! spans and reports the first fatal error with its offset.

pub mod ast;
pub mod builtin;
pub mod chars;
pub mod error;
pub mod exec;
pub mod grammar;
pub mod laws;
pub mod parse;
pub mod render;
