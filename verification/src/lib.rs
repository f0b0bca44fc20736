//! A line-oriented text search: lines are selected by patterns, shown with
//! the lines around them, and rendered with file names, line numbers or as a
//! count.
//!
//! - [`grep_config`]: the configuration of a search and the command line
//!   that gives it.
//! - [`pattern`]: queries compiled to regular expressions.
//! - [`lines`]: the lines of a file, as bytes.
//! - [`window`]: the lines shown around the selected ones.
//! - [`grep`]: searching files and rendering what was found.
//! - [`wildcard`]: file names with wildcards.
//! - [`text`]: decoding, case folding, decimal numbers, joining lines.
//!
//! The library reads no file and prints nothing: it is handed the bytes of
//! the files and hands back text.

pub mod grep;
pub mod grep_config;
pub mod lines;
pub mod pattern;
pub mod text;
pub mod wildcard;
pub mod window;
