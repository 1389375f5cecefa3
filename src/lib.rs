//! Parsing of single-line commands for a small pen-plotter language:
//! pen up and down, pen selection, and moves along the four compass headings.
pub mod command;
pub mod direction;
pub mod laws;
pub mod number;
pub mod tokens;

pub use command::{Command, CommandParseError, parse_lines};
pub use direction::{Direction, DirectionParseError};
