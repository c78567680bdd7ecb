//! A small Logo-style turtle-graphics interpreter.
//!
//! Scripts are parsed line by line into a command tree (`parse_commands`) and
//! then executed against a mutable turtle environment (`execute_commands`),
//! issuing draw requests to an `unsvg` canvas while the pen is down.

pub mod ast;
pub mod errors;
pub mod num;
pub mod text;
pub mod turtle;
pub mod value;
pub mod eval;
pub mod parser;
pub mod canvas;
pub mod exec;
