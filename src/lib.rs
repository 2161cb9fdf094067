//! An interpreter for a small line-oriented dialogue scripting language.
//!
//! A script is scanned into typed commands, the commands are checked against
//! the command-ordering grammar and assembled into a map of stages, and the
//! stages are then walked as a state machine driven by user input.

pub mod command;
pub mod assoc;
pub mod env;
pub mod error;
pub mod interpreter;
pub mod parser;
pub mod parser_laws;
pub mod scanner;
pub mod stage_map;
pub mod text;
