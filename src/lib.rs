//! A small threaded-code Forth virtual machine.
//!
//! The machine keeps all of its program state in one cell arena (dictionary,
//! data stack and return stack) and a separate byte arena for counted strings.
//! Words are compiled into threaded code and run by an explicit inner
//! interpreter that can be suspended whenever the host has to do input or
//! output on the machine's behalf.

pub mod builtin;
pub mod kernel;
pub mod messages;
pub mod runtime;
pub mod dictionary;
pub mod parser;
pub mod compiler;
pub mod inner;
pub mod general;
pub mod console;
pub mod debug;
pub mod repl;
pub mod laws;
pub mod config;
pub mod tui;
