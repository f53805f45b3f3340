//! A line-oriented command interpreter: named commands are kept in a
//! registry, each input line is trimmed and dispatched to the command of
//! that name, and the session ends when a command asks for it or the input
//! runs out.
//!
//! The library decides and describes; it performs no input or output
//! itself. Whatever a session would write or read is returned as a list of
//! [`effect::Effect`]s for the caller to carry out.

pub mod commands;
pub mod effect;
pub mod interface;
pub mod laws;
pub mod model;
pub mod shell;
pub mod text;
