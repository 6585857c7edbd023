//! An interactive command interpreter's core: a verified parser that turns a
//! line of text into a pipeline of commands with quoted or unquoted
//! arguments, and a verified planner for wiring the spawned processes of a
//! pipeline together through pipes.

pub mod ast;
pub mod parser;
pub mod executor;
