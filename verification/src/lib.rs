//! Verified core of a small collection of systems exercises: the command
//! language and breakpoint bookkeeping of a `ptrace` debugger, the rules of a
//! hangman game, and the ordering logic of a parallel map.

pub mod number;
pub mod text;
pub mod command;
pub mod inferior;
pub mod session;
pub mod hangman;
pub mod parallel;
