//! The core of an interactive shell: the vocabulary that completes what the
//! user types, the resolution of a command to what is to be run, the steps of
//! running it in a process of its own, and the care for the terminal.
//!
//! The library takes every decision and touches nothing. The program around
//! it asks the operating system and tells the library what it answered.

pub mod posix_wrappers;
pub mod prefix_tree;
pub mod shell;
pub mod strings;
pub mod termios;
