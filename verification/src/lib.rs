//! Decisions behind a small desktop utility: a greeting, and the steps that
//! free a TCP port from whatever process listens on it.
//!
//! The library starts no program and opens no socket. It reads the text
//! that the system's tools print, decides what is to be done next, and
//! words what went wrong. Its modules, from the ground up:
//!
//! - [`text`]: characters, comparison, numerals;
//! - [`table`]: rows and fields of tabular output;
//! - [`discovery`]: the process identifiers that such output names;
//! - [`tool`]: the tools, as commands to run and outcomes of runs;
//! - [`failure`]: the wording of failures;
//! - [`procedure`]: the procedure itself, step by step;
//! - [`greeting`]: the greeting.

pub mod discovery;
pub mod failure;
pub mod greeting;
pub mod procedure;
pub mod table;
pub mod text;
pub mod tool;
