//! The decisions of a tool that builds and runs the targets of a project: which builds to start,
//! when to start them again, what a build does step by step, and what is shown of all that.
//! Reading files, watching them, running commands and writing to the terminal is left to the
//! program around this library.

pub mod build_laws;
pub mod build_loop;
pub mod builder;
pub mod choice_laws;
pub mod color;
pub mod command;
pub mod config;
pub mod digest;
pub mod error;
pub mod laws;
pub mod loop_laws;
pub mod names;
pub mod run_laws;
pub mod schedule;
pub mod target;
pub mod target_build;
pub mod text;
pub mod text_laws;
pub mod turn_laws;
pub mod writer;
