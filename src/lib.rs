//! A compiler and interpreter for branching narrative scripts.
//!
//! A script is a tree of [`section::Section`] nodes. Compiling it
//! ([`initializer::Initializer::new`]) registers its characters, turns its
//! images into text art and resolves each reference to another document into
//! the canonical path under which that document is compiled, once, into a
//! shared store. The files a compilation reads are listed by
//! [`section::Section::requests`] and handed over, already read, as
//! [`initializer::Sources`].
//!
//! Running a compiled script is a step machine ([`executable::Execution`]):
//! each step runs one node and yields at most one [`executable::Command`] for
//! the presentation to carry out, such as typing a line, showing a frame,
//! sleeping or reading a line of input, which is handed back with
//! [`executable::Execution::supply_line`].

pub mod text;
pub mod capture;
pub mod runtime;
pub mod common;
pub mod character_style;
pub mod condition;
pub mod path_reference;
pub mod file_format;
pub mod compiled;
pub mod character;
pub mod text_input;
pub mod show_input;
pub mod switcher;
pub mod section;
pub mod initializer;
pub mod executable;
