//! Front end for a small language that describes command-line test cases.
//!
//! A test-definition file holds one or more cases, each with a command and
//! the exit code and output that the command is expected to give. This crate
//! turns the text of such a file into a [`CliTest`], and decides which files
//! a run covers. It reads no files and runs no commands itself.

pub mod cli;
pub mod dedent;
pub mod keyword;
pub mod parse;
pub mod scan;
pub mod seen;
pub mod text;

pub use cli::{cli_test, Args};
pub use parse::{CliTest, TestCase};
pub use scan::find_cli_tests;
