//! bgrun core: command-line parsing, unit naming, unit files, and the
//! decisions of every command.
//!
//! No process is spawned and no file is touched here. A session says what is to be
//! done outside, one action at a time, and is told what came of it.

pub mod cli;
pub mod commands;
pub mod error;
pub mod exit;
pub mod help;
pub mod jobs;
pub mod name;
pub mod path;
pub mod request;
pub mod session;
pub mod text;
pub mod trace;
pub mod unit;

pub use cli::{parse, parse_invocation, Action, Invocation, RunSpec};
pub use error::ParseError;
pub use exit::{ExitCodes, Output, EXIT_FAILURE, EXIT_USAGE};
pub use help::help;
pub use name::{JobName, Prefix};
pub use request::{CommandLine, Emit, Reply, Request};
pub use session::{accepts, advance, begin, user_unit_dir, Environment, Next, Session, Turn};
pub use unit::unit_file;
