//! Plain data for the command-line surface: output formats and log levels.

use vstd::prelude::*;

verus! {

/// How a command renders its result.
#[derive(Clone, Copy, PartialEq, Eq, Structural, Debug)]
pub enum OutputType {
    Text,
    Json,
    Yaml,
}

/// Verbosity of the diagnostic output.
#[derive(Clone, Copy, PartialEq, Eq, Structural, Debug)]
pub enum LogLevel {
    Error,
    Warn,
    Info,
    Debug,
    Trace,
}

} // verus!
