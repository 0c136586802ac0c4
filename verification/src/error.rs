//! The error taxonomy of the crate: parse failures, file-name failures,
//! and the terminal "no executable found" failure of the resolution
//! pipeline.

use vstd::prelude::*;

use crate::version::RequestedVersion;

verus! {

/// Error enum for the entire crate.
#[derive(Clone, Debug, PartialEq)]
pub enum Error {
    /// A version string has an expected digit component that cannot be
    /// parsed as a sixteen-bit integer; carries the offending substring.
    ParseVersionComponentError(String),
    /// A string that must name a `major.minor` version is missing a `.`.
    DotMissing,
    /// A path lacks a file name.
    FileNameMissing,
    /// A file name cannot be converted to text.
    FileNameToStrError,
    /// A file name is not of the format `pythonX.Y`.
    PathFileNameError,
    /// No Python executable could be found for the requested version.
    NoExecutableFound(RequestedVersion),
    /// Multiple CLI flags were given when the first flag is expected to be
    /// specified on its own; carries the launcher path and the flag.
    IllegalArgument(String, String),
}

} // verus!
