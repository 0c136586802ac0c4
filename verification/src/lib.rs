//! Selection of a Python interpreter: version requests, executable
//! discovery on `PATH`, and the precedence chain that picks one
//! interpreter (or fails with a typed reason).

pub mod cli;
mod error;
mod path;
mod text;
mod version;

pub use error::Error;
pub use path::all_executables;
pub use path::available_executables;
pub use path::choose_executable;
pub use path::filter_python_executables;
pub use path::find_executable;

pub use version::ExactVersion;
pub use version::Match;
pub use version::RequestedVersion;
