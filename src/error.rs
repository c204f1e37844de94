use vstd::prelude::*;

use crate::params::PathError;

verus! {

/// Why loading or saving a section failed.
#[derive(Debug, PartialEq, Eq)]
pub enum ManagerError {
    /// Reading or writing the file failed.
    Io(String),
    /// The fields that name the file's location cannot be used.
    Path(PathError),
    /// Encoding or decoding the contents failed.
    Serialization(String),
    /// No encoding is known for the file's extension.
    UnsupportedFormat(String),
}

} // verus!
