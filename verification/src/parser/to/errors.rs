//! The errors of converting written operations.

use crate::parser::errors::IoErrorKind;
use vstd::prelude::*;

verus! {

/// The errors of converting written operations.
#[derive(Debug, PartialEq, Eq, Clone)]
pub enum ParseFromFileError {
    /// An output failure.
    IoError(IoErrorKind),
    /// Written bytes are not valid UTF-8; they are kept.
    FromUtf8Error(Vec<u8>),
    /// An operation could not be converted.
    ParseError(String),
}

} // verus!
