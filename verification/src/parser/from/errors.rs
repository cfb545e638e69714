//! The errors of reading csv records.

use crate::parser::errors::IoErrorKind;
use vstd::prelude::*;

verus! {

/// The errors of reading csv records.
#[derive(Debug, PartialEq, Eq, Clone, Copy)]
pub enum ParseFromFileError {
    /// An input failure.
    IoError(IoErrorKind),
    /// A record is malformed.
    ParseError(&'static str),
}

} // verus!
