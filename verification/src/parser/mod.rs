//! Reading and writing lists of bank operations in the txt, csv and bin
//! formats.

pub mod bytes;
pub mod errors;
pub mod from;
pub mod read_back;
pub mod to;

use crate::bank::operations::{Operation, OperationView};
use crate::bank::Name;
use vstd::prelude::*;

verus! {

/// The format of a file.
#[derive(Debug, PartialEq, Eq, Structural, Clone, Copy)]
pub enum FileType {
    /// Comma-separated values.
    CSV,
    /// Text records.
    TXT,
    /// Binary records.
    BIN,
}

/// An operation together with the user it belongs to.
#[derive(Debug, PartialEq, Clone)]
pub struct OperationName(pub Operation, pub Name);

/// The mathematical value of an [`OperationName`].
pub type OperationNameView = (OperationView, Seq<char>);

impl View for OperationName {
    type V = OperationNameView;

    open spec fn view(&self) -> OperationNameView {
        (self.0@, self.1@)
    }
}

/// The views of a list of operations with their users.
pub open spec fn names_view(v: Seq<OperationName>) -> Seq<OperationNameView> {
    v.map_values(|o: OperationName| o@)
}

} // verus!
