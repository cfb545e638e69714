//! Reading operations from files.

pub mod bin;
pub mod csv;
pub mod errors;
pub mod txt;

pub use errors::ParseFromFileError;

use crate::parser::errors::ParseFileError;
use crate::parser::{names_view, FileType, OperationName, OperationNameView};
use bin::{parse_from_bin, spec_bin_walk, BinOutcome};
use csv::{parse_from_csv, spec_from_csv, CsvRecord};
use txt::{parse_from_txt, spec_from_txt};
use vstd::prelude::*;

verus! {

/// What a file holds: its bytes, or, for a csv file, the records that the
/// csv reader made of them (`None` for a record it rejected).
pub enum FileContents {
    Bytes(Vec<u8>),
    Records(Vec<Option<CsvRecord>>),
}

/// Whether the contents have the form that the file type reads: records for
/// csv, bytes otherwise.
pub open spec fn contents_fit(contents: &FileContents, file_type: FileType) -> bool {
    (file_type == FileType::CSV) == (contents is Records)
}

/// The error of reading records, as an error of reading a file.
pub open spec fn file_error(e: ParseFromFileError) -> ParseFileError {
    match e {
        ParseFromFileError::IoError(k) => ParseFileError::IoError(k),
        ParseFromFileError::ParseError(m) => ParseFileError::ParseError(m),
    }
}

/// Whether reading the contents as a binary file panics (see
/// [`spec_bin_walk`]).
pub open spec fn bin_panics(contents: &FileContents, file_type: FileType) -> bool {
    match contents {
        FileContents::Bytes(b) => file_type == FileType::BIN && spec_bin_walk(b@) is Panics,
        FileContents::Records(_) => false,
    }
}

/// What reading the file contents gives for the file type (for contents on
/// which the binary reader panics, which [`FromFile::operations`] does not
/// take, it says an input failure).
pub open spec fn spec_from_file(contents: &FileContents, file_type: FileType) -> Result<Seq<OperationNameView>, ParseFileError> {
    match contents {
        FileContents::Records(rs) => match spec_from_csv(rs@) {
            Ok(v) => Ok(v),
            Err(e) => Err(file_error(e)),
        },
        FileContents::Bytes(b) => if file_type == FileType::BIN {
            match spec_bin_walk(b@) {
                BinOutcome::Parsed(v) => Ok(v),
                BinOutcome::Failed(e) => Err(e),
                BinOutcome::Panics => Err(ParseFileError::IoError(crate::parser::errors::IoErrorKind::Other)),
            }
        } else {
            spec_from_txt(b@)
        },
    }
}

/// Reads operations from files.
pub struct FromFile;

impl FromFile {
    /// Reads the operations of a file of the given type (see
    /// [`spec_from_file`]): it gives what the reader of that type gives,
    /// [`parse_from_bin`] for a binary file, [`parse_from_txt`] for a text
    /// file and [`parse_from_csv`] for a csv file, whose errors become errors
    /// of reading a file.
    pub fn operations(contents: &FileContents, file_type: FileType) -> (r: Result<Vec<OperationName>, ParseFileError>)
        requires
            contents_fit(contents, file_type),
            !bin_panics(contents, file_type),
        ensures
            match r {
                Ok(v) => spec_from_file(contents, file_type) == Ok::<Seq<OperationNameView>, ParseFileError>(names_view(v@)),
                Err(e) => spec_from_file(contents, file_type) == Err::<Seq<OperationNameView>, ParseFileError>(e),
            },
            match contents {
                FileContents::Bytes(b) => if file_type == FileType::BIN {
                    match r {
                        Ok(v) => spec_bin_walk(b@) == BinOutcome::Parsed(names_view(v@)),
                        Err(e) => spec_bin_walk(b@) == BinOutcome::Failed(e),
                    }
                } else {
                    match r {
                        Ok(v) => spec_from_txt(b@) == Ok::<Seq<OperationNameView>, ParseFileError>(names_view(v@)),
                        Err(e) => spec_from_txt(b@) == Err::<Seq<OperationNameView>, ParseFileError>(e),
                    }
                },
                FileContents::Records(rs) => match r {
                    Ok(v) => spec_from_csv(rs@) == Ok::<Seq<OperationNameView>, ParseFromFileError>(names_view(v@)),
                    Err(e) => match spec_from_csv(rs@) {
                        Ok(_) => false,
                        Err(fe) => file_error(fe) == e,
                    },
                },
            },
    {
        match contents {
            FileContents::Records(rs) => match parse_from_csv(rs.as_slice()) {
                Ok(v) => Ok(v),
                Err(ParseFromFileError::IoError(k)) => Err(ParseFileError::IoError(k)),
                Err(ParseFromFileError::ParseError(m)) => Err(ParseFileError::ParseError(m)),
            },
            FileContents::Bytes(b) => {
                if file_type == FileType::BIN {
                    parse_from_bin(b.as_slice())
                } else {
                    parse_from_txt(b.as_slice())
                }
            },
        }
    }
}

} // verus!
