//! The errors of reading and writing operation files.

use vstd::prelude::*;

verus! {

/// The kind of an input or output failure.
#[derive(Debug, PartialEq, Eq, Structural, Clone, Copy)]
pub enum IoErrorKind {
    /// The input ended inside a record.
    UnexpectedEof,
    /// The input is not valid UTF-8 text.
    InvalidData,
    /// Any other failure of the underlying reader or writer.
    Other,
}

/// The errors of parsing.
#[derive(Debug, PartialEq, Eq, Clone, Copy)]
pub enum ParseFileError {
    /// An input or output failure.
    IoError(IoErrorKind),
    /// A binary record is malformed.
    SerializeError(&'static str),
    /// A record could not be turned into bytes.
    DeSerializeError(&'static str),
    /// A text record is malformed, or an operation cannot be written.
    ParseError(&'static str),
    /// Writing failed.
    WriteError(IoErrorKind),
}

/// The magic of a binary record is not `YPBN`.
pub const MSG_MAGIC: &'static str = "магический символ";

/// A binary record is shorter than its fixed part.
pub const MSG_RECORD_MIN: &'static str = "длина записи (min 46)";

/// A binary record's length disagrees with its description's length.
pub const MSG_RECORD_LEN: &'static str = "длина записи (46 + desc_size)";

/// A binary record has an unknown operation type.
pub const MSG_BIN_TX_TYPE: &'static str = "Неверный тип операции";

/// A binary record has an unknown status.
pub const MSG_BIN_STATUS: &'static str = "Неверный статус операции";

/// A user name is not a numeric identifier.
pub const MSG_USER_ID: &'static str = "Пользователь должен иметь ID";

/// A text block does not have nine lines.
pub const MSG_ROW: &'static str = "Неверный формат строки";

/// A text block lacks a valid operation type.
pub const MSG_TX_TYPE: &'static str = "Неверный формат tx_type";

/// A text block lacks the receiving user.
pub const MSG_TO_USER_ID: &'static str = "Неверный формат to_user_id";

/// A text block lacks the sending user.
pub const MSG_FROM_USER_ID: &'static str = "Неверный формат from_user_id";

/// A text block lacks a valid timestamp.
pub const MSG_TIMESTAMP: &'static str = "Неверный формат timestamp";

/// A text block lacks the description.
pub const MSG_DESCRIPTION: &'static str = "Неверный формат description";

/// A text block lacks a valid operation id.
pub const MSG_TX_ID: &'static str = "Неверный формат tx_id";

/// A text block lacks a valid amount.
pub const MSG_AMOUNT: &'static str = "Неверный формат amount";

/// A text block lacks a valid status.
pub const MSG_STATUS: &'static str = "Неверный формат status";

} // verus!
