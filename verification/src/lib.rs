//! Bank records and a quote server.
//!
//! - `bank`, `bank_system`: accounts, balances and the operations on them,
//!   with the short and stored text forms of an operation.
//! - `parser`: reading and writing lists of operations in the text, csv and
//!   binary formats, and what the text reader gives back of what the text
//!   writer wrote.
//! - `quote`: the quote server's command language, the framing of its
//!   messages, its bookkeeping of subscriptions and streams, the decisions
//!   of its loops, its secret key and the order in which its state is
//!   locked.
//! - `text`: decimal numbers, trimming, searching, splitting and UTF-8
//!   facts shared by the formats.

pub mod text;
pub mod bank;
pub mod bank_system;
pub mod parser;
pub mod quote;
