//! Writing operations to files.

pub mod bin;
pub mod csv;
pub mod txt;
pub mod errors;

pub use errors::ParseFromFileError;

use crate::parser::errors::ParseFileError;
use crate::parser::{names_view, FileType, OperationName, OperationNameView};
use bin::{parse_to_bin, spec_to_bin};
use crate::bank::operations::{BalanceOpView, OperationView, Status};
use crate::parser::from::csv::{spec_csv_record, CsvRecord};
use crate::text::spec_decimal;
use csv::{csv_header, parse_to_csv, spec_to_csv};
use txt::{is_skipped, parse_to_txt, spec_to_txt};
use vstd::prelude::*;
use vstd::string::StrSliceExecFns;
use vstd::utf8::encode_utf8;

verus! {

/// The word a status is written as.
pub open spec fn written_status(s: Status) -> Seq<char> {
    if s == Status::SUCCESS {
        "SUCCESS"@
    } else if s == Status::FAILURE {
        "FAILURE"@
    } else {
        "PENDING"@
    }
}

/// How an operation is written in both text formats, field by field. Its
/// type is written `DEPOSIT`, `WITHDRAWAL` or `TRANSFER`, and its status
/// `SUCCESS`, `FAILURE` or `PENDING` (three different words). The sending
/// user is 0 for a deposit, the operation's own user for a withdrawal and
/// the other account for an incoming transfer; the receiving user is 0 for a
/// withdrawal and the operation's own user for a deposit or an incoming
/// transfer. The text format writes a numbered block of labelled lines and
/// a blank line; the csv format writes the header and one line of
/// comma-separated fields.
pub proof fn lemma_written_fields(o: OperationNameView, n: nat)
    requires
        !is_skipped(o.0.tx_type),
    ensures
        ({
            let op = o.0;
            let (tw, from, to, amount): (Seq<char>, Seq<char>, Seq<char>, u64) = match op.tx_type {
                BalanceOpView::Deposit(a) => ("DEPOSIT"@, "0"@, o.1, a),
                BalanceOpView::Withdraw(a) => ("WITHDRAWAL"@, o.1, "0"@, a),
                BalanceOpView::Transfer(f, a, _) => ("TRANSFER"@, f, o.1, a),
                BalanceOpView::Close => (seq![], seq![], seq![], 0),
            };
            let sw = written_status(op.status);
            &&& spec_to_txt(seq![o], n) == ("# Record "@ + spec_decimal(n) + " ("@ + tw + ")\nTX_ID: "@
                + spec_decimal(op.id as nat) + "\nTX_TYPE: "@ + tw) + ("\nFROM_USER_ID: "@ + from
                + "\nTO_USER_ID: "@ + to) + ("\nAMOUNT: "@ + spec_decimal(amount as nat)
                + "\nTIMESTAMP: "@ + spec_decimal(op.timestamp as nat) + "\nSTATUS: "@ + sw
                + "\nDESCRIPTION: "@ + op.description + "\n\n"@)
            &&& spec_to_csv(seq![o]) == csv_header() + ((spec_decimal(op.id as nat) + ","@ + tw + ","@
                + from + ","@ + to) + (","@ + spec_decimal(amount as nat) + ","@ + spec_decimal(
                op.timestamp as nat,
            ) + ","@ + sw + ","@ + op.description + "\n"@))
        }),
{
    let ops = seq![o];
    assert(ops[0] == o);
    assert(ops.drop_first() =~= Seq::<OperationNameView>::empty());
    let op = o.0;
    assert(txt::status_word(op.status) == written_status(op.status));
    let rec = txt::spec_txt_record(n, o);
    assert(spec_to_txt(ops, n) == rec + spec_to_txt(ops.drop_first(), n + 1));
    assert(rec + Seq::<char>::empty() =~= rec);
    let row = csv::spec_csv_row(o);
    assert(csv::spec_csv_rows(ops) == row + csv::spec_csv_rows(ops.drop_first()));
    assert(row + Seq::<char>::empty() =~= row);
}

/// The csv line of a record's columns, in the header's order.
pub open spec fn record_line(r: CsvRecord) -> Seq<char> {
    (spec_decimal(r.tx_id as nat) + ","@ + r.tx_type@ + ","@ + spec_decimal(r.from_user_id as nat) + ","@
        + spec_decimal(r.to_user_id as nat)) + (","@ + spec_decimal(r.amount as nat) + ","@
        + spec_decimal(r.timestamp as nat) + ","@ + r.status@ + ","@ + r.description@ + "\n"@)
}

/// The status a csv record's status word reads as.
proof fn lemma_status_read(r: CsvRecord)
    requires
        r.status@ == "SUCCESS"@ || r.status@ == "FAILURE"@ || r.status@ == "PENDING"@,
    ensures
        spec_csv_record(Some(r)) is Ok ==> written_status((spec_csv_record(Some(r))->Ok_0).0.status)
            == r.status@,
{
    reveal_strlit("SUCCESS");
    reveal_strlit("FAILURE");
    reveal_strlit("PENDING");
}

/// The type a csv record's type word reads as.
proof fn lemma_type_read(r: CsvRecord)
    requires
        r.status@ == "SUCCESS"@ || r.status@ == "FAILURE"@ || r.status@ == "PENDING"@,
        r.tx_type@ == "DEPOSIT"@ || r.tx_type@ == "WITHDRAWAL"@ || r.tx_type@ == "TRANSFER"@,
    ensures
        spec_csv_record(Some(r)) is Ok,
        r.tx_type@ == "DEPOSIT"@ ==> (spec_csv_record(Some(r))->Ok_0).0.tx_type == BalanceOpView::Deposit(r.amount),
        r.tx_type@ == "WITHDRAWAL"@ ==> (spec_csv_record(Some(r))->Ok_0).0.tx_type == BalanceOpView::Withdraw(r.amount),
        r.tx_type@ == "TRANSFER"@ ==> (spec_csv_record(Some(r))->Ok_0).0.tx_type == BalanceOpView::Transfer(
            spec_decimal(r.from_user_id as nat),
            r.amount,
            true,
        ),
{
    reveal_strlit("DEPOSIT");
    reveal_strlit("WITHDRAWAL");
    reveal_strlit("TRANSFER");
    assert("WITHDRAWAL"@[0] != "DEPOSIT"@[0]);
    assert("TRANSFER"@[0] != "DEPOSIT"@[0]);
    assert("TRANSFER"@[0] != "WITHDRAWAL"@[0]);
}

/// A csv record of a known type and status is read as an operation with the
/// record's id, timestamp and description and a type that carries the
/// record's amount, belonging to the record's sending user, or to its
/// receiving user when the sender is user 0.
pub proof fn lemma_csv_record_owner(r: CsvRecord)
    requires
        r.status@ == "SUCCESS"@ || r.status@ == "FAILURE"@ || r.status@ == "PENDING"@,
        r.tx_type@ == "DEPOSIT"@ || r.tx_type@ == "WITHDRAWAL"@ || r.tx_type@ == "TRANSFER"@,
    ensures
        spec_csv_record(Some(r)) is Ok,
        ({
            let o = spec_csv_record(Some(r))->Ok_0;
            &&& o.0.id == r.tx_id
            &&& o.0.timestamp == r.timestamp
            &&& o.0.description == r.description@
            &&& txt::amount_field(o.0.tx_type) == r.amount
            &&& o.1 == spec_decimal(
                (if r.from_user_id != 0 {
                    r.from_user_id
                } else {
                    r.to_user_id
                }) as nat,
            )
        }),
{
    lemma_type_read(r);
}

/// Reading a csv record and writing the operation read gives the record's
/// own line back, for a record of a known type and status whose users are
/// where the writer puts them: a deposit from user 0, a withdrawal to user
/// 0, and a transfer to its own sender (the reader gives a transfer to its
/// sending user).
pub proof fn lemma_csv_read_then_write(r: CsvRecord)
    requires
        r.status@ == "SUCCESS"@ || r.status@ == "FAILURE"@ || r.status@ == "PENDING"@,
        (r.tx_type@ == "DEPOSIT"@ && r.from_user_id == 0) || (r.tx_type@ == "WITHDRAWAL"@
            && r.to_user_id == 0) || (r.tx_type@ == "TRANSFER"@ && r.to_user_id == r.from_user_id),
    ensures
        spec_csv_record(Some(r)) is Ok,
        spec_to_csv(seq![spec_csv_record(Some(r))->Ok_0]) == csv_header() + record_line(r),
{
    lemma_type_read(r);
    lemma_status_read(r);
    let o = spec_csv_record(Some(r))->Ok_0;
    assert(spec_decimal(0) =~= "0"@) by {
        reveal_strlit("0");
    }
    assert(o.0.id == r.tx_id && o.0.timestamp == r.timestamp && o.0.description == r.description@);
    lemma_written_fields(o, 1);
    if r.tx_type@ == "DEPOSIT"@ {
        assert(o.1 == spec_decimal(r.to_user_id as nat));
    } else if r.tx_type@ == "WITHDRAWAL"@ {
        assert(o.1 == spec_decimal(r.from_user_id as nat));
    } else {
        assert(o.1 == spec_decimal(r.from_user_id as nat));
    }
}

/// The bytes written for `ops` in the file type, and whether writing
/// succeeded.
pub open spec fn spec_to_file(ops: Seq<OperationNameView>, file_type: FileType) -> (Seq<u8>, Result<(), ParseFileError>) {
    match file_type {
        FileType::BIN => spec_to_bin(ops),
        FileType::CSV => (encode_utf8(spec_to_csv(ops)), Ok(())),
        FileType::TXT => (encode_utf8(spec_to_txt(ops, 1)), Ok(())),
    }
}

/// Writes operations to files.
pub struct ToFile;

impl ToFile {
    /// The bytes of the operations in the file type, and whether writing
    /// them succeeded (see [`spec_to_file`]).
    pub fn operations(operations: &[OperationName], file_type: FileType) -> (r: (Vec<u8>, Result<(), ParseFileError>))
        ensures
            (r.0@, r.1) == spec_to_file(names_view(operations@), file_type),
    {
        match file_type {
            FileType::BIN => parse_to_bin(operations),
            FileType::CSV => (parse_to_csv(operations).as_str().as_bytes_vec(), Ok(())),
            FileType::TXT => (parse_to_txt(operations).as_str().as_bytes_vec(), Ok(())),
        }
    }
}

} // verus!
