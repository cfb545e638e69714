//! Reading operations from the records of a csv file.

use crate::bank::operations::{BalanceOp, BalanceOpView, Operation, OperationView, Status};
use crate::parser::errors::{MSG_BIN_STATUS, MSG_BIN_TX_TYPE, MSG_ROW};
use crate::parser::from::errors::ParseFromFileError;
use crate::parser::{names_view, OperationName, OperationNameView};
use crate::text::{push_decimal, spec_decimal, string_eq_str};
use vstd::prelude::*;

verus! {

/// One record of a csv file, its columns read by their header names.
#[derive(Debug, Clone, PartialEq)]
pub struct CsvRecord {
    pub tx_id: u64,
    pub tx_type: String,
    pub from_user_id: u64,
    pub to_user_id: u64,
    pub amount: u64,
    pub timestamp: u64,
    pub status: String,
    pub description: String,
}

/// What reading one record gives; `None` stands for a record the csv
/// reader could not turn into a [`CsvRecord`]. A transfer is an incoming
/// transfer from the sender; the operation belongs to the sender unless the
/// sender is user `0`.
pub open spec fn spec_csv_record(r: Option<CsvRecord>) -> Result<OperationNameView, ParseFromFileError> {
    match r {
        None => Err(ParseFromFileError::ParseError(MSG_ROW)),
        Some(rec) => {
            let t = rec.tx_type@;
            if t != "DEPOSIT"@ && t != "TRANSFER"@ && t != "WITHDRAWAL"@ {
                Err(ParseFromFileError::ParseError(MSG_BIN_TX_TYPE))
            } else {
                let s = rec.status@;
                if s != "SUCCESS"@ && s != "FAILURE"@ && s != "PENDING"@ {
                    Err(ParseFromFileError::ParseError(MSG_BIN_STATUS))
                } else {
                    let tx_type = if t == "DEPOSIT"@ {
                        BalanceOpView::Deposit(rec.amount)
                    } else if t == "TRANSFER"@ {
                        BalanceOpView::Transfer(spec_decimal(rec.from_user_id as nat), rec.amount, true)
                    } else {
                        BalanceOpView::Withdraw(rec.amount)
                    };
                    let status = if s == "SUCCESS"@ {
                        Status::SUCCESS
                    } else if s == "FAILURE"@ {
                        Status::FAILURE
                    } else {
                        Status::PENDING
                    };
                    let name = if rec.from_user_id == 0 {
                        rec.to_user_id
                    } else {
                        rec.from_user_id
                    };
                    Ok(
                        (
                            OperationView {
                                id: rec.tx_id,
                                timestamp: rec.timestamp,
                                tx_type,
                                status,
                                description: rec.description@,
                            },
                            spec_decimal(name as nat),
                        ),
                    )
                }
            }
        },
    }
}

/// What reading all records gives: the first rejected record rejects them
/// all.
pub open spec fn spec_from_csv(rs: Seq<Option<CsvRecord>>) -> Result<Seq<OperationNameView>, ParseFromFileError>
    decreases rs.len(),
{
    if rs.len() == 0 {
        Ok(seq![])
    } else {
        match spec_csv_record(rs[0]) {
            Err(e) => Err(e),
            Ok(o) => match spec_from_csv(rs.drop_first()) {
                Ok(r) => Ok(seq![o] + r),
                Err(e) => Err(e),
            },
        }
    }
}

fn decimal_string(n: u64) -> (r: String)
    ensures
        r@ == spec_decimal(n as nat),
{
    let mut r = String::new();
    push_decimal(&mut r, n as u128);
    assert(r@ =~= spec_decimal(n as nat));
    r
}

fn parse_record(r: &Option<CsvRecord>) -> (res: Result<OperationName, ParseFromFileError>)
    ensures
        match res {
            Ok(o) => spec_csv_record(*r) == Ok::<OperationNameView, ParseFromFileError>(o@),
            Err(e) => spec_csv_record(*r) == Err::<OperationNameView, ParseFromFileError>(e),
        },
{
    let rec = match r {
        None => return Err(ParseFromFileError::ParseError(MSG_ROW)),
        Some(rec) => rec,
    };
    let tx_type = if string_eq_str(&rec.tx_type, "DEPOSIT") {
        BalanceOp::Deposit(rec.amount)
    } else if string_eq_str(&rec.tx_type, "TRANSFER") {
        BalanceOp::Transfer(decimal_string(rec.from_user_id), rec.amount, true)
    } else if string_eq_str(&rec.tx_type, "WITHDRAWAL") {
        BalanceOp::Withdraw(rec.amount)
    } else {
        return Err(ParseFromFileError::ParseError(MSG_BIN_TX_TYPE));
    };
    let status = if string_eq_str(&rec.status, "SUCCESS") {
        Status::SUCCESS
    } else if string_eq_str(&rec.status, "FAILURE") {
        Status::FAILURE
    } else if string_eq_str(&rec.status, "PENDING") {
        Status::PENDING
    } else {
        return Err(ParseFromFileError::ParseError(MSG_BIN_STATUS));
    };
    let operation = Operation::load(rec.tx_id, rec.timestamp, tx_type, status, Some(rec.description.clone()));
    let name = if rec.from_user_id == 0 {
        rec.to_user_id
    } else {
        rec.from_user_id
    };
    Ok(OperationName(operation, decimal_string(name)))
}

/// Reads operations from the records of a csv file (see
/// [`spec_from_csv`]).
pub fn parse_from_csv(records: &[Option<CsvRecord>]) -> (r: Result<Vec<OperationName>, ParseFromFileError>)
    ensures
        match r {
            Ok(v) => spec_from_csv(records@) == Ok::<Seq<OperationNameView>, ParseFromFileError>(names_view(v@)),
            Err(e) => spec_from_csv(records@) == Err::<Seq<OperationNameView>, ParseFromFileError>(e),
        },
{
    let mut ops: Vec<OperationName> = Vec::new();
    let mut i: usize = 0;
    assert(records@.subrange(0, records@.len() as int) =~= records@);
    while i < records.len()
        invariant
            i <= records.len(),
            spec_from_csv(records@) == match spec_from_csv(records@.subrange(i as int, records@.len() as int)) {
                Ok(r) => Ok::<Seq<OperationNameView>, ParseFromFileError>(names_view(ops@) + r),
                Err(e) => Err(e),
            },
        decreases records.len() - i,
    {
        let ghost suffix = records@.subrange(i as int, records@.len() as int);
        assert(suffix.drop_first() =~= records@.subrange(i + 1, records@.len() as int));
        match parse_record(&records[i]) {
            Ok(o) => {
                proof {
                    assert(names_view(ops@.push(o)) =~= names_view(ops@).push(o@));
                    match spec_from_csv(suffix.drop_first()) {
                        Ok(r) => {
                            assert(names_view(ops@) + (seq![o@] + r) =~= names_view(ops@).push(o@) + r);
                        },
                        Err(_) => {},
                    }
                }
                ops.push(o);
            },
            Err(e) => return Err(e),
        }
        i = i + 1;
    }
    assert(records@.subrange(i as int, records@.len() as int) =~= Seq::<Option<CsvRecord>>::empty());
    assert(names_view(ops@) + seq![] =~= names_view(ops@));
    Ok(ops)
}

} // verus!
