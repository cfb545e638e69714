//! Writing the text format: one block of nine lines per operation, the
//! blocks separated by blank lines.

use crate::bank::operations::{BalanceOp, BalanceOpView, Status};
use crate::parser::{names_view, OperationName, OperationNameView};
use crate::text::{push_chars_of_string, push_decimal, spec_decimal};
use vstd::string::StringExecFns;
use vstd::prelude::*;

verus! {

/// The word for an operation type in the text formats.
pub open spec fn type_word(op: BalanceOpView) -> Seq<char> {
    match op {
        BalanceOpView::Deposit(_) => "DEPOSIT"@,
        BalanceOpView::Withdraw(_) => "WITHDRAWAL"@,
        _ => "TRANSFER"@,
    }
}

/// The word for a status in the text formats.
pub open spec fn status_word(s: Status) -> Seq<char> {
    match s {
        Status::SUCCESS => "SUCCESS"@,
        Status::FAILURE => "FAILURE"@,
        Status::PENDING => "PENDING"@,
    }
}

/// Whether an operation is left out of the files: outgoing transfers and
/// closings are.
pub open spec fn is_skipped(op: BalanceOpView) -> bool {
    op is Close || (op matches BalanceOpView::Transfer(_, _, is_to) && !is_to)
}

/// The sending user as the files record it: `0` for a deposit, the user
/// for a withdrawal, the other account for an incoming transfer.
pub open spec fn from_field(o: OperationNameView) -> Seq<char> {
    match o.0.tx_type {
        BalanceOpView::Deposit(_) => "0"@,
        BalanceOpView::Transfer(f, _, _) => f,
        _ => o.1,
    }
}

/// The receiving user as the files record it: `0` for a withdrawal, the
/// user otherwise.
pub open spec fn to_field(o: OperationNameView) -> Seq<char> {
    match o.0.tx_type {
        BalanceOpView::Withdraw(_) => "0"@,
        _ => o.1,
    }
}

/// The amount of an operation that the files record.
pub open spec fn amount_field(op: BalanceOpView) -> u64 {
    match op {
        BalanceOpView::Deposit(a) => a,
        BalanceOpView::Withdraw(a) => a,
        BalanceOpView::Transfer(_, a, _) => a,
        BalanceOpView::Close => 0,
    }
}

/// The text block of the operation numbered `index`, followed by a blank
/// line.
pub open spec fn spec_txt_record(index: nat, o: OperationNameView) -> Seq<char> {
    txt_head(index, o) + txt_users(o) + txt_tail(o)
}

/// The header line and the id and type lines of a text block.
pub open spec fn txt_head(index: nat, o: OperationNameView) -> Seq<char> {
    let t = type_word(o.0.tx_type);
    "# Record "@ + spec_decimal(index) + " ("@ + t + ")\nTX_ID: "@ + spec_decimal(o.0.id as nat)
        + "\nTX_TYPE: "@ + t
}

/// The user lines of a text block.
pub open spec fn txt_users(o: OperationNameView) -> Seq<char> {
    "\nFROM_USER_ID: "@ + from_field(o) + "\nTO_USER_ID: "@ + to_field(o)
}

/// The amount, timestamp, status and description lines of a text block,
/// and the blank line after it.
pub open spec fn txt_tail(o: OperationNameView) -> Seq<char> {
    "\nAMOUNT: "@ + spec_decimal(amount_field(o.0.tx_type) as nat) + "\nTIMESTAMP: "@
        + spec_decimal(o.0.timestamp as nat) + "\nSTATUS: "@ + status_word(o.0.status)
        + "\nDESCRIPTION: "@ + o.0.description + "\n\n"@
}

/// The text written for `ops`, whose first operation is numbered `first`.
/// Operations are numbered by their place in the list, the left-out ones
/// included.
pub open spec fn spec_to_txt(ops: Seq<OperationNameView>, first: nat) -> Seq<char>
    decreases ops.len(),
{
    if ops.len() == 0 {
        seq![]
    } else if is_skipped(ops[0].0.tx_type) {
        spec_to_txt(ops.drop_first(), first + 1)
    } else {
        spec_txt_record(first, ops[0]) + spec_to_txt(ops.drop_first(), first + 1)
    }
}

pub(crate) fn push_type_word(out: &mut String, op: &BalanceOp)
    ensures
        final(out)@ == old(out)@ + type_word(op@),
{
    match op {
        BalanceOp::Deposit(_) => out.append("DEPOSIT"),
        BalanceOp::Withdraw(_) => out.append("WITHDRAWAL"),
        _ => out.append("TRANSFER"),
    }
}

pub(crate) fn push_status_word(out: &mut String, s: Status)
    ensures
        final(out)@ == old(out)@ + status_word(s),
{
    match s {
        Status::SUCCESS => out.append("SUCCESS"),
        Status::FAILURE => out.append("FAILURE"),
        Status::PENDING => out.append("PENDING"),
    }
}

/// Appends the sending user as the files record it.
pub(crate) fn push_from_field(out: &mut String, o: &OperationName)
    requires
        !is_skipped(o@.0.tx_type),
    ensures
        final(out)@ == old(out)@ + from_field(o@),
{
    match &o.0.tx_type {
        BalanceOp::Deposit(_) => out.append("0"),
        BalanceOp::Transfer(f, _, _) => push_chars_of_string(out, f),
        _ => push_chars_of_string(out, &o.1),
    }
}

/// Appends the receiving user as the files record it.
pub(crate) fn push_to_field(out: &mut String, o: &OperationName)
    ensures
        final(out)@ == old(out)@ + to_field(o@),
{
    match &o.0.tx_type {
        BalanceOp::Withdraw(_) => out.append("0"),
        _ => push_chars_of_string(out, &o.1),
    }
}

/// The amount of an operation that the files record.
pub(crate) fn amount_of(op: &BalanceOp) -> (r: u64)
    ensures
        r == amount_field(op@),
{
    match op {
        BalanceOp::Deposit(a) => *a,
        BalanceOp::Withdraw(a) => *a,
        BalanceOp::Transfer(_, a, _) => *a,
        BalanceOp::Close => 0,
    }
}

/// Whether an operation is left out of the files.
pub(crate) fn skipped(op: &BalanceOp) -> (r: bool)
    ensures
        r == is_skipped(op@),
{
    match op {
        BalanceOp::Transfer(_, _, is_to) => !*is_to,
        BalanceOp::Close => true,
        _ => false,
    }
}

fn push_txt_head(out: &mut String, index: usize, o: &OperationName)
    ensures
        final(out)@ == old(out)@ + txt_head(index as nat, o@),
{
    let op = &o.0;
    out.append("# Record ");
    push_decimal(out, index as u128);
    out.append(" (");
    push_type_word(out, &op.tx_type);
    out.append(")\nTX_ID: ");
    push_decimal(out, op.id as u128);
    out.append("\nTX_TYPE: ");
    push_type_word(out, &op.tx_type);
    assert(final(out)@ =~= old(out)@ + txt_head(index as nat, o@));
}

fn push_txt_users(out: &mut String, o: &OperationName)
    requires
        !is_skipped(o@.0.tx_type),
    ensures
        final(out)@ == old(out)@ + txt_users(o@),
{
    out.append("\nFROM_USER_ID: ");
    push_from_field(out, o);
    out.append("\nTO_USER_ID: ");
    push_to_field(out, o);
    assert(final(out)@ =~= old(out)@ + txt_users(o@));
}

fn push_txt_tail(out: &mut String, o: &OperationName)
    ensures
        final(out)@ == old(out)@ + txt_tail(o@),
{
    let op = &o.0;
    out.append("\nAMOUNT: ");
    push_decimal(out, amount_of(&op.tx_type) as u128);
    out.append("\nTIMESTAMP: ");
    push_decimal(out, op.timestamp as u128);
    out.append("\nSTATUS: ");
    push_status_word(out, op.status);
    out.append("\nDESCRIPTION: ");
    push_chars_of_string(out, &op.description);
    out.append("\n\n");
    assert(final(out)@ =~= old(out)@ + txt_tail(o@));
}

fn push_txt_record(out: &mut String, index: usize, o: &OperationName)
    requires
        !is_skipped(o@.0.tx_type),
    ensures
        final(out)@ == old(out)@ + spec_txt_record(index as nat, o@),
{
    push_txt_head(out, index, o);
    push_txt_users(out, o);
    push_txt_tail(out, o);
    assert(final(out)@ =~= old(out)@ + spec_txt_record(index as nat, o@));
}

/// Writes the operations in the text format (see [`spec_to_txt`]).
pub fn parse_to_txt(operations: &[OperationName]) -> (r: String)
    ensures
        r@ == spec_to_txt(names_view(operations@), 1),
{
    let mut out = String::new();
    let mut i: usize = 0;
    let ghost all = names_view(operations@);
    assert(all.subrange(0, all.len() as int) =~= all);
    assert(out@ + spec_to_txt(all, 1) =~= spec_to_txt(all, 1));
    while i < operations.len()
        invariant
            i <= operations.len(),
            all == names_view(operations@),
            spec_to_txt(all, 1) == out@ + spec_to_txt(all.subrange(i as int, all.len() as int), (i + 1) as nat),
        decreases operations.len() - i,
    {
        let ghost suffix = all.subrange(i as int, all.len() as int);
        assert(suffix.drop_first() =~= all.subrange(i + 1, all.len() as int));
        assert(suffix[0] == operations@[i as int]@);
        let ghost before = out@;
        if !skipped(&operations[i].0.tx_type) {
            push_txt_record(&mut out, i + 1, &operations[i]);
            assert(before + (spec_txt_record((i + 1) as nat, suffix[0]) + spec_to_txt(suffix.drop_first(), (i + 2) as nat)) =~= out@ + spec_to_txt(suffix.drop_first(), (i + 2) as nat));
        }
        i = i + 1;
    }
    assert(all.subrange(i as int, all.len() as int) =~= Seq::<OperationNameView>::empty());
    assert(out@ + seq![] =~= out@);
    out
}

} // verus!

