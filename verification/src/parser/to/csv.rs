//! Writing the csv format: a header line, then one line per operation.

use crate::parser::to::txt::{
    amount_field, amount_of, from_field, is_skipped, push_from_field, push_status_word,
    push_to_field, push_type_word, skipped, status_word, to_field, type_word,
};
use crate::parser::{names_view, OperationName, OperationNameView};
use crate::text::{push_chars_of_string, push_decimal, spec_decimal};
use vstd::prelude::*;
use vstd::string::StringExecFns;

verus! {

/// The header line of the csv format.
pub open spec fn csv_header() -> Seq<char> {
    "TX_ID,TX_TYPE,FROM_USER_ID,TO_USER_ID,AMOUNT,TIMESTAMP,STATUS,DESCRIPTION\n"@
}

/// The line of an operation: its fields joined by commas, as written
/// (nothing is quoted).
pub open spec fn spec_csv_row(o: OperationNameView) -> Seq<char> {
    csv_row_head(o) + csv_row_tail(o)
}

/// The id, type and user fields of a line.
pub open spec fn csv_row_head(o: OperationNameView) -> Seq<char> {
    spec_decimal(o.0.id as nat) + ","@ + type_word(o.0.tx_type) + ","@ + from_field(o) + ","@
        + to_field(o)
}

/// The amount, timestamp, status and description fields of a line.
pub open spec fn csv_row_tail(o: OperationNameView) -> Seq<char> {
    ","@ + spec_decimal(amount_field(o.0.tx_type) as nat) + ","@ + spec_decimal(
        o.0.timestamp as nat,
    ) + ","@ + status_word(o.0.status) + ","@ + o.0.description + "\n"@
}

/// The lines of the operations that are written.
pub open spec fn spec_csv_rows(ops: Seq<OperationNameView>) -> Seq<char>
    decreases ops.len(),
{
    if ops.len() == 0 {
        seq![]
    } else if is_skipped(ops[0].0.tx_type) {
        spec_csv_rows(ops.drop_first())
    } else {
        spec_csv_row(ops[0]) + spec_csv_rows(ops.drop_first())
    }
}

/// The text written for `ops` in the csv format.
pub open spec fn spec_to_csv(ops: Seq<OperationNameView>) -> Seq<char> {
    csv_header() + spec_csv_rows(ops)
}

fn push_csv_row(out: &mut String, o: &OperationName)
    requires
        !is_skipped(o@.0.tx_type),
    ensures
        final(out)@ == old(out)@ + spec_csv_row(o@),
{
    let op = &o.0;
    push_decimal(out, op.id as u128);
    out.append(",");
    push_type_word(out, &op.tx_type);
    out.append(",");
    push_from_field(out, o);
    out.append(",");
    push_to_field(out, o);
    let ghost mid = out@;
    assert(mid =~= old(out)@ + csv_row_head(o@));
    out.append(",");
    push_decimal(out, amount_of(&op.tx_type) as u128);
    out.append(",");
    push_decimal(out, op.timestamp as u128);
    out.append(",");
    push_status_word(out, op.status);
    out.append(",");
    push_chars_of_string(out, &op.description);
    out.append("\n");
    assert(final(out)@ =~= mid + csv_row_tail(o@));
    assert(final(out)@ =~= old(out)@ + spec_csv_row(o@));
}

/// Writes the operations in the csv format (see [`spec_to_csv`]).
pub fn parse_to_csv(operations: &[OperationName]) -> (r: String)
    ensures
        r@ == spec_to_csv(names_view(operations@)),
{
    let mut out = String::new();
    out.append("TX_ID,TX_TYPE,FROM_USER_ID,TO_USER_ID,AMOUNT,TIMESTAMP,STATUS,DESCRIPTION\n");
    let mut i: usize = 0;
    let ghost all = names_view(operations@);
    assert(all.subrange(0, all.len() as int) =~= all);
    while i < operations.len()
        invariant
            i <= operations.len(),
            all == names_view(operations@),
            spec_to_csv(all) == out@ + spec_csv_rows(all.subrange(i as int, all.len() as int)),
        decreases operations.len() - i,
    {
        let ghost suffix = all.subrange(i as int, all.len() as int);
        assert(suffix.drop_first() =~= all.subrange(i + 1, all.len() as int));
        assert(suffix[0] == operations@[i as int]@);
        let ghost before = out@;
        if !skipped(&operations[i].0.tx_type) {
            push_csv_row(&mut out, &operations[i]);
            assert(before + (spec_csv_row(suffix[0]) + spec_csv_rows(suffix.drop_first())) =~= out@
                + spec_csv_rows(suffix.drop_first()));
        }
        i = i + 1;
    }
    assert(all.subrange(i as int, all.len() as int) =~= Seq::<OperationNameView>::empty());
    assert(out@ + seq![] =~= out@);
    out
}

} // verus!
