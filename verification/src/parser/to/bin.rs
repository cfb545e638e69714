//! Writing the binary format (see [`crate::parser::from::bin`]).
//!
//! Outgoing transfers and closings are skipped: nothing is written for them.
//! The body length written is one more than the body's, and the description
//! length one more than the description's.

use crate::bank::operations::{BalanceOp, BalanceOpView, Status};
use crate::parser::bytes::{be_bytes, lemma_be_bytes_len, lemma_be_bytes_wrapping_inc, push_be};
use crate::parser::errors::{ParseFileError, MSG_USER_ID};
use crate::parser::from::bin::magic;
use crate::parser::{names_view, OperationName, OperationNameView};
use crate::text::{chars_of, parse_u64_range, spec_parse_u64};
use vstd::prelude::*;
use vstd::utf8::encode_utf8;

verus! {

/// How one operation is written.
pub enum BinRecord {
    /// Nothing is written.
    Skipped,
    /// The magic, then a user name is no number: writing fails.
    NoUserId,
    /// The whole record.
    Written(Seq<u8>),
}

/// The byte that stores a status.
pub open spec fn status_byte(s: Status) -> u8 {
    match s {
        Status::SUCCESS => 0,
        Status::FAILURE => 1,
        Status::PENDING => 2,
    }
}

/// The record of `o`. A deposit is written from user `0` to its user, a
/// withdrawal from its user to user `0`, an incoming transfer from its
/// sender to its user.
pub open spec fn spec_bin_record(o: OperationNameView) -> BinRecord {
    let (op, name) = o;
    let (t, amount, from, to): (u8, u64, Seq<char>, Seq<char>) = match op.tx_type {
        BalanceOpView::Deposit(a) => (0, a, seq!['0'], name),
        BalanceOpView::Withdraw(a) => (2, a, name, seq!['0']),
        BalanceOpView::Transfer(f, a, _) => (1, a, f, name),
        BalanceOpView::Close => (0, 0, seq![], seq![]),
    };
    if op.tx_type is Close || (op.tx_type matches BalanceOpView::Transfer(_, _, is_to) && !is_to) {
        BinRecord::Skipped
    } else if spec_parse_u64(from) is None || spec_parse_u64(to) is None {
        BinRecord::NoUserId
    } else {
        let d = encode_utf8(op.description);
        let body = be_bytes(op.id as nat, 8) + seq![t] + be_bytes(
            spec_parse_u64(from).unwrap() as nat,
            8,
        ) + be_bytes(spec_parse_u64(to).unwrap() as nat, 8) + be_bytes(amount as nat, 8)
            + be_bytes(op.timestamp as nat, 8) + seq![status_byte(op.status)] + be_bytes(
            d.len() + 1,
            4,
        ) + d;
        BinRecord::Written(magic() + be_bytes(body.len() + 1, 4) + body)
    }
}

/// The bytes written for `ops`, and whether writing succeeded.
pub open spec fn spec_to_bin(ops: Seq<OperationNameView>) -> (Seq<u8>, Result<(), ParseFileError>)
    decreases ops.len(),
{
    if ops.len() == 0 {
        (seq![], Ok(()))
    } else {
        match spec_bin_record(ops[0]) {
            BinRecord::Skipped => spec_to_bin(ops.drop_first()),
            BinRecord::NoUserId => (magic(), Err(ParseFileError::ParseError(MSG_USER_ID))),
            BinRecord::Written(b) => {
                let rest = spec_to_bin(ops.drop_first());
                (b + rest.0, rest.1)
            },
        }
    }
}

/// Where each field of a written record lies. The record of an operation
/// whose users are numbers is the magic `YPBN`, the body length plus one,
/// then the body: the id, the type code (0 deposit, 1 transfer, 2
/// withdrawal), the sending user, the receiving user, the amount, the
/// timestamp, the status code (0 success, 1 failure, 2 pending), the
/// description's length plus one and the description, all numbers
/// big-endian. A deposit comes from user 0 to its user, a withdrawal goes
/// from its user to user 0, and an incoming transfer comes from the other
/// account to its user.
pub proof fn lemma_bin_record_fields(o: OperationNameView)
    requires
        !(o.0.tx_type is Close),
        !(o.0.tx_type matches BalanceOpView::Transfer(_, _, is_to) && !is_to),
        spec_parse_u64(o.1) is Some,
        o.0.tx_type matches BalanceOpView::Transfer(f, _, _) ==> spec_parse_u64(f) is Some,
    ensures
        ({
            let (b, res) = spec_to_bin(seq![o]);
            let u = spec_parse_u64(o.1).unwrap() as nat;
            let d = encode_utf8(o.0.description);
            &&& res is Ok
            &&& b.len() == 54 + d.len()
            &&& b.subrange(0, 4) == seq![89u8, 80u8, 66u8, 78u8]
            &&& b.subrange(4, 8) == be_bytes(47 + d.len(), 4)
            &&& b.subrange(8, 16) == be_bytes(o.0.id as nat, 8)
            &&& b.subrange(41, 49) == be_bytes(o.0.timestamp as nat, 8)
            &&& b[49] == (if o.0.status == Status::SUCCESS {
                0u8
            } else if o.0.status == Status::FAILURE {
                1u8
            } else {
                2u8
            })
            &&& b.subrange(50, 54) == be_bytes(d.len() + 1, 4)
            &&& b.subrange(54, b.len() as int) == d
            &&& match o.0.tx_type {
                BalanceOpView::Deposit(a) => {
                    &&& b[16] == 0
                    &&& b.subrange(17, 25) == be_bytes(0, 8)
                    &&& b.subrange(25, 33) == be_bytes(u, 8)
                    &&& b.subrange(33, 41) == be_bytes(a as nat, 8)
                },
                BalanceOpView::Withdraw(a) => {
                    &&& b[16] == 2
                    &&& b.subrange(17, 25) == be_bytes(u, 8)
                    &&& b.subrange(25, 33) == be_bytes(0, 8)
                    &&& b.subrange(33, 41) == be_bytes(a as nat, 8)
                },
                BalanceOpView::Transfer(f, a, _) => {
                    &&& b[16] == 1
                    &&& b.subrange(17, 25) == be_bytes(spec_parse_u64(f).unwrap() as nat, 8)
                    &&& b.subrange(25, 33) == be_bytes(u, 8)
                    &&& b.subrange(33, 41) == be_bytes(a as nat, 8)
                },
                BalanceOpView::Close => true,
            }
        }),
{
    crate::text::lemma_parse_zero();
    let ops = seq![o];
    assert(ops.drop_first() =~= Seq::<OperationNameView>::empty());
    let op = o.0;
    let u = spec_parse_u64(o.1).unwrap() as nat;
    let d = encode_utf8(op.description);
    let (t, amount, from, to): (u8, u64, nat, nat) = match op.tx_type {
        BalanceOpView::Deposit(a) => (0, a, 0, u),
        BalanceOpView::Withdraw(a) => (2, a, u, 0),
        BalanceOpView::Transfer(f, a, _) => (1, a, spec_parse_u64(f).unwrap() as nat, u),
        BalanceOpView::Close => (0, 0, 0, 0),
    };
    let id8 = be_bytes(op.id as nat, 8);
    let from8 = be_bytes(from, 8);
    let to8 = be_bytes(to, 8);
    let am8 = be_bytes(amount as nat, 8);
    let ts8 = be_bytes(op.timestamp as nat, 8);
    let dl4 = be_bytes(d.len() + 1, 4);
    lemma_be_bytes_len(op.id as nat, 8);
    lemma_be_bytes_len(from, 8);
    lemma_be_bytes_len(to, 8);
    lemma_be_bytes_len(amount as nat, 8);
    lemma_be_bytes_len(op.timestamp as nat, 8);
    lemma_be_bytes_len(d.len() + 1, 4);
    let body = id8 + seq![t] + from8 + to8 + am8 + ts8 + seq![status_byte(op.status)] + dl4 + d;
    assert(body.len() == 46 + d.len());
    lemma_be_bytes_len(body.len() + 1, 4);
    let rec = magic() + be_bytes(body.len() + 1, 4) + body;
    assert(spec_bin_record(o) == BinRecord::Written(rec));
    assert(ops[0] == o);
    let rest = spec_to_bin(ops.drop_first());
    assert(rest.0 == Seq::<u8>::empty() && rest.1 is Ok);
    assert(spec_to_bin(ops).0 == rec + rest.0);
    assert(spec_to_bin(ops).1 is Ok);
    let b = spec_to_bin(ops).0;
    assert(b =~= rec);
    assert(b.subrange(0, 4) =~= magic());
    assert(b.subrange(4, 8) =~= be_bytes(body.len() + 1, 4));
    assert(b.subrange(8, 16) =~= id8);
    assert(b[16] == t);
    assert(b.subrange(17, 25) =~= from8);
    assert(b.subrange(25, 33) =~= to8);
    assert(b.subrange(33, 41) =~= am8);
    assert(b.subrange(41, 49) =~= ts8);
    assert(b[49] == status_byte(op.status));
    assert(b.subrange(50, 54) =~= dl4);
    assert(b.subrange(54, b.len() as int) =~= d);
}

fn parse_name(name: &String) -> (r: Option<u64>)
    ensures
        r == spec_parse_u64(name@),
{
    let c = chars_of(name.as_str());
    assert(c@.subrange(0, c@.len() as int) =~= c@);
    parse_u64_range(&c, 0, c.len())
}

/// How one operation is written (exec).
enum RecordBytes {
    Skipped,
    NoUserId,
    Written(Vec<u8>),
}

fn encode_record(o: &OperationName) -> (r: RecordBytes)
    ensures
        match r {
            RecordBytes::Skipped => spec_bin_record(o@) is Skipped,
            RecordBytes::NoUserId => spec_bin_record(o@) is NoUserId,
            RecordBytes::Written(b) => spec_bin_record(o@) == BinRecord::Written(b@),
        },
{
    let OperationName(op, name) = o;
    let (t, amount, from_name, to_name): (u8, u64, Option<u64>, Option<u64>) = match &op.tx_type {
        BalanceOp::Deposit(a) => (0, *a, Some(0), parse_name(name)),
        BalanceOp::Withdraw(a) => (2, *a, parse_name(name), Some(0)),
        BalanceOp::Transfer(f, a, true) => (1, *a, parse_name(f), parse_name(name)),
        BalanceOp::Transfer(_, _, false) | BalanceOp::Close => {
            return RecordBytes::Skipped;
        },
    };
    proof {
        crate::text::lemma_parse_zero();
    }
    let (from_id, to_id) = match (from_name, to_name) {
        (Some(f), Some(t)) => (f, t),
        _ => {
            return RecordBytes::NoUserId;
        },
    };
    let mut body: Vec<u8> = Vec::new();
    push_be(&mut body, op.id, 8);
    body.push(t);
    push_be(&mut body, from_id, 8);
    push_be(&mut body, to_id, 8);
    push_be(&mut body, amount, 8);
    push_be(&mut body, op.timestamp, 8);
    let st: u8 = match op.status {
        Status::SUCCESS => 0,
        Status::FAILURE => 1,
        Status::PENDING => 2,
    };
    body.push(st);
    let d = op.description.as_str().as_bytes();
    let dl = d.len();
    push_be(&mut body, (dl as u64).wrapping_add(1), 4);
    append_bytes(&mut body, d);
    let mut out: Vec<u8> = Vec::new();
    out.push(89);
    out.push(80);
    out.push(66);
    out.push(78);
    push_be(&mut out, (body.len() as u64).wrapping_add(1), 4);
    append_bytes(&mut out, body.as_slice());
    proof {
        lemma_be_bytes_wrapping_inc(dl as u64);
        lemma_be_bytes_wrapping_inc(body.len() as u64);
        assert(d@ == encode_utf8(o@.0.description));
        let spec_body = be_bytes(op.id as nat, 8) + seq![t] + be_bytes(from_id as nat, 8)
            + be_bytes(to_id as nat, 8) + be_bytes(amount as nat, 8) + be_bytes(
            op.timestamp as nat,
            8,
        ) + seq![status_byte(op.status)] + be_bytes(d@.len() + 1, 4) + d@;
        assert(body@ =~= spec_body);
        assert(out@ =~= magic() + be_bytes(spec_body.len() + 1, 4) + spec_body);
    }
    RecordBytes::Written(out)
}

fn append_bytes(out: &mut Vec<u8>, s: &[u8])
    ensures
        final(out)@ == old(out)@ + s@,
{
    let mut k: usize = 0;
    while k < s.len()
        invariant
            k <= s.len(),
            out@ == old(out)@ + s@.take(k as int),
        decreases s.len() - k,
    {
        out.push(s[k]);
        assert(s@.take(k + 1 as int) =~= s@.take(k as int).push(s@[k as int]));
        k = k + 1;
    }
    assert(s@.take(s.len() as int) =~= s@);
}

/// Writes the operations in the binary format: the bytes written, then
/// whether writing succeeded (see [`spec_to_bin`]).
pub fn parse_to_bin(operations: &[OperationName]) -> (r: (Vec<u8>, Result<(), ParseFileError>))
    ensures
        (r.0@, r.1) == spec_to_bin(names_view(operations@)),
{
    let mut out: Vec<u8> = Vec::new();
    let mut i: usize = 0;
    let ghost all = names_view(operations@);
    assert(all.subrange(0, all.len() as int) =~= all);
    assert(out@ + spec_to_bin(all).0 =~= spec_to_bin(all).0);
    while i < operations.len()
        invariant
            i <= operations.len(),
            all == names_view(operations@),
            spec_to_bin(all) == (out@ + spec_to_bin(all.subrange(i as int, all.len() as int)).0,
                spec_to_bin(all.subrange(i as int, all.len() as int)).1),
        decreases operations.len() - i,
    {
        let ghost suffix = all.subrange(i as int, all.len() as int);
        assert(suffix.drop_first() =~= all.subrange(i + 1, all.len() as int));
        assert(suffix[0] == operations@[i as int]@);
        let ghost rest = spec_to_bin(suffix.drop_first());
        match encode_record(&operations[i]) {
            RecordBytes::Skipped => {},
            RecordBytes::NoUserId => {
                out.push(89);
                out.push(80);
                out.push(66);
                out.push(78);
                return (out, Err(ParseFileError::ParseError(MSG_USER_ID)));
            },
            RecordBytes::Written(b) => {
                let ghost before = out@;
                append_bytes(&mut out, b.as_slice());
                assert(before + (b@ + rest.0) =~= out@ + rest.0);
            },
        }
        i = i + 1;
    }
    assert(all.subrange(i as int, all.len() as int) =~= Seq::<OperationNameView>::empty());
    assert(out@ + seq![] =~= out@);
    (out, Ok(()))
}

} // verus!
