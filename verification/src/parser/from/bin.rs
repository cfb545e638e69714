//! Reading the binary format: records of the magic `YPBN`, a 4-byte
//! big-endian body length, and a body.
//!
//! A body holds, big-endian: the operation id (8 bytes), its type (1 byte:
//! 0 deposit, 1 transfer, 2 withdrawal), the sending user (8), the receiving
//! user (8), the signed amount (8), the timestamp (8), the status (1 byte:
//! 0 success, 1 failure, 2 pending), the description's length (4) and the
//! description in UTF-8.

use crate::bank::operations::{BalanceOp, BalanceOpView, Operation, OperationView, Status};
use crate::parser::bytes::{be_bytes, be_value, lemma_be_value_bytes, pow256, read_be, string_from_utf8};
use crate::parser::errors::{
    IoErrorKind, ParseFileError, MSG_BIN_STATUS, MSG_BIN_TX_TYPE, MSG_MAGIC, MSG_RECORD_LEN,
    MSG_RECORD_MIN,
};
use crate::parser::{names_view, OperationName, OperationNameView};
use crate::text::{chars_of, push_decimal, spec_decimal, string_of, trim, trim_range};
use vstd::utf8::encode_utf8;
use vstd::prelude::*;
use vstd::slice::{slice_subrange, slice_to_vec};
use vstd::utf8::{decode_utf8, valid_utf8};

verus! {

/// What reading a record body gives.
pub enum BodyOutcome {
    /// The operation and its user.
    Parsed(OperationNameView),
    /// The body is rejected.
    Failed(ParseFileError),
    /// The reader panics: the description is not valid UTF-8.
    Panics,
}

/// What reading a whole binary input gives.
pub enum BinOutcome {
    /// The operations with their users.
    Parsed(Seq<OperationNameView>),
    /// The input is rejected.
    Failed(ParseFileError),
    /// The reader panics: a magic or a description is not valid UTF-8.
    Panics,
}

/// The magic that opens each record: `YPBN`.
pub open spec fn magic() -> Seq<u8> {
    seq![89u8, 80u8, 66u8, 78u8]
}

/// The big-endian value of `s[i..i + k]`.
pub open spec fn be_at(s: Seq<u8>, i: int, k: int) -> nat {
    be_value(s.subrange(i, i + k))
}

/// The status stored as `b` (0, 1 or 2).
pub open spec fn status_of(b: u8) -> Status {
    if b == 0 {
        Status::SUCCESS
    } else if b == 1 {
        Status::FAILURE
    } else {
        Status::PENDING
    }
}

/// The magnitude of the signed 64-bit number whose bits are `u`.
pub open spec fn abs_amount(u: nat) -> u64 {
    if u >= 0x8000_0000_0000_0000 {
        (0x1_0000_0000_0000_0000 - u) as u64
    } else {
        u as u64
    }
}

/// The description's length field of a body.
pub open spec fn desc_len_field(b: Seq<u8>) -> nat {
    be_at(b, 42, 4)
}

/// What reading the body `b` of a record gives. A deposit belongs to the
/// receiving user, a withdrawal to the sending one, and a transfer is an
/// incoming transfer from the sending user that belongs to the receiving
/// one. The description loses its leading and trailing double quotes; bytes
/// after it are not read. An unknown type byte is refused as soon as it is
/// read, and so is an unknown status byte; reading panics where a field it
/// comes to lies past the end of the body, or where the description is not
/// valid UTF-8.
pub open spec fn spec_parse_body(b: Seq<u8>) -> BodyOutcome {
    if b.len() < 9 {
        BodyOutcome::Panics
    } else if b[8] > 2 {
        BodyOutcome::Failed(ParseFileError::SerializeError(MSG_BIN_TX_TYPE))
    } else if b.len() < 42 {
        BodyOutcome::Panics
    } else if b[41] > 2 {
        BodyOutcome::Failed(ParseFileError::SerializeError(MSG_BIN_STATUS))
    } else if b.len() < 46 + desc_len_field(b) {
        BodyOutcome::Panics
    } else {
        let d = b.subrange(46, 46 + desc_len_field(b) as int);
        if !valid_utf8(d) {
            BodyOutcome::Panics
        } else {
            let t = b[8];
            let from = be_at(b, 9, 8);
            let to = be_at(b, 17, 8);
            let amount = abs_amount(be_at(b, 25, 8));
            let tx_type = if t == 0 {
                BalanceOpView::Deposit(amount)
            } else if t == 2 {
                BalanceOpView::Withdraw(amount)
            } else {
                BalanceOpView::Transfer(spec_decimal(from), amount, true)
            };
            let name = if t == 2 {
                from
            } else {
                to
            };
            BodyOutcome::Parsed(
                (
                    OperationView {
                        id: be_at(b, 0, 8) as u64,
                        timestamp: be_at(b, 33, 8) as u64,
                        tx_type,
                        status: status_of(b[41]),
                        description: trim(decode_utf8(d), true),
                    },
                    spec_decimal(name),
                ),
            )
        }
    }
}

/// What reading the binary input `s` gives. Reading stops without error
/// where fewer than four bytes are left. A record whose magic is no `YPBN`,
/// whose length is below 46 or differs from 46 plus the description's
/// length, or whose body is rejected, rejects the input; so does an input
/// that ends inside a record.
pub open spec fn spec_bin_walk(s: Seq<u8>) -> BinOutcome
    decreases s.len(),
{
    if s.len() < 4 {
        BinOutcome::Parsed(seq![])
    } else if s.subrange(0, 4) != magic() {
        if valid_utf8(s.subrange(0, 4)) {
            BinOutcome::Failed(ParseFileError::SerializeError(MSG_MAGIC))
        } else {
            BinOutcome::Panics
        }
    } else if s.len() < 8 {
        BinOutcome::Failed(ParseFileError::IoError(IoErrorKind::UnexpectedEof))
    } else {
        let size = be_at(s, 4, 4) as int;
        if size < 46 {
            BinOutcome::Failed(ParseFileError::SerializeError(MSG_RECORD_MIN))
        } else if s.len() < 8 + size {
            BinOutcome::Failed(ParseFileError::IoError(IoErrorKind::UnexpectedEof))
        } else {
            let body = s.subrange(8, 8 + size);
            if size != 46 + desc_len_field(body) {
                BinOutcome::Failed(ParseFileError::SerializeError(MSG_RECORD_LEN))
            } else {
                match spec_parse_body(body) {
                    BodyOutcome::Failed(e) => BinOutcome::Failed(e),
                    BodyOutcome::Panics => BinOutcome::Panics,
                    BodyOutcome::Parsed(op) => match spec_bin_walk(s.subrange(8 + size, s.len() as int)) {
                        BinOutcome::Parsed(rest) => BinOutcome::Parsed(seq![op] + rest),
                        other => other,
                    },
                }
            }
        }
    }
}

/// A body laid out from an operation's fields reads back as that
/// operation: the id, the type code `t` (0 deposit, 1 transfer, 2
/// withdrawal), the sending and the receiving user, an amount below `2^63`,
/// the timestamp, the status code `st` (0 success, 1 failure, 2 pending),
/// the description's length and the description, each big-endian in its
/// place. A withdrawal belongs to the sending user and the other operations
/// to the receiving one; a transfer is incoming from the sending user; the
/// description loses its leading and trailing double quotes.
pub proof fn lemma_body_reads_fields(
    id: u64,
    t: u8,
    from: u64,
    to: u64,
    amount: u64,
    ts: u64,
    st: u8,
    desc: Seq<char>,
)
    requires
        t <= 2,
        st <= 2,
        amount < 0x8000_0000_0000_0000,
        encode_utf8(desc).len() < 0x1_0000_0000,
    ensures
        ({
            let d = encode_utf8(desc);
            let body = be_bytes(id as nat, 8) + seq![t] + be_bytes(from as nat, 8) + be_bytes(to as nat, 8)
                + be_bytes(amount as nat, 8) + be_bytes(ts as nat, 8) + seq![st] + be_bytes(d.len(), 4) + d;
            spec_parse_body(body) == BodyOutcome::Parsed(
                (
                    (OperationView {
                        id,
                        timestamp: ts,
                        tx_type: if t == 0 {
                            BalanceOpView::Deposit(amount)
                        } else if t == 2 {
                            BalanceOpView::Withdraw(amount)
                        } else {
                            BalanceOpView::Transfer(spec_decimal(from as nat), amount, true)
                        },
                        status: if st == 0 {
                            Status::SUCCESS
                        } else if st == 1 {
                            Status::FAILURE
                        } else {
                            Status::PENDING
                        },
                        description: trim(desc, true),
                    }),
                    spec_decimal(
                        if t == 2 {
                            from
                        } else {
                            to
                        } as nat,
                    ),
                ),
            )
        }),
{
    let d = encode_utf8(desc);
    vstd::utf8::encode_utf8_valid_utf8(desc);
    vstd::utf8::encode_utf8_decode_utf8(desc);
    assert(pow256(8) == 0x1_0000_0000_0000_0000 && pow256(4) == 0x1_0000_0000) by {
        reveal_with_fuel(pow256, 9);
    }
    lemma_be_value_bytes(id as nat, 8);
    lemma_be_value_bytes(from as nat, 8);
    lemma_be_value_bytes(to as nat, 8);
    lemma_be_value_bytes(amount as nat, 8);
    lemma_be_value_bytes(ts as nat, 8);
    lemma_be_value_bytes(d.len(), 4);
    let body = be_bytes(id as nat, 8) + seq![t] + be_bytes(from as nat, 8) + be_bytes(to as nat, 8)
        + be_bytes(amount as nat, 8) + be_bytes(ts as nat, 8) + seq![st] + be_bytes(d.len(), 4) + d;
    assert(body.len() == 46 + d.len());
    assert(body[8] == t);
    assert(body[41] == st);
    assert(body.subrange(0, 8) =~= be_bytes(id as nat, 8));
    assert(body.subrange(9, 17) =~= be_bytes(from as nat, 8));
    assert(body.subrange(17, 25) =~= be_bytes(to as nat, 8));
    assert(body.subrange(25, 33) =~= be_bytes(amount as nat, 8));
    assert(body.subrange(33, 41) =~= be_bytes(ts as nat, 8));
    assert(body.subrange(42, 46) =~= be_bytes(d.len(), 4));
    assert(desc_len_field(body) == d.len());
    assert(body.subrange(46, 46 + d.len() as int) =~= d);
}

/// The record of `body`: the magic, the body's length and the body.
pub open spec fn bin_record(body: Seq<u8>) -> Seq<u8> {
    magic() + be_bytes(body.len(), 4) + body
}

/// The records of `bodies`, one after the other.
pub open spec fn bin_records(bodies: Seq<Seq<u8>>) -> Seq<u8>
    decreases bodies.len(),
{
    if bodies.len() == 0 {
        seq![]
    } else {
        bin_record(bodies[0]) + bin_records(bodies.drop_first())
    }
}

/// Whether `body` makes a record that is read: its length fits the length
/// field and is 46 plus its description's length, and it reads as an
/// operation.
pub open spec fn record_body_ok(body: Seq<u8>) -> bool {
    &&& body.len() < 0x1_0000_0000
    &&& body.len() == 46 + desc_len_field(body)
    &&& spec_parse_body(body) is Parsed
}

/// The operation a body reads as.
pub open spec fn body_op(body: Seq<u8>) -> OperationNameView {
    match spec_parse_body(body) {
        BodyOutcome::Parsed(o) => o,
        _ => arbitrary(),
    }
}

/// Reading records whose bodies each read as an operation, followed by
/// fewer than four more bytes, gives one operation per record, in order;
/// the bytes after the last record are ignored.
pub proof fn lemma_bin_walk_records(bodies: Seq<Seq<u8>>, tail: Seq<u8>)
    requires
        forall|i: int| 0 <= i < bodies.len() ==> record_body_ok(#[trigger] bodies[i]),
        tail.len() < 4,
    ensures
        spec_bin_walk(bin_records(bodies) + tail) == BinOutcome::Parsed(bodies.map_values(|b: Seq<u8>| body_op(b))),
    decreases bodies.len(),
{
    let ops = bodies.map_values(|b: Seq<u8>| body_op(b));
    if bodies.len() == 0 {
        assert(bin_records(bodies) + tail =~= tail);
        assert(ops =~= Seq::<OperationNameView>::empty());
    } else {
        let b = bodies[0];
        assert(record_body_ok(b));
        let more = bodies.drop_first();
        assert forall|i: int| 0 <= i < more.len() implies record_body_ok(#[trigger] more[i]) by {
            assert(more[i] == bodies[i + 1]);
        }
        lemma_bin_walk_records(more, tail);
        let rest = bin_records(more) + tail;
        let s = bin_records(bodies) + tail;
        let n = b.len();
        assert(pow256(4) == 0x1_0000_0000) by {
            reveal_with_fuel(pow256, 5);
        }
        lemma_be_value_bytes(n, 4);
        assert(s =~= magic() + be_bytes(n, 4) + b + rest);
        assert(s.subrange(0, 4) =~= magic());
        assert(s.subrange(4, 8) =~= be_bytes(n, 4));
        assert(be_at(s, 4, 4) == n);
        assert(s.subrange(8, 8 + n as int) =~= b);
        assert(s.subrange(8 + n as int, s.len() as int) =~= rest);
        assert(ops =~= seq![body_op(b)] + more.map_values(|b: Seq<u8>| body_op(b)));
    }
}

/// `o` with `pre` put before the operations it gives.
pub open spec fn prepend(pre: Seq<OperationNameView>, o: BinOutcome) -> BinOutcome {
    match o {
        BinOutcome::Parsed(r) => BinOutcome::Parsed(pre + r),
        other => other,
    }
}

fn decimal_string(n: u64) -> (r: String)
    ensures
        r@ == spec_decimal(n as nat),
{
    let mut r = String::new();
    push_decimal(&mut r, n as u128);
    assert(r@ =~= spec_decimal(n as nat));
    r
}

/// Reads the body of a record (see [`spec_parse_body`]).
pub fn parse_body(body: &[u8]) -> (r: Result<OperationName, ParseFileError>)
    requires
        !(spec_parse_body(body@) is Panics),
    ensures
        match r {
            Ok(o) => spec_parse_body(body@) == BodyOutcome::Parsed(o@),
            Err(e) => spec_parse_body(body@) == BodyOutcome::Failed(e),
        },
{
    let id = read_be(body, 0, 8);
    let t = body[8];
    if t > 2 {
        return Err(ParseFileError::SerializeError(MSG_BIN_TX_TYPE));
    }
    let from = read_be(body, 9, 8);
    let to = read_be(body, 17, 8);
    let raw_amount = read_be(body, 25, 8);
    let amount: u64 = if raw_amount >= 0x8000_0000_0000_0000 {
        (u64::MAX - raw_amount) + 1
    } else {
        raw_amount
    };
    let timestamp = read_be(body, 33, 8);
    let st = body[41];
    if st > 2 {
        return Err(ParseFileError::SerializeError(MSG_BIN_STATUS));
    }
    let status = if st == 0 {
        Status::SUCCESS
    } else if st == 1 {
        Status::FAILURE
    } else {
        Status::PENDING
    };
    let dl = read_be(body, 42, 4);
    let d = slice_to_vec(slice_subrange(body, 46, 46 + dl as usize));
    assert(d@ =~= body@.subrange(46, 46 + desc_len_field(body@) as int));
    let text = match string_from_utf8(d) {
        Some(s) => s,
        None => {
            return Err(ParseFileError::SerializeError(MSG_BIN_TX_TYPE));
        },
    };
    let chars = chars_of(text.as_str());
    let (a, b) = trim_range(&chars, 0, chars.len(), true);
    assert(chars@.subrange(0, chars@.len() as int) =~= chars@);
    let description = string_of(&chars, a, b);
    let (tx_type, name) = if t == 0 {
        (BalanceOp::Deposit(amount), to)
    } else if t == 2 {
        (BalanceOp::Withdraw(amount), from)
    } else {
        (BalanceOp::Transfer(decimal_string(from), amount, true), to)
    };
    let operation = Operation::load(id, timestamp, tx_type, status, Some(description));
    Ok(OperationName(operation, decimal_string(name)))
}

/// Reads a binary input (see [`spec_bin_walk`]).
pub fn parse_from_bin(data: &[u8]) -> (r: Result<Vec<OperationName>, ParseFileError>)
    requires
        !(spec_bin_walk(data@) is Panics),
    ensures
        match r {
            Ok(v) => spec_bin_walk(data@) == BinOutcome::Parsed(names_view(v@)),
            Err(e) => spec_bin_walk(data@) == BinOutcome::Failed(e),
        },
{
    let mut ops: Vec<OperationName> = Vec::new();
    let mut pos: usize = 0;
    let n = data.len();
    assert(data@.subrange(0, n as int) =~= data@);
    while n - pos >= 4
        invariant
            pos <= n == data.len(),
            spec_bin_walk(data@) == prepend(names_view(ops@), spec_bin_walk(data@.subrange(pos as int, n as int))),
            !(spec_bin_walk(data@) is Panics),
        decreases n - pos,
    {
        let ghost s = data@.subrange(pos as int, n as int);
        assert(s.subrange(0, 4) =~= data@.subrange(pos as int, pos + 4));
        if !(data[pos] == 89 && data[pos + 1] == 80 && data[pos + 2] == 66 && data[pos + 3] == 78) {
            assert(s.subrange(0, 4) != magic()) by {
                if s.subrange(0, 4) == magic() {
                    assert(s.subrange(0, 4)[0] == data@[pos as int]);
                    assert(s.subrange(0, 4)[1] == data@[pos + 1]);
                    assert(s.subrange(0, 4)[2] == data@[pos + 2]);
                    assert(s.subrange(0, 4)[3] == data@[pos + 3]);
                }
            }
            return Err(ParseFileError::SerializeError(MSG_MAGIC));
        }
        assert(s.subrange(0, 4) =~= magic());
        if n - pos < 8 {
            return Err(ParseFileError::IoError(IoErrorKind::UnexpectedEof));
        }
        let size = read_be(data, pos + 4, 4);
        assert(s.subrange(4, 8) =~= data@.subrange(pos + 4, pos + 8));
        if size < 46 {
            return Err(ParseFileError::SerializeError(MSG_RECORD_MIN));
        }
        if ((n - pos - 8) as u64) < size {
            return Err(ParseFileError::IoError(IoErrorKind::UnexpectedEof));
        }
        let end = pos + 8 + size as usize;
        let body = slice_subrange(data, pos + 8, end);
        assert(body@ =~= s.subrange(8, 8 + size));
        let ds = read_be(body, 42, 4);
        if size != 46 + ds {
            return Err(ParseFileError::SerializeError(MSG_RECORD_LEN));
        }
        match parse_body(body) {
            Ok(op) => {
                proof {
                    assert(s.subrange(8 + size, s.len() as int) =~= data@.subrange(end as int, n as int));
                    let rest = spec_bin_walk(data@.subrange(end as int, n as int));
                    assert(names_view(ops@.push(op)) =~= names_view(ops@).push(op@));
                    match rest {
                        BinOutcome::Parsed(r) => {
                            assert(names_view(ops@) + (seq![op@] + r) =~= names_view(ops@).push(op@) + r);
                        },
                        _ => {},
                    }
                }
                ops.push(op);
                pos = end;
            },
            Err(e) => {
                return Err(e);
            },
        }
    }
    assert(names_view(ops@) + seq![] =~= names_view(ops@));
    Ok(ops)
}

/// Whether reading the body `b` panics (see [`spec_parse_body`]): the check
/// to make before [`parse_body`].
pub fn body_panics(body: &[u8]) -> (r: bool)
    ensures
        r == (spec_parse_body(body@) is Panics),
{
    let n = body.len();
    if n < 9 {
        return true;
    }
    if body[8] > 2 {
        return false;
    }
    if n < 42 {
        return true;
    }
    if body[41] > 2 {
        return false;
    }
    if n < 46 {
        return true;
    }
    let dl = read_be(body, 42, 4);
    if ((n - 46) as u64) < dl {
        return true;
    }
    let d = slice_to_vec(slice_subrange(body, 46, 46 + dl as usize));
    assert(d@ =~= body@.subrange(46, 46 + desc_len_field(body@) as int));
    string_from_utf8(d).is_none()
}

/// Whether reading the binary input `data` panics (see
/// [`spec_bin_walk`]): the check to make before [`parse_from_bin`].
pub fn bin_reading_panics(data: &[u8]) -> (r: bool)
    ensures
        r == (spec_bin_walk(data@) is Panics),
{
    let mut pos: usize = 0;
    let n = data.len();
    assert(data@.subrange(0, n as int) =~= data@);
    while n - pos >= 4
        invariant
            pos <= n == data.len(),
            (spec_bin_walk(data@) is Panics) == (spec_bin_walk(data@.subrange(pos as int, n as int)) is Panics),
        decreases n - pos,
    {
        let ghost s = data@.subrange(pos as int, n as int);
        assert(s.subrange(0, 4) =~= data@.subrange(pos as int, pos + 4));
        if !(data[pos] == 89 && data[pos + 1] == 80 && data[pos + 2] == 66 && data[pos + 3] == 78) {
            assert(s.subrange(0, 4) != magic()) by {
                if s.subrange(0, 4) == magic() {
                    assert(s.subrange(0, 4)[0] == data@[pos as int]);
                    assert(s.subrange(0, 4)[1] == data@[pos + 1]);
                    assert(s.subrange(0, 4)[2] == data@[pos + 2]);
                    assert(s.subrange(0, 4)[3] == data@[pos + 3]);
                }
            }
            let head = slice_to_vec(slice_subrange(data, pos, pos + 4));
            assert(head@ =~= s.subrange(0, 4));
            return string_from_utf8(head).is_none();
        }
        assert(s.subrange(0, 4) =~= magic());
        if n - pos < 8 {
            return false;
        }
        let size = read_be(data, pos + 4, 4);
        assert(s.subrange(4, 8) =~= data@.subrange(pos + 4, pos + 8));
        if size < 46 {
            return false;
        }
        if ((n - pos - 8) as u64) < size {
            return false;
        }
        let end = pos + 8 + size as usize;
        let body = slice_subrange(data, pos + 8, end);
        assert(body@ =~= s.subrange(8, 8 + size));
        let ds = read_be(body, 42, 4);
        if size != 46 + ds {
            return false;
        }
        if body_panics(body) {
            return true;
        }
        if body[8] > 2 || body[41] > 2 {
            return false;
        }
        assert(s.subrange(8 + size, s.len() as int) =~= data@.subrange(end as int, n as int));
        pos = end;
    }
    false
}

} // verus!
