//! Reading the text format: blocks separated by blank lines, each of nine
//! lines `<ATTRIBUTE>: <value>` after a header line.

use crate::bank::operations::{BalanceOp, BalanceOpView, Operation, OperationView, Status};
use crate::parser::errors::{
    IoErrorKind, ParseFileError, MSG_AMOUNT, MSG_DESCRIPTION, MSG_FROM_USER_ID, MSG_ROW,
    MSG_STATUS, MSG_TIMESTAMP, MSG_TO_USER_ID, MSG_TX_ID, MSG_TX_TYPE,
};
use crate::parser::bytes::string_from_utf8;
use crate::parser::{names_view, OperationName, OperationNameView};
use crate::text::{
    chars_of, find_from, find_in, lemma_find_from, lemma_find_shift, parse_u64_range,
    spec_parse_u64, string_of, trim, trim_range,
};
use vstd::prelude::*;
use vstd::slice::slice_to_vec;
use vstd::utf8::{decode_utf8, valid_utf8};

verus! {

/// The number of times `c` occurs in `s`.
pub open spec fn count_char(s: Seq<char>, c: char) -> nat
    decreases s.len(),
{
    if s.len() == 0 {
        0
    } else {
        count_char(s.drop_last(), c) + if s.last() == c {
            1nat
        } else {
            0nat
        }
    }
}

/// The value of the attribute `name` in the block `rows`: the line from the
/// first occurrence of `name` to the next line break, after its first
/// colon, with surrounding whitespace trimmed; none when `name` does not
/// occur or its line has no colon.
pub open spec fn spec_get_atr(rows: Seq<char>, name: Seq<char>) -> Option<Seq<char>> {
    match find_from(rows, name, 0) {
        None => None,
        Some(st) => {
            let end = match find_from(rows.subrange(st, rows.len() as int), seq!['\n'], 0) {
                Some(k) => st + k,
                None => rows.len() as int,
            };
            let line = rows.subrange(st, end);
            match find_from(line, seq![':'], 0) {
                None => None,
                Some(k) => Some(trim(line.subrange(k + 1, line.len() as int), false)),
            }
        },
    }
}

/// The operation type named by a word of the text format, with `amount`;
/// a transfer comes from `from`.
pub open spec fn type_from_word(w: Seq<char>, amount: u64, from: Seq<char>) -> Option<BalanceOpView> {
    if w == "DEPOSIT"@ {
        Some(BalanceOpView::Deposit(amount))
    } else if w == "WITHDRAWAL"@ {
        Some(BalanceOpView::Withdraw(amount))
    } else if w == "TRANSFER"@ {
        Some(BalanceOpView::Transfer(from, amount, true))
    } else {
        None
    }
}

/// The status named by a word of the text format.
pub open spec fn status_from_word(w: Seq<char>) -> Option<Status> {
    if w == "PENDING"@ {
        Some(Status::PENDING)
    } else if w == "SUCCESS"@ {
        Some(Status::SUCCESS)
    } else if w == "FAILURE"@ {
        Some(Status::FAILURE)
    } else {
        None
    }
}

/// What reading one block gives. A block must have nine lines; its
/// attributes are looked up in the order type, receiver, sender, timestamp,
/// description, id, amount, status, and then the numbers, type and status
/// are read. The operation belongs to the sender unless the sender is `0`.
pub open spec fn spec_txt_block(rows: Seq<char>) -> Result<OperationNameView, ParseFileError> {
    if count_char(rows, '\n') != 8 {
        Err(ParseFileError::ParseError(MSG_ROW))
    } else {
        let tx_type = spec_get_atr(rows, "TX_TYPE"@);
        let to = spec_get_atr(rows, "TO_USER_ID"@);
        let from = spec_get_atr(rows, "FROM_USER_ID"@);
        let timestamp = spec_get_atr(rows, "TIMESTAMP"@);
        let description = spec_get_atr(rows, "DESCRIPTION"@);
        let tx_id = spec_get_atr(rows, "TX_ID"@);
        let amount = spec_get_atr(rows, "AMOUNT"@);
        let status = spec_get_atr(rows, "STATUS"@);
        if tx_type is None {
            Err(ParseFileError::ParseError(MSG_TX_TYPE))
        } else if to is None {
            Err(ParseFileError::ParseError(MSG_TO_USER_ID))
        } else if from is None {
            Err(ParseFileError::ParseError(MSG_FROM_USER_ID))
        } else if timestamp is None {
            Err(ParseFileError::ParseError(MSG_TIMESTAMP))
        } else if description is None {
            Err(ParseFileError::ParseError(MSG_DESCRIPTION))
        } else if tx_id is None {
            Err(ParseFileError::ParseError(MSG_TX_ID))
        } else if amount is None {
            Err(ParseFileError::ParseError(MSG_AMOUNT))
        } else if status is None {
            Err(ParseFileError::ParseError(MSG_STATUS))
        } else if spec_parse_u64(timestamp.unwrap()) is None {
            Err(ParseFileError::ParseError(MSG_TIMESTAMP))
        } else if spec_parse_u64(amount.unwrap()) is None {
            Err(ParseFileError::ParseError(MSG_AMOUNT))
        } else if spec_parse_u64(tx_id.unwrap()) is None {
            Err(ParseFileError::ParseError(MSG_TX_ID))
        } else {
            let amount_v = spec_parse_u64(amount.unwrap()).unwrap();
            match type_from_word(tx_type.unwrap(), amount_v, from.unwrap()) {
                None => Err(ParseFileError::ParseError(MSG_TX_TYPE)),
                Some(op) => match status_from_word(status.unwrap()) {
                    None => Err(ParseFileError::ParseError(MSG_STATUS)),
                    Some(st) => Ok(
                        (
                            OperationView {
                                id: spec_parse_u64(tx_id.unwrap()).unwrap(),
                                timestamp: spec_parse_u64(timestamp.unwrap()).unwrap(),
                                tx_type: op,
                                status: st,
                                description: description.unwrap(),
                            },
                            if from.unwrap() == "0"@ {
                                to.unwrap()
                            } else {
                                from.unwrap()
                            },
                        ),
                    ),
                },
            }
        }
    }
}

/// What reading the text `c` gives. The text is cut at each blank line
/// (`\n\n`) into blocks; a rejected block rejects the text, except the last
/// block, which is then left out.
pub open spec fn spec_txt_walk(c: Seq<char>) -> Result<Seq<OperationNameView>, ParseFileError>
    decreases c.len(),
{
    match find_from(c, seq!['\n', '\n'], 0) {
        None => match spec_txt_block(c) {
            Ok(o) => Ok(seq![o]),
            Err(_) => Ok(seq![]),
        },
        Some(i) => {
            proof {
                lemma_find_from(c, seq!['\n', '\n'], 0);
            }
            match spec_txt_block(c.subrange(0, i)) {
                Err(e) => Err(e),
                Ok(o) => match spec_txt_walk(c.subrange(i + 2, c.len() as int)) {
                    Ok(r) => Ok(seq![o] + r),
                    Err(e) => Err(e),
                },
            }
        },
    }
}

/// What reading the bytes `data` in the text format gives: text that is not
/// valid UTF-8 cannot be read.
pub open spec fn spec_from_txt(data: Seq<u8>) -> Result<Seq<OperationNameView>, ParseFileError> {
    if !valid_utf8(data) {
        Err(ParseFileError::IoError(IoErrorKind::InvalidData))
    } else {
        spec_txt_walk(decode_utf8(data))
    }
}

/// The value range of the attribute `name` in `s[a..b]` (see
/// [`spec_get_atr`]).
fn get_atr(s: &Vec<char>, a: usize, b: usize, name: &Vec<char>) -> (r: Option<(usize, usize)>)
    requires
        a <= b <= s.len(),
        name.len() > 0,
    ensures
        match r {
            None => spec_get_atr(s@.subrange(a as int, b as int), name@) is None,
            Some((x, y)) => a <= x <= y <= b && spec_get_atr(s@.subrange(a as int, b as int), name@)
                == Some(s@.subrange(x as int, y as int)),
        },
{
    let ghost rows = s@.subrange(a as int, b as int);
    proof {
        assert(s@.subrange(0, b as int).subrange(a as int, b as int) =~= rows);
        lemma_find_shift(s@.subrange(0, b as int), name@, a as int);
    }
    let st = match find_in(s, b, name.as_slice(), a) {
        None => {
            return None;
        },
        Some(st) => st,
    };
    let nl = ['\n'];
    assert(nl@ =~= seq!['\n']);
    proof {
        assert(s@.subrange(0, b as int).subrange(st as int, b as int) =~= rows.subrange(st - a, rows.len() as int));
        lemma_find_shift(s@.subrange(0, b as int), seq!['\n'], st as int);
    }
    let end = match find_in(s, b, &nl, st) {
        Some(k) => k,
        None => b,
    };
    let ghost line = rows.subrange(st - a, end - a);
    assert(line =~= s@.subrange(st as int, end as int));
    let colon = [':'];
    assert(colon@ =~= seq![':']);
    proof {
        assert(s@.subrange(0, end as int).subrange(st as int, end as int) =~= line);
        lemma_find_shift(s@.subrange(0, end as int), seq![':'], st as int);
    }
    let k = match find_in(s, end, &colon, st) {
        None => {
            return None;
        },
        Some(k) => k,
    };
    let (x, y) = trim_range(s, k + 1, end, false);
    assert(line.subrange(k - st + 1, line.len() as int) =~= s@.subrange(k + 1, end as int));
    Some((x, y))
}

/// The words that the text format uses, as characters.
struct Words {
    tx_type: Vec<char>,
    to_user_id: Vec<char>,
    from_user_id: Vec<char>,
    timestamp: Vec<char>,
    description: Vec<char>,
    tx_id: Vec<char>,
    amount: Vec<char>,
    status: Vec<char>,
    deposit: Vec<char>,
    withdrawal: Vec<char>,
    transfer: Vec<char>,
    pending: Vec<char>,
    success: Vec<char>,
    failure: Vec<char>,
    zero: Vec<char>,
}

impl Words {
    spec fn wf(&self) -> bool {
        &&& self.tx_type@ == "TX_TYPE"@
        &&& self.to_user_id@ == "TO_USER_ID"@
        &&& self.from_user_id@ == "FROM_USER_ID"@
        &&& self.timestamp@ == "TIMESTAMP"@
        &&& self.description@ == "DESCRIPTION"@
        &&& self.tx_id@ == "TX_ID"@
        &&& self.amount@ == "AMOUNT"@
        &&& self.status@ == "STATUS"@
        &&& self.deposit@ == "DEPOSIT"@
        &&& self.withdrawal@ == "WITHDRAWAL"@
        &&& self.transfer@ == "TRANSFER"@
        &&& self.pending@ == "PENDING"@
        &&& self.success@ == "SUCCESS"@
        &&& self.failure@ == "FAILURE"@
        &&& self.zero@ == "0"@
        &&& self.tx_type.len() > 0
        &&& self.to_user_id.len() > 0
        &&& self.from_user_id.len() > 0
        &&& self.timestamp.len() > 0
        &&& self.description.len() > 0
        &&& self.tx_id.len() > 0
        &&& self.amount.len() > 0
        &&& self.status.len() > 0
    }

    fn new() -> (w: Self)
        ensures
            w.wf(),
    {
        proof {
            reveal_strlit("TX_TYPE");
            reveal_strlit("TO_USER_ID");
            reveal_strlit("FROM_USER_ID");
            reveal_strlit("TIMESTAMP");
            reveal_strlit("DESCRIPTION");
            reveal_strlit("TX_ID");
            reveal_strlit("AMOUNT");
            reveal_strlit("STATUS");
        }
        Words {
            tx_type: chars_of("TX_TYPE"),
            to_user_id: chars_of("TO_USER_ID"),
            from_user_id: chars_of("FROM_USER_ID"),
            timestamp: chars_of("TIMESTAMP"),
            description: chars_of("DESCRIPTION"),
            tx_id: chars_of("TX_ID"),
            amount: chars_of("AMOUNT"),
            status: chars_of("STATUS"),
            deposit: chars_of("DEPOSIT"),
            withdrawal: chars_of("WITHDRAWAL"),
            transfer: chars_of("TRANSFER"),
            pending: chars_of("PENDING"),
            success: chars_of("SUCCESS"),
            failure: chars_of("FAILURE"),
            zero: chars_of("0"),
        }
    }
}

/// Whether `s[x..y]` is `w`.
fn range_eq(s: &Vec<char>, x: usize, y: usize, w: &Vec<char>) -> (r: bool)
    requires
        x <= y <= s.len(),
    ensures
        r == (s@.subrange(x as int, y as int) == w@),
{
    if y - x != w.len() {
        return false;
    }
    let mut k: usize = 0;
    while k < w.len()
        invariant
            y - x == w.len(),
            x <= y <= s.len(),
            k <= w.len(),
            forall|j: int| 0 <= j < k ==> s@[x + j] == w@[j],
        decreases w.len() - k,
    {
        if s[x + k] != w[k] {
            assert(s@.subrange(x as int, y as int)[k as int] != w@[k as int]);
            return false;
        }
        k = k + 1;
    }
    assert(s@.subrange(x as int, y as int) =~= w@);
    true
}

/// The number of line breaks in `s[a..b]`.
fn count_newlines(s: &Vec<char>, a: usize, b: usize) -> (r: usize)
    requires
        a <= b <= s.len(),
    ensures
        r == count_char(s@.subrange(a as int, b as int), '\n'),
{
    let mut n: usize = 0;
    let mut i = a;
    while i < b
        invariant
            a <= i <= b <= s.len(),
            n == count_char(s@.subrange(a as int, i as int), '\n'),
            n <= i - a,
        decreases b - i,
    {
        assert(s@.subrange(a as int, i + 1 as int).drop_last() =~= s@.subrange(a as int, i as int));
        if s[i] == '\n' {
            n = n + 1;
        }
        i = i + 1;
    }
    n
}

/// Reads the block `s[a..b]` (see [`spec_txt_block`]).
fn parse_block(s: &Vec<char>, a: usize, b: usize, w: &Words) -> (r: Result<OperationName, ParseFileError>)
    requires
        a <= b <= s.len(),
        w.wf(),
    ensures
        match r {
            Ok(o) => spec_txt_block(s@.subrange(a as int, b as int)) == Ok::<OperationNameView, ParseFileError>(o@),
            Err(e) => spec_txt_block(s@.subrange(a as int, b as int)) == Err::<OperationNameView, ParseFileError>(e),
        },
{
    if count_newlines(s, a, b) != 8 {
        return Err(ParseFileError::ParseError(MSG_ROW));
    }
    let tx_type = match get_atr(s, a, b, &w.tx_type) {
        None => return Err(ParseFileError::ParseError(MSG_TX_TYPE)),
        Some(v) => v,
    };
    let to = match get_atr(s, a, b, &w.to_user_id) {
        None => return Err(ParseFileError::ParseError(MSG_TO_USER_ID)),
        Some(v) => v,
    };
    let from = match get_atr(s, a, b, &w.from_user_id) {
        None => return Err(ParseFileError::ParseError(MSG_FROM_USER_ID)),
        Some(v) => v,
    };
    let timestamp = match get_atr(s, a, b, &w.timestamp) {
        None => return Err(ParseFileError::ParseError(MSG_TIMESTAMP)),
        Some(v) => v,
    };
    let description = match get_atr(s, a, b, &w.description) {
        None => return Err(ParseFileError::ParseError(MSG_DESCRIPTION)),
        Some(v) => v,
    };
    let tx_id = match get_atr(s, a, b, &w.tx_id) {
        None => return Err(ParseFileError::ParseError(MSG_TX_ID)),
        Some(v) => v,
    };
    let amount = match get_atr(s, a, b, &w.amount) {
        None => return Err(ParseFileError::ParseError(MSG_AMOUNT)),
        Some(v) => v,
    };
    let status = match get_atr(s, a, b, &w.status) {
        None => return Err(ParseFileError::ParseError(MSG_STATUS)),
        Some(v) => v,
    };
    let timestamp_v = match parse_u64_range(s, timestamp.0, timestamp.1) {
        None => return Err(ParseFileError::ParseError(MSG_TIMESTAMP)),
        Some(v) => v,
    };
    let amount_v = match parse_u64_range(s, amount.0, amount.1) {
        None => return Err(ParseFileError::ParseError(MSG_AMOUNT)),
        Some(v) => v,
    };
    let tx_id_v = match parse_u64_range(s, tx_id.0, tx_id.1) {
        None => return Err(ParseFileError::ParseError(MSG_TX_ID)),
        Some(v) => v,
    };
    let op = if range_eq(s, tx_type.0, tx_type.1, &w.deposit) {
        BalanceOp::Deposit(amount_v)
    } else if range_eq(s, tx_type.0, tx_type.1, &w.withdrawal) {
        BalanceOp::Withdraw(amount_v)
    } else if range_eq(s, tx_type.0, tx_type.1, &w.transfer) {
        BalanceOp::Transfer(string_of(s, from.0, from.1), amount_v, true)
    } else {
        return Err(ParseFileError::ParseError(MSG_TX_TYPE));
    };
    let st = if range_eq(s, status.0, status.1, &w.pending) {
        Status::PENDING
    } else if range_eq(s, status.0, status.1, &w.success) {
        Status::SUCCESS
    } else if range_eq(s, status.0, status.1, &w.failure) {
        Status::FAILURE
    } else {
        return Err(ParseFileError::ParseError(MSG_STATUS));
    };
    let name = if range_eq(s, from.0, from.1, &w.zero) {
        string_of(s, to.0, to.1)
    } else {
        string_of(s, from.0, from.1)
    };
    let operation = Operation::load(tx_id_v, timestamp_v, op, st, Some(string_of(s, description.0, description.1)));
    Ok(OperationName(operation, name))
}

/// Reads the text `c` (see [`spec_txt_walk`]).
fn parse_text(c: &Vec<char>) -> (r: Result<Vec<OperationName>, ParseFileError>)
    ensures
        match r {
            Ok(v) => spec_txt_walk(c@) == Ok::<Seq<OperationNameView>, ParseFileError>(names_view(v@)),
            Err(e) => spec_txt_walk(c@) == Err::<Seq<OperationNameView>, ParseFileError>(e),
        },
{
    let w = Words::new();
    let sep = ['\n', '\n'];
    assert(sep@ =~= seq!['\n', '\n']);
    let n = c.len();
    let mut ops: Vec<OperationName> = Vec::new();
    let mut p: usize = 0;
    assert(c@.subrange(0, n as int) =~= c@);
    loop
        invariant
            p <= n == c.len(),
            w.wf(),
            sep@ == seq!['\n', '\n'],
            spec_txt_walk(c@) == match spec_txt_walk(c@.subrange(p as int, n as int)) {
                Ok(r) => Ok::<Seq<OperationNameView>, ParseFileError>(names_view(ops@) + r),
                Err(e) => Err(e),
            },
        decreases n - p,
    {
        let ghost rest = c@.subrange(p as int, n as int);
        proof {
            assert(c@.subrange(0, n as int).subrange(p as int, n as int) =~= rest);
            lemma_find_shift(c@.subrange(0, n as int), seq!['\n', '\n'], p as int);
            assert(c@.subrange(0, n as int) =~= c@);
        }
        match find_in(c, n, &sep, p) {
            None => {
                match parse_block(c, p, n, &w) {
                    Ok(o) => {
                        proof {
                            assert(names_view(ops@.push(o)) =~= names_view(ops@) + seq![o@]);
                        }
                        ops.push(o);
                    },
                    Err(_) => {
                        assert(names_view(ops@) + seq![] =~= names_view(ops@));
                    },
                }
                return Ok(ops);
            },
            Some(i) => {
                assert(rest.subrange(0, i - p) =~= c@.subrange(p as int, i as int));
                assert(rest.subrange(i - p + 2, rest.len() as int) =~= c@.subrange(i + 2, n as int));
                match parse_block(c, p, i, &w) {
                    Ok(o) => {
                        proof {
                            assert(names_view(ops@.push(o)) =~= names_view(ops@).push(o@));
                            match spec_txt_walk(c@.subrange(i + 2, n as int)) {
                                Ok(r) => {
                                    assert(names_view(ops@) + (seq![o@] + r) =~= names_view(ops@).push(o@) + r);
                                },
                                Err(_) => {},
                            }
                        }
                        ops.push(o);
                        p = i + 2;
                    },
                    Err(e) => {
                        return Err(e);
                    },
                }
            },
        }
    }
}

/// Reads operations from bytes in the text format (see [`spec_from_txt`]).
pub fn parse_from_txt(data: &[u8]) -> (r: Result<Vec<OperationName>, ParseFileError>)
    ensures
        match r {
            Ok(v) => spec_from_txt(data@) == Ok::<Seq<OperationNameView>, ParseFileError>(names_view(v@)),
            Err(e) => spec_from_txt(data@) == Err::<Seq<OperationNameView>, ParseFileError>(e),
        },
{
    let text = match string_from_utf8(slice_to_vec(data)) {
        None => return Err(ParseFileError::IoError(IoErrorKind::InvalidData)),
        Some(t) => t,
    };
    let c = chars_of(text.as_str());
    parse_text(&c)
}

} // verus!
