//! Operations on a balance: their kinds, statuses and errors.

use crate::text::{
    bool_text, chars_of, find_from, lemma_decimal_digits, lemma_decimal_round_trip, find_in, lemma_find_shift, parse_u64_range, push_bool,
    push_char, push_chars, push_chars_of_string, push_decimal, spec_decimal, spec_parse_u64,
    string_of,
};
use vstd::prelude::*;

verus! {

/// The size of a balance value.
pub type BalanceSize = i128;

/// The kind of an operation on a balance, with its amount.
#[derive(Clone, PartialEq, Debug)]
pub enum BalanceOp {
    /// Money put on the account.
    Deposit(u64),
    /// Money taken from the account.
    Withdraw(u64),
    /// Money moved between accounts: the other account, the amount, and
    /// whether the money comes in to this account.
    Transfer(String, u64, bool),
    /// The account is closed.
    Close,
}

/// The kind of an operation.
pub type OperationType = BalanceOp;

/// The errors of an operation.
#[derive(Debug)]
pub enum OperationError {
    /// Not enough money on the balance.
    NotEnoughMoney { required: u64, available: BalanceSize },
    /// The operation is not a valid one.
    InvalidOperation(String),
    /// The text of an operation could not be read.
    ParseError(String),
    /// The 64-bit limit is exceeded.
    OverLimitInt64,
}

/// The mathematical value of an [`OperationError`].
pub enum OperationErrorView {
    NotEnoughMoney { required: u64, available: BalanceSize },
    InvalidOperation(Seq<char>),
    ParseError(Seq<char>),
    OverLimitInt64,
}

impl View for OperationError {
    type V = OperationErrorView;

    open spec fn view(&self) -> OperationErrorView {
        match self {
            OperationError::NotEnoughMoney { required, available } => OperationErrorView::NotEnoughMoney {
                required: *required,
                available: *available,
            },
            OperationError::InvalidOperation(s) => OperationErrorView::InvalidOperation(s@),
            OperationError::ParseError(s) => OperationErrorView::ParseError(s@),
            OperationError::OverLimitInt64 => OperationErrorView::OverLimitInt64,
        }
    }
}

/// The mathematical value of a [`BalanceOp`].
pub enum BalanceOpView {
    Deposit(u64),
    Withdraw(u64),
    Transfer(Seq<char>, u64, bool),
    Close,
}

impl View for BalanceOp {
    type V = BalanceOpView;

    open spec fn view(&self) -> BalanceOpView {
        match self {
            BalanceOp::Deposit(v) => BalanceOpView::Deposit(*v),
            BalanceOp::Withdraw(v) => BalanceOpView::Withdraw(*v),
            BalanceOp::Transfer(n, v, f) => BalanceOpView::Transfer(n@, *v, *f),
            BalanceOp::Close => BalanceOpView::Close,
        }
    }
}

/// The signed amount by which an operation counts: a transfer counts
/// negatively when the money leaves the account; a close counts zero.
pub open spec fn spec_amount(op: BalanceOpView) -> int {
    match op {
        BalanceOpView::Transfer(_, v, f) => if f {
            v as int
        } else {
            -(v as int)
        },
        BalanceOpView::Withdraw(v) => v as int,
        BalanceOpView::Deposit(v) => v as int,
        BalanceOpView::Close => 0,
    }
}

/// The short form of an operation kind: `D<v>`, `W<v>`, `T(<name>,<v>,<flag>)`
/// or `C`.
pub open spec fn spec_op_debug(op: BalanceOpView) -> Seq<char> {
    match op {
        BalanceOpView::Deposit(v) => seq!['D'] + spec_decimal(v as nat),
        BalanceOpView::Withdraw(v) => seq!['W'] + spec_decimal(v as nat),
        BalanceOpView::Transfer(n, v, f) => seq!['T', '('] + n + seq![','] + spec_decimal(v as nat)
            + seq![','] + bool_text(f) + seq![')'],
        BalanceOpView::Close => seq!['C'],
    }
}

/// The long form of an operation kind: `Deposit(<v>)`, `Withdraw(<v>)`,
/// `Transfer(<name>, <v>, <flag>)` or `Close`.
pub open spec fn spec_op_display(op: BalanceOpView) -> Seq<char> {
    match op {
        BalanceOpView::Deposit(v) => seq!['D', 'e', 'p', 'o', 's', 'i', 't', '('] + spec_decimal(
            v as nat,
        ) + seq![')'],
        BalanceOpView::Withdraw(v) => seq!['W', 'i', 't', 'h', 'd', 'r', 'a', 'w', '(']
            + spec_decimal(v as nat) + seq![')'],
        BalanceOpView::Transfer(n, v, f) => seq!['T', 'r', 'a', 'n', 's', 'f', 'e', 'r', '('] + n
            + seq![',', ' '] + spec_decimal(v as nat) + seq![',', ' '] + bool_text(f) + seq![')'],
        BalanceOpView::Close => seq!['C', 'l', 'o', 's', 'e'],
    }
}

/// The stored text of an operation kind: `D<v>`, `W<v>`,
/// `T(<name>:<v>:<flag>)` or `C`.
pub open spec fn spec_op_text(op: BalanceOpView) -> Seq<char> {
    match op {
        BalanceOpView::Transfer(n, v, f) => seq!['T', '('] + n + seq![':'] + spec_decimal(v as nat)
            + seq![':'] + bool_text(f) + seq![')'],
        _ => spec_op_debug(op),
    }
}

/// Whether a character takes one byte in UTF-8.
pub open spec fn is_ascii_char(c: char) -> bool {
    (c as u32) < 128
}

/// Whether the UTF-8 form of `c` is shorter than two bytes.
pub open spec fn shorter_than_two_bytes(c: Seq<char>) -> bool {
    c.len() == 0 || (c.len() == 1 && is_ascii_char(c[0]))
}

/// The inputs on which reading an operation's text slices a string inside
/// a character (and so panics): the first character is not one byte long;
/// or the text after it is no number and either it is one byte long or its
/// first or last character is not one byte long.
pub open spec fn op_text_panics(c: Seq<char>) -> bool {
    &&& c != seq!['C']
    &&& !shorter_than_two_bytes(c)
    &&& (!is_ascii_char(c[0]) || (spec_parse_u64(c.drop_first()) is None && (c.len() <= 2
        || !is_ascii_char(c[1]) || !is_ascii_char(c.last()))))
}

/// What reading the text `c` of an operation gives.
///
/// `C` is a close; `D<n>` and `W<n>` are a deposit and a withdrawal; another
/// letter before a number is an invalid operation. Any other text is a
/// parse error: for `X(<name>:<v>:<flag>)` whose `<v>` is no number the
/// error holds `<v>`, else it holds the whole text (the flag is never
/// accepted).
pub open spec fn spec_op_from_text(c: Seq<char>) -> Result<BalanceOpView, OperationErrorView> {
    if c == seq!['C'] {
        Ok(BalanceOpView::Close)
    } else if shorter_than_two_bytes(c) {
        Err(OperationErrorView::ParseError(c))
    } else {
        match spec_parse_u64(c.drop_first()) {
            Some(v) => if c[0] == 'D' {
                Ok(BalanceOpView::Deposit(v))
            } else if c[0] == 'W' {
                Ok(BalanceOpView::Withdraw(v))
            } else {
                Err(OperationErrorView::InvalidOperation(c))
            },
            None => {
                let m = c.subrange(2, c.len() - 1);
                match find_from(m, seq![':'], 0) {
                    None => Err(OperationErrorView::ParseError(c)),
                    Some(i) => {
                        let vf = m.subrange(i + 1, m.len() as int);
                        match find_from(vf, seq![':'], 0) {
                            None => Err(OperationErrorView::ParseError(c)),
                            Some(j) => {
                                let v = vf.subrange(0, j);
                                match spec_parse_u64(v) {
                                    None => Err(OperationErrorView::ParseError(v)),
                                    Some(_) => Err(OperationErrorView::ParseError(c)),
                                }
                            },
                        }
                    },
                }
            },
        }
    }
}

/// Reading back the stored text of a deposit, a withdrawal or a close gives
/// the same operation (and reading it does not panic).
pub proof fn lemma_op_text_round_trip(op: BalanceOpView)
    requires
        !(op is Transfer),
    ensures
        !op_text_panics(spec_op_text(op)),
        spec_op_from_text(spec_op_text(op)) == Ok::<BalanceOpView, OperationErrorView>(op),
{
    match op {
        BalanceOpView::Deposit(v) => {
            lemma_decimal_digits(v as nat);
            lemma_decimal_round_trip(v);
            let t = spec_op_text(op);
            assert(t.drop_first() =~= spec_decimal(v as nat));
            assert(t[0] == 'D');
        },
        BalanceOpView::Withdraw(v) => {
            lemma_decimal_digits(v as nat);
            lemma_decimal_round_trip(v);
            let t = spec_op_text(op);
            assert(t.drop_first() =~= spec_decimal(v as nat));
            assert(t[0] == 'W');
        },
        _ => {},
    }
}

impl BalanceOp {
    /// The signed amount by which the operation counts on the balance.
    pub fn get_amount(&self) -> (r: BalanceSize)
        ensures
            r as int == spec_amount(self@),
    {
        match self {
            BalanceOp::Transfer(_, v, f) => {
                if *f {
                    *v as i128
                } else {
                    -(*v as i128)
                }
            },
            BalanceOp::Withdraw(v) => *v as i128,
            BalanceOp::Deposit(v) => *v as i128,
            BalanceOp::Close => 0,
        }
    }

    /// The long form of the operation (what `Display` shows).
    pub fn to_display_string(&self) -> (r: String)
        ensures
            r@ == spec_op_display(self@),
    {
        let mut r = String::new();
        match self {
            BalanceOp::Deposit(v) => {
                let h = ['D', 'e', 'p', 'o', 's', 'i', 't', '('];
                push_chars(&mut r, &h);
                push_decimal(&mut r, *v as u128);
                push_char(&mut r, ')');
                assert(h@ =~= seq!['D', 'e', 'p', 'o', 's', 'i', 't', '(']);
            },
            BalanceOp::Withdraw(v) => {
                let h = ['W', 'i', 't', 'h', 'd', 'r', 'a', 'w', '('];
                push_chars(&mut r, &h);
                push_decimal(&mut r, *v as u128);
                push_char(&mut r, ')');
                assert(h@ =~= seq!['W', 'i', 't', 'h', 'd', 'r', 'a', 'w', '(']);
            },
            BalanceOp::Transfer(n, v, f) => {
                let h = ['T', 'r', 'a', 'n', 's', 'f', 'e', 'r', '('];
                push_chars(&mut r, &h);
                push_chars_of_string(&mut r, n);
                push_char(&mut r, ',');
                push_char(&mut r, ' ');
                push_decimal(&mut r, *v as u128);
                push_char(&mut r, ',');
                push_char(&mut r, ' ');
                push_bool(&mut r, *f);
                push_char(&mut r, ')');
                assert(h@ =~= seq!['T', 'r', 'a', 'n', 's', 'f', 'e', 'r', '(']);
                assert(r@ =~= spec_op_display(self@));
            },
            BalanceOp::Close => {
                let h = ['C', 'l', 'o', 's', 'e'];
                push_chars(&mut r, &h);
                assert(h@ =~= seq!['C', 'l', 'o', 's', 'e']);
            },
        }
        r
    }

    /// Appends the short form of the operation (what `Debug` shows) to `out`.
    pub fn push_debug(&self, out: &mut String)
        ensures
            final(out)@ == old(out)@ + spec_op_debug(self@),
    {
        match self {
            BalanceOp::Deposit(v) => {
                push_char(out, 'D');
                push_decimal(out, *v as u128);
                assert(final(out)@ =~= old(out)@ + spec_op_debug(self@));
            },
            BalanceOp::Withdraw(v) => {
                push_char(out, 'W');
                push_decimal(out, *v as u128);
                assert(final(out)@ =~= old(out)@ + spec_op_debug(self@));
            },
            BalanceOp::Transfer(n, v, f) => {
                push_char(out, 'T');
                push_char(out, '(');
                push_chars_of_string(out, n);
                push_char(out, ',');
                push_decimal(out, *v as u128);
                push_char(out, ',');
                push_bool(out, *f);
                push_char(out, ')');
                assert(final(out)@ =~= old(out)@ + spec_op_debug(self@));
            },
            BalanceOp::Close => {
                push_char(out, 'C');
                assert(final(out)@ =~= old(out)@ + spec_op_debug(self@));
            },
        }
    }

    /// The short form of the operation (what `Debug` shows).
    pub fn to_debug_string(&self) -> (r: String)
        ensures
            r@ == spec_op_debug(self@),
    {
        let mut r = String::new();
        self.push_debug(&mut r);
        assert(r@ =~= spec_op_debug(self@));
        r
    }

    /// The stored text of the operation (what converting it into a `String`
    /// gives).
    pub fn into_string(self) -> (r: String)
        ensures
            r@ == spec_op_text(self@),
    {
        match &self {
            BalanceOp::Transfer(n, v, f) => {
                let mut r = String::new();
                push_char(&mut r, 'T');
                push_char(&mut r, '(');
                push_chars_of_string(&mut r, n);
                push_char(&mut r, ':');
                push_decimal(&mut r, *v as u128);
                push_char(&mut r, ':');
                push_bool(&mut r, *f);
                push_char(&mut r, ')');
                assert(r@ =~= spec_op_text(self@));
                r
            },
            _ => self.to_debug_string(),
        }
    }

    /// Reads an operation from its stored text (see [`spec_op_from_text`]).
    pub fn try_from(text: String) -> (r: Result<BalanceOp, OperationError>)
        requires
            !op_text_panics(text@),
        ensures
            match r {
                Ok(op) => spec_op_from_text(text@) == Ok::<BalanceOpView, OperationErrorView>(op@),
                Err(e) => spec_op_from_text(text@) == Err::<BalanceOpView, OperationErrorView>(e@),
            },
    {
        let c = chars_of(text.as_str());
        assert(c@ == text@);
        let n = c.len();
        if n == 1 && c[0] == 'C' {
            assert(c@ =~= seq!['C']);
            return Ok(BalanceOp::Close);
        }
        assert(c@ != seq!['C']);
        if n == 0 || (n == 1 && (c[0] as u32) < 128) {
            return Err(OperationError::ParseError(text));
        }
        match parse_u64_range(&c, 1, n) {
            Some(v) => {
                assert(c@.subrange(1, n as int) =~= c@.drop_first());
                assert(!shorter_than_two_bytes(text@));
                assert(spec_parse_u64(text@.drop_first()) == Some(v));
                if c[0] == 'D' {
                    Ok(BalanceOp::Deposit(v))
                } else if c[0] == 'W' {
                    Ok(BalanceOp::Withdraw(v))
                } else {
                    Err(OperationError::InvalidOperation(text))
                }
            },
            None => {
                assert(c@.subrange(1, n as int) =~= c@.drop_first());
                let colon = [':'];
                assert(colon@ =~= seq![':']);
                let ghost m = c@.subrange(2, n - 1);
                assert(c@.subrange(0, n - 1).subrange(2, n - 1) =~= m);
                match find_in(&c, n - 1, &colon, 2) {
                    None => {
                        proof { lemma_find_shift(c@.subrange(0, n - 1), seq![':'], 2); }
                        Err(OperationError::ParseError(text))
                    },
                    Some(i) => {
                        proof { lemma_find_shift(c@.subrange(0, n - 1), seq![':'], 2); }
                        assert(c@.subrange(0, n - 1).subrange(i + 1, n - 1) =~= m.subrange(i - 2 + 1, m.len() as int));
                        match find_in(&c, n - 1, &colon, i + 1) {
                            None => {
                                proof { lemma_find_shift(c@.subrange(0, n - 1), seq![':'], i + 1); }
                                Err(OperationError::ParseError(text))
                            },
                            Some(j) => {
                                proof { lemma_find_shift(c@.subrange(0, n - 1), seq![':'], i + 1); }
                                let ghost vf = m.subrange(i - 2 + 1, m.len() as int);
                                assert(c@.subrange(0, n - 1).subrange(i + 1, n - 1) =~= vf);
                                assert(vf.subrange(0, j - (i + 1)) =~= c@.subrange(i + 1, j as int));
                                match parse_u64_range(&c, i + 1, j) {
                                    None => Err(OperationError::ParseError(string_of(&c, i + 1, j))),
                                    Some(_) => Err(OperationError::ParseError(text)),
                                }
                            },
                        }
                    },
                }
            },
        }
    }
}

/// The status of an operation.
#[derive(Clone, Copy, PartialEq, Eq, Structural, Debug)]
#[allow(non_camel_case_types)]
pub enum Status {
    SUCCESS,
    FAILURE,
    PENDING,
}

/// The status of an operation.
pub type OperationStatus = Status;

/// An operation on a balance.
#[derive(Clone, PartialEq, Debug)]
pub struct Operation {
    pub id: u64,
    pub timestamp: u64,
    pub tx_type: BalanceOp,
    pub status: Status,
    pub description: String,
}

/// The mathematical value of an [`Operation`].
pub struct OperationView {
    pub id: u64,
    pub timestamp: u64,
    pub tx_type: BalanceOpView,
    pub status: Status,
    pub description: Seq<char>,
}

impl View for Operation {
    type V = OperationView;

    open spec fn view(&self) -> OperationView {
        OperationView {
            id: self.id,
            timestamp: self.timestamp,
            tx_type: self.tx_type@,
            status: self.status,
            description: self.description@,
        }
    }
}

/// The description given to an operation created without one.
pub open spec fn default_description(id: u64) -> Seq<char> {
    seq!['R', 'e', 'c', 'o', 'r', 'd', ' ', 'n', 'u', 'm', 'b', 'e', 'r', ' ', '#']
        + spec_decimal(id as nat)
}

/// The current UNIX time in whole seconds: `SystemTime::elapsed` on
/// `UNIX_EPOCH`, then `Duration::as_secs`; `None` where `elapsed` fails,
/// which it does when the machine's clock reads before 1970. Nothing is
/// claimed of the value, nor of when it is `None`: both depend on the clock.
#[verifier::external_body]
fn unix_time_secs() -> Option<u64> {
    match std::time::UNIX_EPOCH.elapsed() {
        Ok(d) => Some(d.as_secs()),
        Err(_) => None,
    }
}

fn default_description_exec(id: u64) -> (r: String)
    ensures
        r@ == default_description(id),
{
    let mut r = String::new();
    let head = ['R', 'e', 'c', 'o', 'r', 'd', ' ', 'n', 'u', 'm', 'b', 'e', 'r', ' ', '#'];
    push_chars(&mut r, &head);
    assert(head@ =~= seq!['R', 'e', 'c', 'o', 'r', 'd', ' ', 'n', 'u', 'm', 'b', 'e', 'r', ' ', '#']);
    push_decimal(&mut r, id as u128);
    r
}

impl Operation {
    /// The operation's identifier.
    pub fn id(&self) -> (r: u64)
        ensures
            r == self.id,
    {
        self.id
    }

    /// The operation's UNIX timestamp in seconds.
    pub fn timestamp(&self) -> (r: u64)
        ensures
            r == self.timestamp,
    {
        self.timestamp
    }

    /// Builds an operation from stored fields; without a description it gets
    /// `Record number #<id>`.
    pub fn load(
        id: u64,
        timestamp: u64,
        tx_type: BalanceOp,
        status: Status,
        description: Option<String>,
    ) -> (r: Self)
        ensures
            r@.id == id,
            r@.timestamp == timestamp,
            r@.tx_type == tx_type@,
            r@.status == status,
            r@.description == (match description {
                Some(d) => d@,
                None => default_description(id),
            }),
    {
        let description = match description {
            Some(d) => d,
            None => default_description_exec(id),
        };
        Operation { id, timestamp, tx_type, status, description }
    }

    /// A new pending operation stamped with the current time; without a
    /// description it gets `Record number #<id>`. `None` where the clock
    /// cannot be read (it reads before 1970).
    pub fn new(id: u64, tx_type: BalanceOp, description: Option<String>) -> (r: Option<Self>)
        ensures
            match r {
                Some(o) => {
                    &&& o@.id == id
                    &&& o@.tx_type == tx_type@
                    &&& o@.status == Status::PENDING
                    &&& o@.description == (match description {
                        Some(d) => d@,
                        None => default_description(id),
                    })
                },
                None => true,
            },
    {
        match unix_time_secs() {
            Some(timestamp) => Some(Self::load(id, timestamp, tx_type, Status::PENDING, description)),
            None => None,
        }
    }

    /// A new pending deposit (`None` where the clock cannot be read).
    pub fn deposit(id: u64, amount: u64) -> (r: Option<Self>)
        ensures
            match r {
                Some(o) => o@.id == id && o@.tx_type == BalanceOpView::Deposit(amount)
                    && o@.status == Status::PENDING && o@.description == default_description(id),
                None => true,
            },
    {
        Self::new(id, BalanceOp::Deposit(amount), None)
    }

    /// A new pending withdrawal (`None` where the clock cannot be read).
    pub fn withdraw(id: u64, amount: u64) -> (r: Option<Self>)
        ensures
            match r {
                Some(o) => o@.id == id && o@.tx_type == BalanceOpView::Withdraw(amount)
                    && o@.status == Status::PENDING && o@.description == default_description(id),
                None => true,
            },
    {
        Self::new(id, BalanceOp::Withdraw(amount), None)
    }

    /// A new pending transfer with the account `name` (`None` where the clock
    /// cannot be read).
    pub fn transfer(id: u64, name: String, amount: u64, is_to: bool) -> (r: Option<Self>)
        ensures
            match r {
                Some(o) => o@.id == id && o@.tx_type == BalanceOpView::Transfer(name@, amount, is_to)
                    && o@.status == Status::PENDING && o@.description == default_description(id),
                None => true,
            },
    {
        Self::new(id, BalanceOp::Transfer(name, amount, is_to), None)
    }

    /// A new pending closing of the account (`None` where the clock cannot be
    /// read).
    pub fn close(id: u64) -> (r: Option<Self>)
        ensures
            match r {
                Some(o) => o@.id == id && o@.tx_type == BalanceOpView::Close
                    && o@.status == Status::PENDING && o@.description == default_description(id),
                None => true,
            },
    {
        Self::new(id, BalanceOp::Close, None)
    }

    /// Sets the operation's status.
    pub fn set_status(&mut self, status: Status)
        ensures
            final(self)@ == (OperationView { status, ..old(self)@ }),
    {
        self.status = status;
    }
}

} // verus!
