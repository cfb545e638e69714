//! A balance: its value and history.

use crate::bank::operations::{
    spec_op_debug, BalanceSize, Operation, OperationError, OperationView,
};
use crate::text::{push_char, push_signed_decimal, spec_signed_decimal};
use vstd::prelude::*;

verus! {

/// A balance: its value and the history of its operations.
#[derive(Debug, Clone, PartialEq)]
pub struct Balance {
    pub value: BalanceSize,
    pub history: Vec<Operation>,
}

/// The errors of working with a balance.
#[derive(Debug)]
pub enum BalanceError {
    InvalidParseOperation(OperationError),
    InvalidParseBalance(String),
}

/// The short forms of the operation kinds in `h`, joined by commas.
pub open spec fn spec_history_text(h: Seq<OperationView>) -> Seq<char>
    decreases h.len(),
{
    if h.len() == 0 {
        seq![]
    } else if h.len() == 1 {
        spec_op_debug(h[0].tx_type)
    } else {
        spec_history_text(h.drop_last()) + seq![','] + spec_op_debug(h.last().tx_type)
    }
}

/// The views of a list of operations.
pub open spec fn ops_view(h: Seq<Operation>) -> Seq<OperationView> {
    h.map_values(|o: Operation| o@)
}

/// What a balance displays: `<value>,[<history>]`.
pub open spec fn spec_balance_text(value: BalanceSize, h: Seq<OperationView>) -> Seq<char> {
    spec_signed_decimal(value as int) + seq![',', '['] + spec_history_text(h) + seq![']']
}

impl Default for Balance {
    fn default() -> (r: Self)
        ensures
            r.value == 0,
            r.history@.len() == 0,
    {
        Self::new(0, Vec::new())
    }
}

impl Balance {
    /// A balance with the given value and history.
    pub fn new(value: BalanceSize, history: Vec<Operation>) -> (r: Self)
        ensures
            r.value == value,
            r.history == history,
    {
        Balance { value, history }
    }

    /// A balance of `value` with no history.
    pub fn from_i128(value: i128) -> (r: Self)
        ensures
            r.value == value,
            r.history@.len() == 0,
    {
        Balance::new(value, Vec::new())
    }

    /// A balance of `value` with no history.
    pub fn from_i64(value: i64) -> (r: Self)
        ensures
            r.value == value,
            r.history@.len() == 0,
    {
        Balance::new(value as BalanceSize, Vec::new())
    }

    /// A balance of `value` with no history.
    pub fn from_i32(value: i32) -> (r: Self)
        ensures
            r.value == value,
            r.history@.len() == 0,
    {
        Balance::new(value as BalanceSize, Vec::new())
    }

    /// The balance's value.
    pub fn get_value(&self) -> (r: BalanceSize)
        ensures
            r == self.value,
    {
        self.value
    }

    /// The balance's history.
    pub fn get_history(&self) -> (r: &Vec<Operation>)
        ensures
            r == &self.history,
    {
        &self.history
    }

    /// What the balance displays: its value, then the short forms of its
    /// operations in brackets.
    pub fn to_display_string(&self) -> (r: String)
        ensures
            r@ == spec_balance_text(self.value, ops_view(self.history@)),
    {
        let mut r = String::new();
        push_signed_decimal(&mut r, self.value);
        push_char(&mut r, ',');
        push_char(&mut r, '[');
        let ghost start = r@;
        let mut i: usize = 0;
        while i < self.history.len()
            invariant
                i <= self.history.len(),
                r@ == start + spec_history_text(ops_view(self.history@.take(i as int))),
            decreases self.history.len() - i,
        {
            if i > 0 {
                push_char(&mut r, ',');
            }
            self.history[i].tx_type.push_debug(&mut r);
            proof {
                let h = ops_view(self.history@.take(i + 1 as int));
                assert(h.drop_last() =~= ops_view(self.history@.take(i as int)));
                assert(h.last() == self.history@[i as int]@);
                if i == 0 {
                    assert(ops_view(self.history@.take(0)) =~= Seq::<OperationView>::empty());
                }
            }
            i = i + 1;
        }
        assert(self.history@.take(i as int) =~= self.history@);
        push_char(&mut r, ']');
        assert(r@ =~= spec_balance_text(self.value, ops_view(self.history@)));
        r
    }
}

} // verus!
