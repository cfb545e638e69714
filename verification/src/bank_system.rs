//! The simpler bank: accounts with a signed balance, and the commands on
//! them.

use crate::text::{push_signed_decimal, spec_signed_decimal};
use std::collections::HashMap;
use vstd::prelude::*;

verus! {

/// A user's name.
pub type Name = String;

/// An account balance.
#[derive(Debug, Clone, Copy, PartialEq, Eq, Structural)]
pub struct Balance(pub i64);

impl Balance {
    /// The balance's value.
    pub fn get(&self) -> (r: i64)
        ensures
            r == self.0,
    {
        self.0
    }

    /// What the balance displays: its value in decimal.
    pub fn to_display_string(&self) -> (r: String)
        ensures
            r@ == spec_signed_decimal(self.0 as int),
    {
        let mut r = String::new();
        push_signed_decimal(&mut r, self.0 as i128);
        r
    }
}

impl vstd::std_specs::convert::FromSpecImpl<Balance> for i64 {
    open spec fn obeys_from_spec() -> bool {
        true
    }

    open spec fn from_spec(v: Balance) -> i64 {
        v.0
    }
}

impl From<Balance> for i64 {
    /// The value of the balance.
    fn from(value: Balance) -> (r: i64) {
        value.0
    }
}

impl vstd::std_specs::convert::FromSpecImpl<i64> for Balance {
    open spec fn obeys_from_spec() -> bool {
        true
    }

    open spec fn from_spec(v: i64) -> Balance {
        Balance(v)
    }
}

impl From<i64> for Balance {
    /// The balance of `value`.
    fn from(value: i64) -> (r: Balance) {
        Balance(value)
    }
}

/// The store of accounts.
pub struct Storage {
    accounts: HashMap<Name, Balance>,
}

/// A command on the accounts.
pub enum Command {
    AddUser(Name),
    RemoveUser(Name),
    Balance(Name),
    Deposit(Name, Balance),
    Withdraw(Name, Balance),
    Transfer(Name, Name, Balance),
}

impl Command {
    /// Adding the user `name`.
    pub fn add_user(name: Name) -> (r: Self)
        ensures
            r == Command::AddUser(name),
    {
        Command::AddUser(name)
    }

    /// Removing the user `name`.
    pub fn remove_user(name: Name) -> (r: Self)
        ensures
            r == Command::RemoveUser(name),
    {
        Command::RemoveUser(name)
    }

    /// Depositing `amount` on `name`'s account.
    pub fn deposit(name: Name, amount: Balance) -> (r: Self)
        ensures
            r == Command::Deposit(name, amount),
    {
        Command::Deposit(name, amount)
    }

    /// Withdrawing `amount` from `name`'s account.
    pub fn withdraw(name: Name, amount: Balance) -> (r: Self)
        ensures
            r == Command::Withdraw(name, amount),
    {
        Command::Withdraw(name, amount)
    }

    /// Asking for `name`'s balance.
    pub fn balance(name: Name) -> (r: Self)
        ensures
            r == Command::Balance(name),
    {
        Command::Balance(name)
    }

    /// Transferring `amount` from `from` to `to`.
    pub fn transfer(from: Name, to: Name, amount: Balance) -> (r: Self)
        ensures
            r == Command::Transfer(from, to, amount),
    {
        Command::Transfer(from, to, amount)
    }
}

/// A deposit of `amount` on the account `account`.
pub struct Deposit {
    pub account: String,
    pub amount: i64,
}

impl Deposit {
    /// The deposit of `amount` on `account`.
    pub fn new(account: String, amount: i64) -> (r: Self)
        ensures
            r.account == account,
            r.amount == amount,
    {
        Self { account, amount }
    }
}

} // verus!
