//! The store of accounts.

use crate::bank::balance::Balance;
use crate::bank::Name;
use std::collections::HashMap;
use vstd::prelude::*;

verus! {

/// The store of accounts: each name's balance, and the counter from which
/// balances get their identifiers.
#[derive(Debug)]
pub struct Storage {
    accounts: HashMap<Name, Balance>,
    __id_balance_gen: u64,
}

} // verus!
