//! The per-instance token-balance ledger, as far as this core touches it.
//!
//! Bookkeeping of the balance itself belongs to a collaborator; settlement
//! only passes a mutable handle through to the resolver and exposes the
//! read-out below.

use vstd::prelude::*;

verus! {

/// The instance's token ledger.
#[derive(Clone, Copy, Debug, PartialEq, Eq, Structural)]
pub struct TokenBalance {
    pub utility_token_balance: u64,
}

/// Reads the utility-token balance of the ledger.
pub fn get_utility_token_balance(balance: &TokenBalance) -> (r: u64)
    ensures
        r == balance.utility_token_balance,
{
    balance.utility_token_balance
}

} // verus!
