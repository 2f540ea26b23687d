use vstd::prelude::*;

use crate::address::{zero_address, Address};

verus! {

/// An account that a transaction names, with what it may do.
#[derive(Clone, Copy, Debug, PartialEq, Eq)]
pub struct AccountMeta {
    pub pubkey: Address,
    pub is_signer: bool,
    pub is_writable: bool,
}

pub open spec fn meta(pubkey: Address, is_signer: bool, is_writable: bool) -> AccountMeta {
    AccountMeta { pubkey, is_signer, is_writable }
}

/// The ledger's system program, which allocates accounts: the all-zero address.
pub fn system_program_id() -> (r: Address)
    ensures
        r@ == zero_address(),
{
    Address::zero()
}

/// The accounts of a transaction that creates a poll in a fresh account:
/// the payer, who signs; the poll's account, which signs and is written; and
/// the system program.
pub fn create_poll_accounts(payer: &Address, poll: &Address) -> (r: Vec<AccountMeta>)
    ensures
        r@.len() == 3,
        r@[0] == meta(*payer, true, false),
        r@[1] == meta(*poll, true, true),
        r@[2].pubkey@ == zero_address() && !r@[2].is_signer && !r@[2].is_writable,
{
    vec![
        AccountMeta { pubkey: *payer, is_signer: true, is_writable: false },
        AccountMeta { pubkey: *poll, is_signer: true, is_writable: true },
        AccountMeta { pubkey: system_program_id(), is_signer: false, is_writable: false },
    ]
}

/// The accounts of a transaction that votes: the poll's account, written.
pub fn vote_accounts(poll: &Address) -> (r: Vec<AccountMeta>)
    ensures
        r@ == seq![meta(*poll, false, true)],
{
    let r = vec![AccountMeta { pubkey: *poll, is_signer: false, is_writable: true }];
    assert(r@ =~= seq![meta(*poll, false, true)]);
    r
}

} // verus!
