use vstd::prelude::*;

use crate::error::TokenError;
use crate::model::{
    lemma_map_sum_bounds, lemma_map_sum_insert, lemma_map_sum_two, TokenModel, TransferCall,
};

verus! {

/// A transfer, made or refused, keeps the total supply, and the balances keep
/// adding up to it.
pub proof fn lemma_transfer_conserves(m: TokenModel, to: Seq<char>, amount: u64, caller: Seq<char>)
    requires
        m.wf(),
    ensures
        m.after_transfer(to, amount, caller).wf(),
        m.after_transfer(to, amount, caller).total_supply == m.total_supply,
{
    if m.transfer_outcome(to, amount, caller) is Ok {
        let held = m.balances[caller];
        let debited = m.balances.insert(caller, (held - amount) as u64);
        lemma_map_sum_insert(m.balances, caller, (held - amount) as u64);
        if to != caller {
            lemma_map_sum_two(m.balances, caller, to);
        }
        let before = if debited.dom().contains(to) { debited[to] as nat } else { 0 };
        lemma_map_sum_insert(debited, to, (before + amount) as u64);
    }
}

/// Whatever sequence of transfers is made, the total supply stays as it was
/// and the balances keep adding up to it.
pub proof fn lemma_transfers_conserve(m: TokenModel, calls: Seq<TransferCall>)
    requires
        m.wf(),
    ensures
        m.after_transfers(calls).wf(),
        m.after_transfers(calls).total_supply == m.total_supply,
    decreases calls.len(),
{
    if calls.len() > 0 {
        let last = calls.last();
        lemma_transfers_conserve(m, calls.drop_last());
        lemma_transfer_conserves(m.after_transfers(calls.drop_last()), last.to, last.amount, last.caller);
    }
}

/// A mint that succeeds raises the total supply and the owner's balance by
/// exactly the amount, and leaves every other balance as it was.
pub proof fn lemma_mint_adds(m: TokenModel, amount: u64, caller: Seq<char>, now: u64)
    requires
        m.wf(),
        m.mint_outcome(amount, caller, now) is Ok,
    ensures
        m.after_mint(amount, caller, now).wf(),
        m.after_mint(amount, caller, now).total_supply == m.total_supply + amount,
        m.after_mint(amount, caller, now).balance(m.owner) == m.balance(m.owner) + amount,
        forall|id: Seq<char>|
            id != m.owner ==> #[trigger] m.after_mint(amount, caller, now).balance(id) == m.balance(id),
{
    if m.balances.dom().contains(m.owner) {
        lemma_map_sum_bounds(m.balances, m.owner);
    }
    lemma_map_sum_insert(m.balances, m.owner, (m.balance(m.owner) + amount) as u64);
}

/// A caller other than the owner is refused with `NotAuthorized` by mint,
/// change of owner and change of decimals, and the ledger stays as it was.
pub proof fn lemma_non_owner_refused(
    m: TokenModel,
    caller: Seq<char>,
    amount: u64,
    now: u64,
    new_owner: Seq<char>,
    new_decimals: u8,
)
    requires
        caller != m.owner,
    ensures
        m.mint_outcome(amount, caller, now) == Err::<(), TokenError>(TokenError::NotAuthorized),
        m.after_mint(amount, caller, now) == m,
        m.owner_check(caller) == Err::<(), TokenError>(TokenError::NotAuthorized),
        m.after_change_owner(new_owner, caller) == m,
        m.after_change_decimals(new_decimals, caller) == m,
{
}

/// With minting locked until `t`, the owner's mint is refused with
/// `TransferLocked` at every time before `t`, and goes through at every time
/// from `t` on, where the new supply fits in a `u64`.
pub proof fn lemma_lock_gates_mint(m: TokenModel, t: u64, amount: u64, now: u64)
    requires
        m.locked_until == Some(t),
    ensures
        now < t ==> m.mint_outcome(amount, m.owner, now) == Err::<(), TokenError>(
            TokenError::TransferLocked,
        ),
        now >= t && m.total_supply + amount <= u64::MAX ==> m.mint_outcome(amount, m.owner, now) is Ok,
{
}

/// Sending one's whole balance goes through, and empties the sender's
/// balance where it goes to someone else; asking one more is refused with
/// `InsufficientBalance`.
pub proof fn lemma_transfer_boundary(m: TokenModel, to: Seq<char>, caller: Seq<char>)
    requires
        m.balances.dom().contains(caller),
    ensures
        m.transfer_outcome(to, m.balances[caller], caller) is Ok,
        to != caller ==> m.after_transfer(to, m.balances[caller], caller).balance(caller) == 0,
        m.balances[caller] < u64::MAX ==> m.transfer_outcome(to, (m.balances[caller] + 1) as u64, caller)
            == Err::<(), TokenError>(TokenError::InsufficientBalance),
{
}

/// A sender that has no balance entry is refused with `InvalidOperation`,
/// whatever the amount, zero included, and the ledger stays as it was.
pub proof fn lemma_unknown_sender_refused(m: TokenModel, to: Seq<char>, amount: u64, caller: Seq<char>)
    requires
        !m.balances.dom().contains(caller),
    ensures
        m.transfer_outcome(to, amount, caller) == Err::<(), TokenError>(TokenError::InvalidOperation),
        m.after_transfer(to, amount, caller) == m,
{
}

} // verus!
