use vstd::prelude::*;

use crate::error::TokenError;

verus! {

/// What a ledger holds, as mathematical values.
pub struct TokenModel {
    pub total_supply: u64,
    pub decimals: u8,
    pub locked_until: Option<u64>,
    pub owner: Seq<char>,
    pub balances: Map<Seq<char>, u64>,
}

/// One call `transfer(to, amount, caller)`, as mathematical values.
pub struct TransferCall {
    pub to: Seq<char>,
    pub amount: u64,
    pub caller: Seq<char>,
}

impl TokenModel {
    /// The ledger that `Token::new` builds: the whole supply with the owner.
    pub open spec fn created(total_supply: u64, decimals: u8, owner: Seq<char>) -> TokenModel {
        TokenModel {
            total_supply,
            decimals,
            locked_until: None,
            owner,
            balances: map![owner => total_supply],
        }
    }

    /// The balances are finitely many and add up to the total supply.
    pub open spec fn wf(self) -> bool {
        &&& self.balances.dom().finite()
        &&& map_sum(self.balances) == self.total_supply
    }

    /// Balance of `id`; an identity without an entry holds zero.
    pub open spec fn balance(self, id: Seq<char>) -> nat {
        if self.balances.dom().contains(id) {
            self.balances[id] as nat
        } else {
            0
        }
    }

    /// Whether minting is locked at time `now`.
    pub open spec fn is_locked(self, now: u64) -> bool {
        match self.locked_until {
            Some(t) => now < t,
            None => false,
        }
    }

    /// Refusal shared by the owner-only operations.
    pub open spec fn owner_check(self, caller: Seq<char>) -> Result<(), TokenError> {
        if caller != self.owner {
            Err(TokenError::NotAuthorized)
        } else {
            Ok(())
        }
    }

    /// Outcome of `mint(amount, caller)` when the clock reads `now`.
    pub open spec fn mint_outcome(self, amount: u64, caller: Seq<char>, now: u64) -> Result<(), TokenError> {
        if caller != self.owner {
            Err(TokenError::NotAuthorized)
        } else if self.is_locked(now) {
            Err(TokenError::TransferLocked)
        } else if self.total_supply + amount > u64::MAX {
            Err(TokenError::Overflow)
        } else {
            Ok(())
        }
    }

    /// The ledger after `amount` new tokens went to the owner.
    pub open spec fn minted(self, amount: u64) -> TokenModel {
        TokenModel {
            total_supply: (self.total_supply + amount) as u64,
            balances: self.balances.insert(self.owner, (self.balance(self.owner) + amount) as u64),
            ..self
        }
    }

    /// The ledger after `mint(amount, caller)` at time `now`.
    pub open spec fn after_mint(self, amount: u64, caller: Seq<char>, now: u64) -> TokenModel {
        if self.mint_outcome(amount, caller, now) is Ok {
            self.minted(amount)
        } else {
            self
        }
    }

    /// The ledger after `change_owner(new_owner, caller)`.
    pub open spec fn after_change_owner(self, new_owner: Seq<char>, caller: Seq<char>) -> TokenModel {
        if self.owner_check(caller) is Ok {
            TokenModel { owner: new_owner, ..self }
        } else {
            self
        }
    }

    /// The ledger after `change_decimals(new_decimals, caller)`.
    pub open spec fn after_change_decimals(self, new_decimals: u8, caller: Seq<char>) -> TokenModel {
        if self.owner_check(caller) is Ok {
            TokenModel { decimals: new_decimals, ..self }
        } else {
            self
        }
    }

    /// Outcome of `transfer(to, amount, caller)`.
    pub open spec fn transfer_outcome(self, to: Seq<char>, amount: u64, caller: Seq<char>) -> Result<(), TokenError> {
        if !self.balances.dom().contains(caller) {
            Err(TokenError::InvalidOperation)
        } else if self.balances[caller] < amount {
            Err(TokenError::InsufficientBalance)
        } else {
            Ok(())
        }
    }

    /// The ledger after `amount` moved from `caller` to `to`: the sender is
    /// debited first, then the recipient credited.
    pub open spec fn moved(self, to: Seq<char>, amount: u64, caller: Seq<char>) -> TokenModel {
        let debited = self.balances.insert(caller, (self.balances[caller] - amount) as u64);
        let before = if debited.dom().contains(to) { debited[to] as nat } else { 0 };
        TokenModel { balances: debited.insert(to, (before + amount) as u64), ..self }
    }

    /// The ledger after `transfer(to, amount, caller)`.
    pub open spec fn after_transfer(self, to: Seq<char>, amount: u64, caller: Seq<char>) -> TokenModel {
        if self.transfer_outcome(to, amount, caller) is Ok {
            self.moved(to, amount, caller)
        } else {
            self
        }
    }

    /// The ledger after a sequence of transfers, made in order.
    pub open spec fn after_transfers(self, calls: Seq<TransferCall>) -> TokenModel
        decreases calls.len(),
    {
        if calls.len() == 0 {
            self
        } else {
            let last = calls.last();
            self.after_transfers(calls.drop_last()).after_transfer(last.to, last.amount, last.caller)
        }
    }
}

/// Sum of the values of a finite map of balances.
pub open spec fn map_sum(m: Map<Seq<char>, u64>) -> nat
    decreases m.dom().len(),
    when m.dom().finite()
{
    if m.dom().len() == 0 {
        0
    } else {
        let k = m.dom().choose();
        (m[k] + map_sum(m.remove(k))) as nat
    }
}

/// Taking any one key out of a finite map lowers its sum by that key's value.
pub proof fn lemma_map_sum_remove(m: Map<Seq<char>, u64>, k: Seq<char>)
    requires
        m.dom().finite(),
        m.dom().contains(k),
    ensures
        map_sum(m) == m[k] + map_sum(m.remove(k)),
    decreases m.dom().len(),
{
    let c = m.dom().choose();
    if c != k {
        let mc = m.remove(c);
        let mk = m.remove(k);
        lemma_map_sum_remove(mc, k);
        lemma_map_sum_remove(mk, c);
        assert(mc.remove(k) =~= mk.remove(c));
    }
}

/// Setting one key of a finite map changes its sum by the difference.
pub proof fn lemma_map_sum_insert(m: Map<Seq<char>, u64>, k: Seq<char>, v: u64)
    requires
        m.dom().finite(),
    ensures
        m.insert(k, v).dom().finite(),
        m.dom().contains(k) ==> map_sum(m.insert(k, v)) + m[k] == map_sum(m) + v,
        !m.dom().contains(k) ==> map_sum(m.insert(k, v)) == map_sum(m) + v,
{
    let mi = m.insert(k, v);
    lemma_map_sum_remove(mi, k);
    if m.dom().contains(k) {
        lemma_map_sum_remove(m, k);
        assert(mi.remove(k) =~= m.remove(k));
    } else {
        assert(mi.remove(k) =~= m);
    }
}

/// The values at two distinct keys together never exceed the sum.
pub proof fn lemma_map_sum_two(m: Map<Seq<char>, u64>, a: Seq<char>, b: Seq<char>)
    requires
        m.dom().finite(),
        m.dom().contains(a),
        a != b,
    ensures
        m[a] + (if m.dom().contains(b) { m[b] as nat } else { 0 }) <= map_sum(m),
{
    lemma_map_sum_remove(m, a);
    if m.dom().contains(b) {
        lemma_map_sum_remove(m.remove(a), b);
    }
}

/// No single balance exceeds the sum.
pub proof fn lemma_map_sum_bounds(m: Map<Seq<char>, u64>, k: Seq<char>)
    requires
        m.dom().finite(),
        m.dom().contains(k),
    ensures
        m[k] <= map_sum(m),
{
    lemma_map_sum_remove(m, k);
}

} // verus!
