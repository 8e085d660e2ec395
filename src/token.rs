use vstd::prelude::*;

use crate::clock::get_current_timestamp;
use crate::error::TokenError;
use crate::model::{
    lemma_map_sum_bounds, lemma_map_sum_insert, lemma_map_sum_two, map_sum, TokenModel,
};

verus! {

/// Balances kept as `(holder, amount)` entries, read as a map.
spec fn entries_map(s: Seq<(String, u64)>) -> Map<Seq<char>, u64>
    decreases s.len(),
{
    if s.len() == 0 {
        Map::empty()
    } else {
        entries_map(s.drop_last()).insert(s.last().0@, s.last().1)
    }
}

/// No holder has two entries.
spec fn keys_unique(s: Seq<(String, u64)>) -> bool {
    forall|i: int, j: int| 0 <= i < j < s.len() ==> s[i].0@ != s[j].0@
}

proof fn lemma_entries_finite(s: Seq<(String, u64)>)
    ensures
        entries_map(s).dom().finite(),
    decreases s.len(),
{
    if s.len() > 0 {
        lemma_entries_finite(s.drop_last());
    }
}

proof fn lemma_entries_contains(s: Seq<(String, u64)>, k: Seq<char>)
    ensures
        entries_map(s).dom().contains(k) <==> exists|i: int| 0 <= i < s.len() && s[i].0@ == k,
    decreases s.len(),
{
    if s.len() > 0 {
        let d = s.drop_last();
        lemma_entries_contains(d, k);
        if entries_map(s).dom().contains(k) && k != s.last().0@ {
            let i = choose|i: int| 0 <= i < d.len() && d[i].0@ == k;
            assert(s[i] == d[i]);
        }
        if exists|i: int| 0 <= i < s.len() && s[i].0@ == k {
            let i = choose|i: int| 0 <= i < s.len() && s[i].0@ == k;
            if i < d.len() {
                assert(d[i] == s[i]);
            }
        }
    }
}

proof fn lemma_entries_index(s: Seq<(String, u64)>, i: int)
    requires
        keys_unique(s),
        0 <= i < s.len(),
    ensures
        entries_map(s).dom().contains(s[i].0@),
        entries_map(s)[s[i].0@] == s[i].1,
    decreases s.len(),
{
    if i < s.len() - 1 {
        let d = s.drop_last();
        assert(d[i] == s[i]);
        lemma_entries_index(d, i);
    }
}

proof fn lemma_entries_update(s: Seq<(String, u64)>, i: int, e: (String, u64))
    requires
        keys_unique(s),
        0 <= i < s.len(),
        e.0@ == s[i].0@,
    ensures
        keys_unique(s.update(i, e)),
        entries_map(s.update(i, e)) == entries_map(s).insert(e.0@, e.1),
    decreases s.len(),
{
    let u = s.update(i, e);
    assert forall|a: int, b: int| 0 <= a < b < u.len() implies u[a].0@ != u[b].0@ by {
        assert(u[a].0@ == s[a].0@ && u[b].0@ == s[b].0@);
    }
    if i == s.len() - 1 {
        assert(u.drop_last() =~= s.drop_last());
        assert(entries_map(u) =~= entries_map(s).insert(e.0@, e.1));
    } else {
        let d = s.drop_last();
        assert(u.drop_last() =~= d.update(i, e));
        assert(keys_unique(d));
        lemma_entries_update(d, i, e);
        assert(s[i].0@ != s.last().0@);
        assert(entries_map(u) =~= entries_map(s).insert(e.0@, e.1));
    }
}

/// Index of the entry of `id`, if it has one.
fn find_entry(entries: &Vec<(String, u64)>, id: &String) -> (r: Option<usize>)
    ensures
        match r {
            Some(i) => i < entries@.len() && entries@[i as int].0@ == id@,
            None => forall|i: int| 0 <= i < entries@.len() ==> entries@[i].0@ != id@,
        },
{
    let mut i: usize = 0;
    while i < entries.len()
        invariant
            i <= entries@.len(),
            forall|j: int| 0 <= j < i ==> entries@[j].0@ != id@,
        decreases entries@.len() - i,
    {
        if entries[i].0 == *id {
            return Some(i);
        }
        i = i + 1;
    }
    None
}

/// Adds `amount` to the entry of `id`, creating it with `amount` if absent.
fn credit(entries: &mut Vec<(String, u64)>, id: String, amount: u64)
    requires
        keys_unique(old(entries)@),
        (if entries_map(old(entries)@).dom().contains(id@) {
            entries_map(old(entries)@)[id@] as nat
        } else {
            0
        }) + amount <= u64::MAX,
    ensures
        keys_unique(final(entries)@),
        entries_map(final(entries)@) == entries_map(old(entries)@).insert(
            id@,
            ((if entries_map(old(entries)@).dom().contains(id@) {
                entries_map(old(entries)@)[id@] as nat
            } else {
                0
            }) + amount) as u64,
        ),
{
    proof {
        lemma_entries_contains(entries@, id@);
    }
    match find_entry(entries, &id) {
        Some(i) => {
            proof {
                lemma_entries_index(entries@, i as int);
            }
            let held = entries[i].1;
            let e = (id, held + amount);
            proof {
                lemma_entries_update(entries@, i as int, e);
            }
            entries.set(i, e);
        },
        None => {
            let ghost before = entries@;
            entries.push((id, amount));
            proof {
                assert(entries@.drop_last() =~= before);
            }
        },
    }
}

/// A fungible-token ledger: a total supply spread over holder balances, an
/// owner who alone may mint and administer, and an optional lock on minting.
pub struct Token {
    total_supply: u64,
    decimals: u8,
    locked_until: Option<u64>,
    owner: String,
    balances: Vec<(String, u64)>,
    /// Reserved for delegated spending, which no operation implements: it
    /// starts empty and is never read or written.
    #[allow(dead_code)]
    allowed: Vec<(String, u64)>,
}

impl View for Token {
    type V = TokenModel;

    closed spec fn view(&self) -> TokenModel {
        TokenModel {
            total_supply: self.total_supply,
            decimals: self.decimals,
            locked_until: self.locked_until,
            owner: self.owner@,
            balances: entries_map(self.balances@),
        }
    }
}

impl Token {
    /// Every holder has one entry, and the balances add up to the total
    /// supply.
    pub closed spec fn wf(&self) -> bool {
        &&& keys_unique(self.balances@)
        &&& self@.wf()
    }

    /// A new ledger whose whole supply belongs to `owner`, unlocked.
    pub fn new(total_supply: u64, decimals: u8, owner: String) -> (t: Token)
        ensures
            t.wf(),
            t@ == TokenModel::created(total_supply, decimals, owner@),
    {
        Token::with_lock_until(total_supply, decimals, owner, None)
    }

    /// A new ledger whose whole supply belongs to `owner`, with minting
    /// locked until `locked_until` when that is given.
    pub fn with_lock_until(total_supply: u64, decimals: u8, owner: String, locked_until: Option<u64>) -> (t: Token)
        ensures
            t.wf(),
            t@ == (TokenModel { locked_until, ..TokenModel::created(total_supply, decimals, owner@) }),
    {
        let mut balances: Vec<(String, u64)> = Vec::new();
        let holder = owner.clone();
        balances.push((holder, total_supply));
        let t = Token { total_supply, decimals, locked_until, owner, balances, allowed: Vec::new() };
        proof {
            let m = t@.balances;
            assert(t.balances@.drop_last() =~= Seq::<(String, u64)>::empty());
            assert(t.balances@.last().0@ == owner@);
            assert(entries_map(Seq::<(String, u64)>::empty()) == Map::<Seq<char>, u64>::empty());
            assert(m =~= map![owner@ => total_supply]);
            lemma_entries_finite(t.balances@);
            lemma_map_sum_insert(Map::<Seq<char>, u64>::empty(), owner@, total_supply);
            assert(Map::<Seq<char>, u64>::empty().insert(owner@, total_supply) =~= m);
            assert(map_sum(Map::<Seq<char>, u64>::empty()) == 0) by {
                assert(Map::<Seq<char>, u64>::empty().dom() =~= Set::empty());
            }
        }
        t
    }

    /// Mints `amount` new tokens to the owner, with the clock reading `now`.
    ///
    /// Refused with `NotAuthorized` unless `caller` is the owner, then with
    /// `TransferLocked` while `now` is before the lock time, then with
    /// `Overflow` where the total supply would pass `u64::MAX`.
    pub fn mint_at(&mut self, amount: u64, caller: String, now: u64) -> (r: Result<(), TokenError>)
        requires
            old(self).wf(),
        ensures
            final(self).wf(),
            r == old(self)@.mint_outcome(amount, caller@, now),
            final(self)@ == old(self)@.after_mint(amount, caller@, now),
    {
        if !(self.owner == caller) {
            return Err(TokenError::NotAuthorized);
        }
        if let Some(lock_time) = self.locked_until {
            if now < lock_time {
                return Err(TokenError::TransferLocked);
            }
        }
        if amount > u64::MAX - self.total_supply {
            return Err(TokenError::Overflow);
        }
        let ghost before = self@;
        proof {
            lemma_entries_finite(self.balances@);
            if before.balances.dom().contains(before.owner) {
                lemma_map_sum_bounds(before.balances, before.owner);
            }
            lemma_map_sum_insert(before.balances, before.owner, (before.balance(before.owner) + amount) as u64);
        }
        let holder = self.owner.clone();
        credit(&mut self.balances, holder, amount);
        self.total_supply = self.total_supply + amount;
        proof {
            assert(self@ == before.minted(amount));
        }
        Ok(())
    }

    /// Mints `amount` new tokens to the owner, reading the system clock for
    /// the lock.
    ///
    /// The result is that of `mint_at` for some reading of the clock; where
    /// minting is not locked, the reading makes no difference.
    pub fn mint(&mut self, amount: u64, caller: String) -> (r: Result<(), TokenError>)
        requires
            old(self).wf(),
        ensures
            final(self).wf(),
            exists|now: u64|
                r == old(self)@.mint_outcome(amount, caller@, now)
                    && final(self)@ == old(self)@.after_mint(amount, caller@, now),
    {
        let now = get_current_timestamp();
        self.mint_at(amount, caller, now)
    }

    /// Hands ownership to `new_owner`; only the owner may. Balances stay.
    pub fn change_owner(&mut self, new_owner: String, caller: String) -> (r: Result<(), TokenError>)
        requires
            old(self).wf(),
        ensures
            final(self).wf(),
            r == old(self)@.owner_check(caller@),
            final(self)@ == old(self)@.after_change_owner(new_owner@, caller@),
    {
        if !(self.owner == caller) {
            return Err(TokenError::NotAuthorized);
        }
        self.owner = new_owner;
        Ok(())
    }

    /// Sets the display precision to `new_decimals`; only the owner may.
    pub fn change_decimals(&mut self, new_decimals: u8, caller: String) -> (r: Result<(), TokenError>)
        requires
            old(self).wf(),
        ensures
            final(self).wf(),
            r == old(self)@.owner_check(caller@),
            final(self)@ == old(self)@.after_change_decimals(new_decimals, caller@),
    {
        if !(self.owner == caller) {
            return Err(TokenError::NotAuthorized);
        }
        self.decimals = new_decimals;
        Ok(())
    }

    /// Moves `amount` from `caller` to `to`, creating the entry of `to` if it
    /// has none.
    ///
    /// Refused with `InvalidOperation` where `caller` has no entry, and with
    /// `InsufficientBalance` where it holds less than `amount`. The total
    /// supply does not change.
    pub fn transfer(&mut self, to: String, amount: u64, caller: String) -> (r: Result<(), TokenError>)
        requires
            old(self).wf(),
        ensures
            final(self).wf(),
            r == old(self)@.transfer_outcome(to@, amount, caller@),
            final(self)@ == old(self)@.after_transfer(to@, amount, caller@),
            final(self)@.total_supply == old(self)@.total_supply,
            map_sum(final(self)@.balances) == final(self)@.total_supply,
    {
        proof {
            lemma_entries_contains(self.balances@, caller@);
        }
        match find_entry(&self.balances, &caller) {
            None => Err(TokenError::InvalidOperation),
            Some(i) => {
                let ghost before = self@;
                proof {
                    lemma_entries_index(self.balances@, i as int);
                    lemma_entries_finite(self.balances@);
                }
                let held = self.balances[i].1;
                if held < amount {
                    return Err(TokenError::InsufficientBalance);
                }
                let e = (caller, held - amount);
                proof {
                    lemma_entries_update(self.balances@, i as int, e);
                    lemma_map_sum_insert(before.balances, caller@, (held - amount) as u64);
                    if to@ != caller@ {
                        lemma_map_sum_two(before.balances, caller@, to@);
                    }
                }
                self.balances.set(i, e);
                let ghost debited = entries_map(self.balances@);
                proof {
                    lemma_entries_finite(self.balances@);
                    let credited = (if debited.dom().contains(to@) { debited[to@] as nat } else { 0 }) + amount;
                    lemma_map_sum_insert(debited, to@, credited as u64);
                }
                credit(&mut self.balances, to, amount);
                proof {
                    assert(self@ == before.moved(to@, amount, caller@));
                }
                Ok(())
            },
        }
    }

    /// Total number of tokens in existence.
    pub fn total_supply(&self) -> (r: u64)
        ensures
            r == self@.total_supply,
    {
        self.total_supply
    }

    /// Display precision; no arithmetic depends on it.
    pub fn decimals(&self) -> (r: u8)
        ensures
            r == self@.decimals,
    {
        self.decimals
    }

    /// Time before which minting is refused, if any.
    pub fn locked_until(&self) -> (r: Option<u64>)
        ensures
            r == self@.locked_until,
    {
        self.locked_until
    }

    /// The identity allowed to mint and administer.
    pub fn owner(&self) -> (r: &String)
        ensures
            r@ == self@.owner,
    {
        &self.owner
    }

    /// Balance of `id`, or `None` where it has never held an entry.
    pub fn balance_of(&self, id: &String) -> (r: Option<u64>)
        requires
            self.wf(),
        ensures
            r == (if self@.balances.dom().contains(id@) {
                Some(self@.balances[id@])
            } else {
                None
            }),
    {
        proof {
            lemma_entries_contains(self.balances@, id@);
        }
        match find_entry(&self.balances, id) {
            Some(i) => {
                proof {
                    lemma_entries_index(self.balances@, i as int);
                }
                Some(self.balances[i].1)
            },
            None => None,
        }
    }
}

} // verus!
