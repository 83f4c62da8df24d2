//! Staking ledger: per-participant stake with the global `total_stake` and
//! `total_issuance` counters, and the user operations that move value between
//! the currency ledger and stake.
use vstd::prelude::*;

use crate::state::{
    account_index, account_keys_unique, is_account_at, lemma_account_index, stake_in, sum_stake,
    Account, Pallet, SubspaceError,
};
use crate::utils::{find_account, rate_limited};

verus! {

/// The currency ledger this registry moves balances through. The host supplies
/// it; `balance_of` and `allows_withdrawal` are its model, which each
/// implementation's methods must follow.
pub trait Currency: Sized {
    /// The spendable balance of `key`.
    spec fn balance_of(&self, key: u64) -> u64;

    /// Whether the ledger lets `amount` leave `key`'s balance, leaving `new_balance`.
    spec fn allows_withdrawal(&self, key: u64, amount: u64, new_balance: u64) -> bool;

    /// Spendable balance of `key`.
    fn free_balance(&self, key: u64) -> (r: u64)
        ensures
            r == self.balance_of(key),
    ;

    /// Whether `amount` may leave `key`'s balance, leaving `new_balance` behind.
    fn ensure_can_withdraw(&self, key: u64, amount: u64, new_balance: u64) -> (r: bool)
        ensures
            r == self.allows_withdrawal(key, amount, new_balance),
    ;

    /// Takes `amount` from `key`'s balance; false, changing nothing, when the
    /// ledger refused.
    fn withdraw(&mut self, key: u64, amount: u64) -> (r: bool)
        ensures
            !r ==> *final(self) == *old(self),
            r ==> old(self).balance_of(key) >= amount && final(self).balance_of(key) == old(
                self,
            ).balance_of(key) - amount,
            r ==> forall|k: u64| k != key ==> final(self).balance_of(k) == old(self).balance_of(k),
    ;

    /// Adds `amount` to `key`'s balance.
    fn deposit(&mut self, key: u64, amount: u64)
        ensures
            final(self).balance_of(key) == old(self).balance_of(key).saturating_add(amount),
            forall|k: u64| k != key ==> final(self).balance_of(k) == old(self).balance_of(k),
    ;
}

/// The ledger after `amount` is credited to `key` (a new entry when it has none).
pub open spec fn credit(s: Seq<Account>, key: u64, amount: u64) -> Seq<Account> {
    let i = account_index(s, key);
    if i >= 0 {
        s.update(i, Account { stake: s[i].stake.saturating_add(amount), ..s[i] })
    } else {
        s.push(Account { key, stake: amount, owner: None, last_tx_block: 0 })
    }
}

/// The ledger after `amount` is taken from `key`'s stake, saturating at zero.
pub open spec fn debit(s: Seq<Account>, key: u64, amount: u64) -> Seq<Account> {
    let i = account_index(s, key);
    if i >= 0 {
        s.update(i, Account { stake: s[i].stake.saturating_sub(amount), ..s[i] })
    } else {
        s
    }
}

/// The ledger after each `(key, amount)` of `t` is credited in order.
pub open spec fn credit_all(s: Seq<Account>, t: Seq<(u64, u64)>) -> Seq<Account>
    decreases t.len(),
{
    if t.len() == 0 {
        s
    } else {
        let p = t.last();
        credit(credit_all(s, t.drop_last()), p.0, p.1)
    }
}

/// A counter after each amount of `t` is added to it, saturating.
pub open spec fn add_all(x: u64, t: Seq<(u64, u64)>) -> u64
    decreases t.len(),
{
    if t.len() == 0 {
        x
    } else {
        add_all(x, t.drop_last()).saturating_add(t.last().1)
    }
}

/// The sum of the amounts of `t`.
pub open spec fn sum_amounts(t: Seq<(u64, u64)>) -> int
    decreases t.len(),
{
    if t.len() == 0 {
        0
    } else {
        sum_amounts(t.drop_last()) + t.last().1
    }
}

pub proof fn lemma_sum_stake_update(s: Seq<Account>, i: int, a: Account)
    requires
        0 <= i < s.len(),
    ensures
        sum_stake(s.update(i, a)) == sum_stake(s) - s[i].stake + a.stake,
    decreases s.len(),
{
    if i < s.len() - 1 {
        lemma_sum_stake_update(s.drop_last(), i, a);
        assert(s.update(i, a).drop_last() =~= s.drop_last().update(i, a));
    } else {
        assert(s.update(i, a).drop_last() =~= s.drop_last());
    }
}

pub proof fn lemma_stake_le_sum(s: Seq<Account>, i: int)
    requires
        0 <= i < s.len(),
    ensures
        s[i].stake <= sum_stake(s),
        0 <= sum_stake(s),
    decreases s.len(),
{
    lemma_sum_stake_nonneg(s.drop_last());
    if i < s.len() - 1 {
        lemma_stake_le_sum(s.drop_last(), i);
    }
}

pub proof fn lemma_sum_stake_nonneg(s: Seq<Account>)
    ensures
        0 <= sum_stake(s),
    decreases s.len(),
{
    if s.len() > 0 {
        lemma_sum_stake_nonneg(s.drop_last());
    }
}

pub proof fn lemma_sum_amounts_prefix(t: Seq<(u64, u64)>, i: int)
    requires
        0 <= i <= t.len(),
    ensures
        sum_amounts(t.take(i)) <= sum_amounts(t),
        0 <= sum_amounts(t.take(i)),
    decreases t.len(),
{
    if t.len() > 0 {
        if i == t.len() {
            assert(t.take(i) =~= t);
            lemma_sum_amounts_prefix(t.drop_last(), i - 1);
            assert(t.drop_last().take(i - 1) =~= t.take(i).drop_last());
        } else {
            lemma_sum_amounts_prefix(t.drop_last(), i);
            assert(t.drop_last().take(i) =~= t.take(i));
        }
    } else {
        assert(t.take(i) =~= t);
    }
}

/// Changing an entry without changing its key keeps every lookup where it was.
pub proof fn lemma_update_lookup(s: Seq<Account>, i: int, a: Account)
    requires
        0 <= i < s.len(),
        a.key == s[i].key,
    ensures
        forall|k: u64| account_index(s.update(i, a), k) == account_index(s, k),
{
    let u = s.update(i, a);
    assert forall|m: int| 0 <= m < s.len() implies u[m].key == s[m].key by {}
    assert forall|k: u64| account_index(u, k) == account_index(s, k) by {
        if exists|j: int| is_account_at(s, k, j) {
            let j = choose|j: int| is_account_at(s, k, j);
            assert(is_account_at(u, k, j));
            lemma_account_index(s, k, j);
            lemma_account_index(u, k, j);
        } else if exists|j: int| is_account_at(u, k, j) {
            let j = choose|j: int| is_account_at(u, k, j);
            assert(is_account_at(s, k, j));
        }
    }
}

/// Appending an entry for a new key keeps every other lookup where it was.
pub proof fn lemma_push_lookup(s: Seq<Account>, a: Account)
    requires
        forall|j: int| 0 <= j < s.len() ==> s[j].key != a.key,
    ensures
        forall|k: u64| k != a.key ==> account_index(s.push(a), k) == account_index(s, k),
        account_index(s.push(a), a.key) == s.len(),
{
    let u = s.push(a);
    assert forall|m: int| 0 <= m < s.len() implies u[m] == s[m] by {}
    assert(is_account_at(u, a.key, s.len() as int));
    lemma_account_index(u, a.key, s.len() as int);
    assert forall|k: u64| k != a.key implies account_index(u, k) == account_index(s, k) by {
        if exists|j: int| is_account_at(s, k, j) {
            let j = choose|j: int| is_account_at(s, k, j);
            assert(is_account_at(u, k, j));
            lemma_account_index(s, k, j);
            lemma_account_index(u, k, j);
        } else if exists|j: int| is_account_at(u, k, j) {
            let j = choose|j: int| is_account_at(u, k, j);
            assert(is_account_at(s, k, j));
        }
    }
}

/// In a ledger without duplicate keys, the entry of `key` is the only one with that key.
pub proof fn lemma_unique_lookup(s: Seq<Account>, key: u64, i: int)
    requires
        account_keys_unique(s),
        0 <= i < s.len(),
        s[i].key == key,
    ensures
        account_index(s, key) == i,
{
    assert(is_account_at(s, key, i));
    lemma_account_index(s, key, i);
}

/// Crediting a stake keeps each other participant's stake, adds (saturating) to
/// `key`'s, and keeps the keys distinct.
pub proof fn lemma_credit_effect(s: Seq<Account>, key: u64, amount: u64)
    requires
        account_keys_unique(s),
    ensures
        account_keys_unique(credit(s, key, amount)),
        stake_in(credit(s, key, amount), key) == stake_in(s, key).saturating_add(amount),
        forall|k: u64| k != key ==> stake_in(credit(s, key, amount), k) == stake_in(s, k),
{
    let i = account_index(s, key);
    let u = credit(s, key, amount);
    if i >= 0 {
        assert(is_account_at(s, key, i));
        lemma_update_lookup(s, i, u[i]);
    } else {
        assert forall|j: int| 0 <= j < s.len() implies s[j].key != key by {
            if s[j].key == key {
                lemma_unique_lookup(s, key, j);
            }
        }
        lemma_push_lookup(s, u.last());
    }
}

/// Debiting a stake keeps each other participant's stake, takes (saturating) from
/// `key`'s, and keeps the keys distinct.
pub proof fn lemma_debit_effect(s: Seq<Account>, key: u64, amount: u64)
    requires
        account_keys_unique(s),
    ensures
        account_keys_unique(debit(s, key, amount)),
        stake_in(debit(s, key, amount), key) == stake_in(s, key).saturating_sub(amount),
        forall|k: u64| k != key ==> stake_in(debit(s, key, amount), k) == stake_in(s, k),
{
    let i = account_index(s, key);
    if i >= 0 {
        assert(is_account_at(s, key, i));
        lemma_update_lookup(s, i, debit(s, key, amount)[i]);
    }
}

/// Crediting `amount` to any participant raises the sum of stakes by exactly
/// `amount`, so the sum keeps matching `total_stake` when the counter does not
/// saturate.
pub proof fn lemma_credit_keeps_accounting(s: Seq<Account>, total: u64, key: u64, amount: u64)
    requires
        account_keys_unique(s),
        sum_stake(s) == total,
        total + amount <= u64::MAX,
    ensures
        sum_stake(credit(s, key, amount)) == total.saturating_add(amount),
{
    let i = account_index(s, key);
    if i >= 0 {
        assert(is_account_at(s, key, i));
        lemma_stake_le_sum(s, i);
        lemma_sum_stake_update(s, i, credit(s, key, amount)[i]);
    } else {
        assert(credit(s, key, amount).drop_last() =~= s);
    }
}

/// Taking at most a participant's own stake lowers the sum of stakes by exactly
/// that amount, so the sum keeps matching `total_stake`.
pub proof fn lemma_debit_keeps_accounting(s: Seq<Account>, total: u64, key: u64, amount: u64)
    requires
        account_keys_unique(s),
        sum_stake(s) == total,
        stake_in(s, key) >= amount,
    ensures
        sum_stake(debit(s, key, amount)) == total.saturating_sub(amount),
{
    let i = account_index(s, key);
    if i >= 0 {
        assert(is_account_at(s, key, i));
        lemma_stake_le_sum(s, i);
        lemma_sum_stake_update(s, i, debit(s, key, amount)[i]);
    }
}

/// Paying out a list of emission tuples raises the sum of stakes and `total_stake`
/// alike, so they stay equal when the counter does not saturate.
pub proof fn lemma_credit_all_keeps_accounting(s: Seq<Account>, total: u64, t: Seq<(u64, u64)>)
    requires
        account_keys_unique(s),
        sum_stake(s) == total,
        total + sum_amounts(t) <= u64::MAX,
    ensures
        account_keys_unique(credit_all(s, t)),
        sum_stake(credit_all(s, t)) == add_all(total, t),
        add_all(total, t) == total + sum_amounts(t),
    decreases t.len(),
{
    if t.len() > 0 {
        let p = t.last();
        assert(sum_amounts(t.drop_last()) >= 0) by {
            lemma_sum_amounts_prefix(t, t.len() - 1);
            assert(t.take(t.len() - 1) =~= t.drop_last());
        }
        lemma_credit_all_keeps_accounting(s, total, t.drop_last());
        let mid = credit_all(s, t.drop_last());
        lemma_credit_effect(mid, p.0, p.1);
        lemma_credit_keeps_accounting(mid, add_all(total, t.drop_last()), p.0, p.1);
    }
}

impl Pallet {
    pub fn get_total_stake(&self) -> (r: u64)
        ensures
            r == self.total_stake,
    {
        self.total_stake
    }

    /// Raises the global stake counter alone, saturating.
    pub fn increase_total_stake(&mut self, increment: u64)
        ensures
            final(self).total_stake == old(self).total_stake.saturating_add(increment),
            final(self).subnets@ == old(self).subnets@,
            final(self).accounts@ == old(self).accounts@,
            final(self).total_issuance == old(self).total_issuance,
            final(self).block_emission == old(self).block_emission,
            final(self).tx_rate_limit == old(self).tx_rate_limit,
    {
        self.total_stake = self.total_stake.saturating_add(increment);
    }

    /// Lowers the global stake counter alone, saturating at zero.
    pub fn decrease_total_stake(&mut self, decrement: u64)
        ensures
            final(self).total_stake == old(self).total_stake.saturating_sub(decrement),
            final(self).subnets@ == old(self).subnets@,
            final(self).accounts@ == old(self).accounts@,
            final(self).total_issuance == old(self).total_issuance,
            final(self).block_emission == old(self).block_emission,
            final(self).tx_rate_limit == old(self).tx_rate_limit,
    {
        self.total_stake = self.total_stake.saturating_sub(decrement);
    }

    /// The stake held by `key`.
    pub fn get_total_stake_for_key(&self, key: u64) -> (r: u64)
        ensures
            r == self.stake_of(key),
    {
        self.get_stake_for_account(key)
    }

    pub fn get_stake_for_account(&self, key: u64) -> (r: u64)
        ensures
            r == self.stake_of(key),
    {
        match find_account(&self.accounts, key) {
            Some(i) => self.accounts[i].stake,
            None => 0,
        }
    }

    /// `key` has an owner record, which only registration creates.
    pub open spec fn account_registered(self, key: u64) -> bool {
        let i = account_index(self.accounts@, key);
        i >= 0 && self.accounts@[i].owner is Some
    }

    pub fn key_account_exists(&self, key: u64) -> (r: bool)
        ensures
            r == self.account_registered(key),
    {
        match find_account(&self.accounts, key) {
            Some(i) => self.accounts[i].owner.is_some(),
            None => false,
        }
    }

    pub fn has_enough_stake(&self, key: u64, decrement: u64) -> (r: bool)
        ensures
            r == (self.stake_of(key) >= decrement),
    {
        self.get_stake_for_account(key) >= decrement
    }

    /// Credits `increment` to `key`'s stake and to both global counters
    /// (newly minted value), all saturating.
    pub fn increase_stake_on_account(&mut self, key: u64, increment: u64)
        requires
            old(self).wf(),
        ensures
            final(self).wf(),
            final(self).accounts@ == credit(old(self).accounts@, key, increment),
            final(self).total_stake == old(self).total_stake.saturating_add(increment),
            final(self).total_issuance == old(self).total_issuance.saturating_add(increment),
            final(self).subnets@ == old(self).subnets@,
            final(self).block_emission == old(self).block_emission,
            final(self).tx_rate_limit == old(self).tx_rate_limit,
            final(self).stake_of(key) == old(self).stake_of(key).saturating_add(increment),
            forall|k: u64| k != key ==> final(self).stake_of(k) == old(self).stake_of(k),
            old(self).stake_accounting() && old(self).total_stake + increment <= u64::MAX
                ==> final(self).stake_accounting(),
    {
        proof {
            lemma_credit_effect(self.accounts@, key, increment);
            if self.stake_accounting() && self.total_stake + increment <= u64::MAX {
                lemma_credit_keeps_accounting(self.accounts@, self.total_stake, key, increment);
            }
        }
        match find_account(&self.accounts, key) {
            Some(i) => {
                let stake = self.accounts[i].stake;
                self.accounts[i].stake = stake.saturating_add(increment);
            },
            None => {
                self.accounts.push(Account { key, stake: increment, owner: None, last_tx_block: 0 });
            },
        }
        self.total_stake = self.total_stake.saturating_add(increment);
        self.total_issuance = self.total_issuance.saturating_add(increment);
        assert(self.accounts@ =~= credit(old(self).accounts@, key, increment));
    }

    /// Takes `decrement` from `key`'s stake, saturating at zero, and takes what
    /// was actually removed from both global counters: no balance ever goes
    /// below zero, and the sum of stakes keeps matching `total_stake`.
    pub fn decrease_stake_on_account(&mut self, key: u64, decrement: u64)
        requires
            old(self).wf(),
        ensures
            final(self).wf(),
            final(self).accounts@ == debit(old(self).accounts@, key, decrement),
            final(self).stake_of(key) == old(self).stake_of(key).saturating_sub(decrement),
            final(self).total_stake == old(self).total_stake.saturating_sub(
                (old(self).stake_of(key) - final(self).stake_of(key)) as u64,
            ),
            final(self).total_issuance == old(self).total_issuance.saturating_sub(
                (old(self).stake_of(key) - final(self).stake_of(key)) as u64,
            ),
            final(self).subnets@ == old(self).subnets@,
            final(self).block_emission == old(self).block_emission,
            final(self).tx_rate_limit == old(self).tx_rate_limit,
            forall|k: u64| k != key ==> final(self).stake_of(k) == old(self).stake_of(k),
            old(self).stake_accounting() ==> final(self).stake_accounting(),
    {
        let ghost s0 = self.accounts@;
        let mut taken: u64 = 0;
        if let Some(i) = find_account(&self.accounts, key) {
            let stake = self.accounts[i].stake;
            taken = if stake < decrement {
                stake
            } else {
                decrement
            };
            self.accounts[i].stake = stake - taken;
        }
        proof {
            assert(self.accounts@ =~= debit(s0, key, decrement));
            assert(debit(s0, key, decrement) =~= debit(s0, key, taken));
            lemma_debit_effect(s0, key, decrement);
            if old(self).stake_accounting() {
                lemma_debit_keeps_accounting(s0, old(self).total_stake, key, taken);
            }
        }
        self.total_stake = self.total_stake.saturating_sub(taken);
        self.total_issuance = self.total_issuance.saturating_sub(taken);
    }

    /// The outcome of the checks of `do_add_stake` before the withdrawal, given
    /// whether the ledger lets `amount` leave `key`'s balance.
    pub open spec fn add_stake_check(
        self,
        key: u64,
        current_block: u64,
        balance_available: bool,
    ) -> Result<(), SubspaceError> {
        if rate_limited(self.last_tx_block_of(key), current_block, self.tx_rate_limit) {
            Err(SubspaceError::TxRateLimitExceeded)
        } else if !balance_available {
            Err(SubspaceError::NotEnoughBalanceToStake)
        } else if !self.account_registered(key) {
            Err(SubspaceError::NotRegistered)
        } else {
            Ok(())
        }
    }

    /// The checks of `do_add_stake` before the withdrawal, first failure wins:
    /// the transaction rate limit (`TxRateLimitExceeded`); the balance can cover
    /// the amount, as the ledger answered (`NotEnoughBalanceToStake`); `key` is
    /// registered (`NotRegistered`).
    pub fn check_add_stake(&self, key: u64, current_block: u64, balance_available: bool) -> (r: Result<
        (),
        SubspaceError,
    >)
        ensures
            r == self.add_stake_check(key, current_block, balance_available),
    {
        if self.exceeds_tx_rate_limit(self.get_last_tx_block(key), current_block) {
            return Err(SubspaceError::TxRateLimitExceeded);
        }
        if !balance_available {
            return Err(SubspaceError::NotEnoughBalanceToStake);
        }
        if !self.key_account_exists(key) {
            return Err(SubspaceError::NotRegistered);
        }
        Ok(())
    }

    /// Moves `amount` from `key`'s currency balance into its stake: the checks of
    /// `check_add_stake` with the ledger's answer on the balance, then the
    /// withdrawal, which the ledger may refuse (`BalanceWithdrawalError`).
    pub fn do_add_stake<C: Currency>(
        &mut self,
        currency: &mut C,
        key: u64,
        amount: u64,
        current_block: u64,
    ) -> (r: Result<(), SubspaceError>)
        requires
            old(self).wf(),
        ensures
            final(self).wf(),
            match old(self).add_stake_check(key, current_block, can_remove(*old(currency), key, amount)) {
                Err(e) => r == Err::<(), SubspaceError>(e),
                Ok(_) => r is Ok || r == Err::<(), SubspaceError>(
                    SubspaceError::BalanceWithdrawalError,
                ),
            },
            r is Err ==> final(self).same_state(*old(self)) && *final(currency) == *old(currency),
            r is Ok ==> final(currency).balance_of(key) == old(currency).balance_of(key) - amount,
            r is Ok ==> forall|k: u64|
                k != key ==> final(currency).balance_of(k) == old(currency).balance_of(k),
            r is Ok ==> {
                &&& final(self).accounts@ == credit(old(self).accounts@, key, amount)
                &&& final(self).total_stake == old(self).total_stake.saturating_add(amount)
                &&& final(self).total_issuance == old(self).total_issuance.saturating_add(amount)
                &&& final(self).subnets@ == old(self).subnets@
                &&& final(self).block_emission == old(self).block_emission
                &&& final(self).tx_rate_limit == old(self).tx_rate_limit
                &&& final(self).stake_of(key) == old(self).stake_of(key).saturating_add(amount)
            },
            old(self).stake_accounting() && old(self).total_stake + amount <= u64::MAX
                ==> final(self).stake_accounting(),
    {
        let balance_available = !self.exceeds_tx_rate_limit(self.get_last_tx_block(key), current_block)
            && can_remove_balance_from_account(currency, key, amount);
        let checked = self.check_add_stake(key, current_block, balance_available);
        if let Err(e) = checked {
            return Err(e);
        }
        if !currency.withdraw(key, amount) {
            return Err(SubspaceError::BalanceWithdrawalError);
        }
        self.increase_stake_on_account(key, amount);
        Ok(())
    }

    /// Moves `amount` from `key`'s stake back to its currency balance.
    ///
    /// Checks, first failure wins: `key` is registered (`NotRegistered`); its stake
    /// covers `amount` (`NotEnoughStaketoWithdraw`); the transaction rate limit
    /// (`TxRateLimitExceeded`).
    pub fn do_remove_stake<C: Currency>(
        &mut self,
        currency: &mut C,
        key: u64,
        amount: u64,
        current_block: u64,
    ) -> (r: Result<(), SubspaceError>)
        requires
            old(self).wf(),
        ensures
            final(self).wf(),
            r == (if !old(self).account_registered(key) {
                Err(SubspaceError::NotRegistered)
            } else if old(self).stake_of(key) < amount {
                Err(SubspaceError::NotEnoughStaketoWithdraw)
            } else if rate_limited(
                old(self).last_tx_block_of(key),
                current_block,
                old(self).tx_rate_limit,
            ) {
                Err(SubspaceError::TxRateLimitExceeded)
            } else {
                Ok(())
            }),
            r is Err ==> final(self).same_state(*old(self)) && *final(currency) == *old(currency),
            r is Ok ==> final(currency).balance_of(key) == old(currency).balance_of(
                key,
            ).saturating_add(amount),
            r is Ok ==> forall|k: u64|
                k != key ==> final(currency).balance_of(k) == old(currency).balance_of(k),
            r is Ok ==> {
                &&& final(self).accounts@ == debit(old(self).accounts@, key, amount)
                &&& final(self).total_stake == old(self).total_stake.saturating_sub(amount)
                &&& final(self).total_issuance == old(self).total_issuance.saturating_sub(amount)
                &&& final(self).subnets@ == old(self).subnets@
                &&& final(self).block_emission == old(self).block_emission
                &&& final(self).tx_rate_limit == old(self).tx_rate_limit
                &&& final(self).stake_of(key) == (old(self).stake_of(key) - amount) as u64
            },
            old(self).stake_accounting() ==> final(self).stake_accounting(),
    {
        if !self.key_account_exists(key) {
            return Err(SubspaceError::NotRegistered);
        }
        if !self.has_enough_stake(key, amount) {
            return Err(SubspaceError::NotEnoughStaketoWithdraw);
        }
        if self.exceeds_tx_rate_limit(self.get_last_tx_block(key), current_block) {
            return Err(SubspaceError::TxRateLimitExceeded);
        }
        self.decrease_stake_on_account(key, amount);
        currency.deposit(key, amount);
        Ok(())
    }
}

/// Whether `amount` may leave a balance of `free_balance`, given the ledger's
/// answer on what would be left.
pub fn withdrawal_allowed(free_balance: u64, amount: u64, ledger_allows: bool) -> (r: bool)
    ensures
        r == (amount <= free_balance && ledger_allows),
{
    amount <= free_balance && ledger_allows
}

/// What is left of `free_balance` once `amount` has left it.
pub fn balance_after_withdrawal(free_balance: u64, amount: u64) -> (r: u64)
    requires
        amount <= free_balance,
    ensures
        r == free_balance - amount,
{
    free_balance - amount
}

/// The ledger `c` lets `amount` leave `key`'s balance: the balance covers it and
/// the ledger allows what would be left.
pub open spec fn can_remove<C: Currency>(c: C, key: u64, amount: u64) -> bool {
    amount <= c.balance_of(key) && c.allows_withdrawal(
        key,
        amount,
        (c.balance_of(key) - amount) as u64,
    )
}

/// Whether the ledger lets `amount` leave `key`'s balance. The ledger is asked
/// about the remainder only when the balance covers `amount`.
pub fn can_remove_balance_from_account<C: Currency>(currency: &C, key: u64, amount: u64) -> (r: bool)
    ensures
        r == can_remove(*currency, key, amount),
{
    let current_balance = currency.free_balance(key);
    let ledger_allows = amount <= current_balance && currency.ensure_can_withdraw(
        key,
        amount,
        balance_after_withdrawal(current_balance, amount),
    );
    withdrawal_allowed(current_balance, amount, ledger_allows)
}

} // verus!
