use subspace::staking::{balance_after_withdrawal, can_remove_balance_from_account, withdrawal_allowed};
use subspace::{Currency, Pallet, SubspaceError};

/// An in-memory currency ledger.
struct Ledger {
    balances: Vec<(u64, u64)>,
    locked: bool,
    refuse_withdrawals: bool,
}

impl Ledger {
    fn with(key: u64, balance: u64) -> Ledger {
        Ledger { balances: vec![(key, balance)], locked: false, refuse_withdrawals: false }
    }

    fn balance(&self, key: u64) -> u64 {
        self.balances.iter().find(|(k, _)| *k == key).map(|(_, b)| *b).unwrap_or(0)
    }
}

impl Currency for Ledger {
    fn balance_of(&self, key: u64) -> u64 {
        self.balance(key)
    }

    fn allows_withdrawal(&self, _key: u64, _amount: u64, _new_balance: u64) -> bool {
        !self.locked
    }

    fn free_balance(&self, key: u64) -> u64 {
        self.balance(key)
    }

    fn ensure_can_withdraw(&self, _key: u64, _amount: u64, _new_balance: u64) -> bool {
        !self.locked
    }

    fn withdraw(&mut self, key: u64, amount: u64) -> bool {
        if self.refuse_withdrawals {
            return false;
        }
        for entry in self.balances.iter_mut() {
            if entry.0 == key && entry.1 >= amount {
                entry.1 -= amount;
                return true;
            }
        }
        false
    }

    fn deposit(&mut self, key: u64, amount: u64) {
        for entry in self.balances.iter_mut() {
            if entry.0 == key {
                entry.1 = entry.1.saturating_add(amount);
                return;
            }
        }
        self.balances.push((key, amount));
    }
}

const A: u64 = 7;

fn registered(key: u64) -> Pallet {
    let mut p = Pallet::new(0);
    p.do_add_network(1, 1).unwrap();
    p.do_registration(1, key, 1).unwrap();
    p
}

#[test]
fn remove_more_than_staked_fails_and_keeps_stake() {
    let mut p = registered(A);
    let mut ledger = Ledger::with(A, 5000);
    assert_eq!(p.do_add_stake(&mut ledger, A, 1000, 2), Ok(()));
    assert_eq!(p.get_stake_for_account(A), 1000);
    assert_eq!(
        p.do_remove_stake(&mut ledger, A, 2000, 3),
        Err(SubspaceError::NotEnoughStaketoWithdraw)
    );
    assert_eq!(p.get_stake_for_account(A), 1000);
    assert_eq!(p.get_total_stake(), 1000);
    assert_eq!(ledger.balance(A), 4000);
}

#[test]
fn add_then_remove_stake_moves_balance() {
    let mut p = registered(A);
    let mut ledger = Ledger::with(A, 5000);
    p.do_add_stake(&mut ledger, A, 1200, 2).unwrap();
    assert_eq!(p.get_total_stake_for_key(A), 1200);
    assert_eq!(p.get_total_issuance(), 1200);
    p.do_remove_stake(&mut ledger, A, 200, 3).unwrap();
    assert_eq!(p.get_stake_for_account(A), 1000);
    assert_eq!(p.get_total_stake(), 1000);
    assert_eq!(p.get_total_issuance(), 1000);
    assert_eq!(ledger.balance(A), 4000);
}

#[test]
fn add_stake_needs_balance() {
    let mut p = registered(A);
    let mut ledger = Ledger::with(A, 10);
    assert_eq!(
        p.do_add_stake(&mut ledger, A, 11, 2),
        Err(SubspaceError::NotEnoughBalanceToStake)
    );
    ledger.locked = true;
    assert_eq!(
        p.do_add_stake(&mut ledger, A, 5, 2),
        Err(SubspaceError::NotEnoughBalanceToStake)
    );
    assert_eq!(p.get_total_stake(), 0);
}

#[test]
fn add_stake_needs_registration() {
    let mut p = Pallet::new(0);
    let mut ledger = Ledger::with(A, 100);
    assert_eq!(p.do_add_stake(&mut ledger, A, 50, 2), Err(SubspaceError::NotRegistered));
    assert_eq!(ledger.balance(A), 100);
}

#[test]
fn add_stake_reports_refused_withdrawal() {
    let mut p = registered(A);
    let mut ledger = Ledger::with(A, 100);
    ledger.refuse_withdrawals = true;
    assert_eq!(p.do_add_stake(&mut ledger, A, 50, 2), Err(SubspaceError::BalanceWithdrawalError));
    assert_eq!(p.get_stake_for_account(A), 0);
}

#[test]
fn staking_respects_tx_rate_limit() {
    let mut p = registered(A);
    let mut ledger = Ledger::with(A, 100);
    p.set_tx_rate_limit(10);
    p.set_last_tx_block(A, 5);
    assert_eq!(p.get_last_tx_block(A), 5);
    assert_eq!(p.do_add_stake(&mut ledger, A, 50, 15), Err(SubspaceError::TxRateLimitExceeded));
    assert_eq!(p.do_add_stake(&mut ledger, A, 50, 16), Ok(()));
    assert_eq!(p.do_remove_stake(&mut ledger, A, 10, 15), Err(SubspaceError::TxRateLimitExceeded));
}

#[test]
fn remove_stake_needs_registration() {
    let mut p = Pallet::new(0);
    let mut ledger = Ledger::with(A, 100);
    assert_eq!(p.do_remove_stake(&mut ledger, A, 0, 2), Err(SubspaceError::NotRegistered));
}

#[test]
fn decrease_stake_saturates_at_zero() {
    let mut p = registered(A);
    p.increase_stake_on_account(A, 30);
    p.decrease_stake_on_account(A, 100);
    assert_eq!(p.get_stake_for_account(A), 0);
    assert_eq!(p.get_total_stake(), 0);
    assert_eq!(p.get_total_issuance(), 0);
}

#[test]
fn increase_stake_credits_unknown_key() {
    let mut p = Pallet::new(0);
    p.increase_stake_on_account(99, 40);
    p.increase_stake_on_account(98, 2);
    p.increase_stake_on_account(99, 1);
    assert_eq!(p.get_stake_for_account(99), 41);
    assert_eq!(p.get_stake_for_account(98), 2);
    assert_eq!(p.get_total_stake(), 43);
    assert!(!p.key_account_exists(99));
    assert!(p.has_enough_stake(99, 41));
    assert!(!p.has_enough_stake(99, 42));
}

#[test]
fn total_stake_counter_saturates() {
    let mut p = Pallet::new(0);
    p.increase_total_stake(u64::MAX - 1);
    p.increase_total_stake(5);
    assert_eq!(p.get_total_stake(), u64::MAX);
    p.decrease_total_stake(u64::MAX);
    p.decrease_total_stake(1);
    assert_eq!(p.get_total_stake(), 0);
}

#[test]
fn burned_registration_debits_and_burns() {
    let mut p = Pallet::new(0);
    p.do_add_network(1, 1).unwrap();
    p.increase_stake_on_account(50, 500);
    assert_eq!(p.get_total_issuance(), 500);
    let mut ledger = Ledger::with(A, 100);
    assert_eq!(p.do_burned_registration(&mut ledger, 1, A, 3, 30), Ok(0));
    assert_eq!(ledger.balance(A), 70);
    assert_eq!(p.get_total_issuance(), 470);
    assert!(p.key_account_exists(A));
    assert_eq!(p.get_module(1, 0).unwrap().key, A);
}

#[test]
fn burned_registration_errors() {
    let mut p = Pallet::new(0);
    p.do_add_network(1, 1).unwrap();
    let mut ledger = Ledger::with(A, 100);
    assert_eq!(
        p.do_burned_registration(&mut ledger, 2, A, 3, 30),
        Err(SubspaceError::NetworkDoesNotExist)
    );
    assert_eq!(
        p.do_burned_registration(&mut ledger, 1, A, 3, 101),
        Err(SubspaceError::NotEnoughBalanceToRegister)
    );
    ledger.refuse_withdrawals = true;
    assert_eq!(
        p.do_burned_registration(&mut ledger, 1, A, 3, 10),
        Err(SubspaceError::BalanceWithdrawalError)
    );
    assert_eq!(p.get_network_n(1), 0);
    assert_eq!(ledger.balance(A), 100);
    ledger.refuse_withdrawals = false;
    p.do_burned_registration(&mut ledger, 1, A, 3, 10).unwrap();
    assert_eq!(
        p.do_burned_registration(&mut ledger, 1, A, 3, 10),
        Err(SubspaceError::AlreadyRegistered)
    );
    assert_eq!(ledger.balance(A), 90);
}

#[test]
fn registration_check_reports_first_failure() {
    let mut p = Pallet::new(0);
    assert_eq!(p.check_registration(1, A), Some(SubspaceError::NetworkDoesNotExist));
    p.do_add_network(1, 1).unwrap();
    assert_eq!(p.check_registration(1, A), None);
    p.do_registration(1, A, 1).unwrap();
    assert_eq!(p.check_registration(1, A), Some(SubspaceError::AlreadyRegistered));
    p.set_max_registrations_per_block(1, 1);
    assert_eq!(p.check_registration(1, A), Some(SubspaceError::TooManyRegistrationsThisBlock));
}

#[test]
fn add_stake_check_on_given_ledger_answers() {
    let mut p = registered(A);
    assert_eq!(p.check_add_stake(A, 2, true), Ok(()));
    assert_eq!(p.check_add_stake(A, 2, false), Err(SubspaceError::NotEnoughBalanceToStake));
    assert_eq!(p.check_add_stake(99, 2, true), Err(SubspaceError::NotRegistered));
    p.set_tx_rate_limit(10);
    p.set_last_tx_block(A, 1);
    assert_eq!(p.check_add_stake(A, 2, false), Err(SubspaceError::TxRateLimitExceeded));
    assert_eq!(p.check_add_stake(A, 12, true), Ok(()));
}

#[test]
fn oversized_decrease_takes_only_the_stake() {
    let mut p = Pallet::new(0);
    p.increase_stake_on_account(1, 5);
    p.increase_stake_on_account(2, 5);
    assert_eq!(p.get_total_stake(), 10);
    p.decrease_stake_on_account(1, 7);
    assert_eq!(p.get_stake_for_account(1), 0);
    assert_eq!(p.get_stake_for_account(2), 5);
    assert_eq!(p.get_total_stake(), 5);
    assert_eq!(p.get_total_issuance(), 5);
    p.decrease_stake_on_account(3, 4);
    assert_eq!(p.get_total_stake(), 5);
}

#[test]
fn failed_stake_operations_leave_ledger_alone() {
    let mut p = registered(A);
    let mut ledger = Ledger::with(A, 5000);
    p.do_add_stake(&mut ledger, A, 1000, 2).unwrap();
    assert_eq!(p.do_remove_stake(&mut ledger, A, 2000, 3), Err(SubspaceError::NotEnoughStaketoWithdraw));
    assert_eq!(ledger.balance(A), 4000);
    assert_eq!(p.do_add_stake(&mut ledger, A, 4001, 3), Err(SubspaceError::NotEnoughBalanceToStake));
    assert_eq!(ledger.balance(A), 4000);
    assert_eq!(p.get_stake_for_account(A), 1000);
}

#[test]
fn ledger_decision_helpers() {
    assert!(withdrawal_allowed(10, 10, true));
    assert!(!withdrawal_allowed(10, 11, true));
    assert!(!withdrawal_allowed(10, 3, false));
    assert_eq!(balance_after_withdrawal(10, 3), 7);
    let mut ledger = Ledger::with(A, 10);
    assert!(can_remove_balance_from_account(&ledger, A, 10));
    assert!(!can_remove_balance_from_account(&ledger, A, 11));
    ledger.locked = true;
    assert!(!can_remove_balance_from_account(&ledger, A, 1));
}
