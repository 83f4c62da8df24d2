use subspace::block_step::tuples_to_drain_this_block;
use subspace::{blocks_until_next_epoch, Pallet};

fn split_evenly(_netuid: u16, amount: u64) -> Vec<(u64, u64)> {
    vec![(1, amount / 2), (2, amount / 2)]
}

fn overpay(_netuid: u16, amount: u64) -> Vec<(u64, u64)> {
    vec![(1, amount), (2, 1)]
}

fn two_participants(block_emission: u64) -> Pallet {
    let mut p = Pallet::new(block_emission);
    p.do_add_network(0, 1).unwrap();
    p.do_set_emission_values(&vec![0], &vec![block_emission]).unwrap();
    p.do_registration(0, 1, 1).unwrap();
    p.do_registration(0, 2, 1).unwrap();
    p
}

fn stake_sum(p: &Pallet) -> u64 {
    p.accounts.iter().map(|a| a.stake).sum()
}

#[test]
fn epoch_countdown_values() {
    assert_eq!(blocks_until_next_epoch(0, 0, 5), 1000);
    assert_eq!(blocks_until_next_epoch(0, 1, 0), 0);
    assert_eq!(blocks_until_next_epoch(0, 1, 1), 1);
    assert_eq!(blocks_until_next_epoch(1, 1, 0), 1);
    assert_eq!(blocks_until_next_epoch(0, 2, 0), 1);
    assert_eq!(blocks_until_next_epoch(1, 2, 0), 0);
    assert_eq!(blocks_until_next_epoch(0, 100, 0), 99);
    assert_eq!(blocks_until_next_epoch(1, 100, 0), 98);
    assert_eq!(blocks_until_next_epoch(3, 7, u64::MAX), 7 - ((u64::MAX as u128 + 4) % 8) as u64);
}

#[test]
fn epoch_countdown_is_periodic_and_staggered() {
    for b in 0..50u64 {
        assert_eq!(blocks_until_next_epoch(3, 4, b), blocks_until_next_epoch(3, 4, b + 5));
        assert_eq!(blocks_until_next_epoch(4, 4, b), blocks_until_next_epoch(3, 4, b + 1));
        assert_eq!(blocks_until_next_epoch(0, 1, b) == 0, b % 2 == 0);
    }
}

#[test]
fn epoch_tuples_are_paid_on_the_next_block() {
    let mut p = two_participants(100);
    p.block_step(2, &split_evenly);
    assert_eq!(p.get_pending_emission(0), 0);
    assert_eq!(p.get_last_mechanism_step_block(0), 2);
    assert_eq!(p.get_blocks_since_last_step(0), 0);
    assert_eq!(p.subnets[0].loaded_emission, vec![(1, 50), (2, 50)]);
    assert_eq!(p.get_total_stake(), 0);

    p.block_step(3, &split_evenly);
    assert!(p.subnets[0].loaded_emission.is_empty());
    assert_eq!(p.get_stake_for_account(1), 50);
    assert_eq!(p.get_stake_for_account(2), 50);
    assert_eq!(p.get_total_stake(), 100);
    assert_eq!(p.get_total_issuance(), 100);
    assert_eq!(p.get_pending_emission(0), 100);
    assert_eq!(p.get_blocks_since_last_step(0), 1);
    assert_eq!(stake_sum(&p), p.get_total_stake());
}

#[test]
fn overclaiming_epoch_result_is_dropped() {
    let mut p = two_participants(100);
    p.set_blocks_since_last_step(0, 4);
    p.block_step(2, &overpay);
    assert_eq!(p.get_pending_emission(0), 0);
    assert!(p.subnets[0].loaded_emission.is_empty());
    assert_eq!(p.get_blocks_since_last_step(0), 4);
    assert_eq!(p.get_last_mechanism_step_block(0), 0);
    p.block_step(3, &overpay);
    assert_eq!(p.get_total_stake(), 0);
}

#[test]
fn disabled_network_accrues_without_epoch() {
    let mut p = Pallet::new(10);
    p.do_add_network(5, 0).unwrap();
    p.do_set_emission_values(&vec![5], &vec![10]).unwrap();
    for b in 1..4u64 {
        p.block_step(b, &split_evenly);
    }
    assert_eq!(p.get_pending_emission(5), 30);
    assert_eq!(p.get_blocks_since_last_step(5), 3);
}

#[test]
fn block_step_resets_registration_counters() {
    let mut p = two_participants(0);
    assert_eq!(p.get_registrations_this_block(0), 2);
    p.set_adjustment_interval(0, 10);
    p.block_step(5, &split_evenly);
    assert_eq!(p.get_registrations_this_block(0), 0);
    assert_eq!(p.get_registrations_this_interval(0), 2);
    assert_eq!(p.get_last_adjustment_block(0), 0);
    p.block_step(10, &split_evenly);
    assert_eq!(p.get_registrations_this_interval(0), 0);
    assert_eq!(p.get_last_adjustment_block(0), 10);
}

#[test]
fn stake_sum_matches_total_over_many_blocks() {
    let mut p = two_participants(1000);
    p.do_registration(0, 3, 1).unwrap();
    p.increase_stake_on_account(3, 17);
    for b in 2..40u64 {
        p.block_step(b, &split_evenly);
        assert_eq!(stake_sum(&p), p.get_total_stake());
    }
    assert!(p.get_total_stake() > 17);
}

#[test]
fn bounded_drain_counts() {
    assert_eq!(tuples_to_drain_this_block(0, 10, 0, 100), 25);
    assert_eq!(tuples_to_drain_this_block(0, 10, 8, 100), 100);
    assert_eq!(tuples_to_drain_this_block(0, 1, 1, 100), 100);
    assert_eq!(tuples_to_drain_this_block(0, 10, 0, 0), 0);
    assert_eq!(tuples_to_drain_this_block(0, 0, 0, 7), 7);
}

#[test]
fn loaded_emission_accessors() {
    let mut p = two_participants(100);
    assert!(!p.has_loaded_emission_tuples(0));
    assert!(p.get_loaded_emission_tuples(0).is_empty());
    p.block_step(2, &split_evenly);
    assert!(p.has_loaded_emission_tuples(0));
    assert_eq!(p.get_loaded_emission_tuples(0), vec![(1, 50), (2, 50)]);
    assert!(!p.has_loaded_emission_tuples(4));
    p.emit_inflation_through_account(2, 5);
    assert_eq!(p.get_stake_for_account(2), 5);
    assert_eq!(p.get_total_issuance(), 5);
}

#[test]
fn manual_phases_match_block_step() {
    let mut p = two_participants(100);
    p.adjust_registration_terms_for_networks(2);
    p.drain_emission();
    p.generate_emission(2, &split_evenly);
    let mut q = two_participants(100);
    q.block_step(2, &split_evenly);
    assert_eq!(p.get_loaded_emission_tuples(0), q.get_loaded_emission_tuples(0));
    assert_eq!(p.get_registrations_this_block(0), q.get_registrations_this_block(0));
}
