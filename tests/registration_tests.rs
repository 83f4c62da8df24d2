use subspace::{Pallet, SubspaceError};

const A: u64 = 101;
const B: u64 = 102;
const C: u64 = 103;

fn network_with_capacity(netuid: u16, tempo: u16, capacity: u16) -> Pallet {
    let mut p = Pallet::new(0);
    p.do_add_network(netuid, tempo).unwrap();
    p.set_max_allowed_uids(netuid, capacity);
    p
}

#[test]
fn full_network_evicts_lowest_uid_on_equal_scores() {
    let mut p = network_with_capacity(1, 1, 2);
    assert_eq!(p.do_registration(1, A, 10), Ok(0));
    assert_eq!(p.do_registration(1, B, 10), Ok(1));
    assert_eq!(p.get_network_n(1), 2);
    assert_eq!(p.do_registration(1, C, 10), Ok(0));
    assert_eq!(p.get_network_n(1), 2);
    assert_eq!(p.get_module(1, 0).unwrap().key, C);
    assert_eq!(p.get_module(1, 1).unwrap().key, B);
    assert_eq!(p.get_registrations_this_block(1), 3);
    assert_eq!(p.get_registrations_this_interval(1), 3);
}

#[test]
fn registration_on_missing_network_fails() {
    let mut p = Pallet::new(0);
    assert_eq!(p.do_registration(7, A, 1), Err(SubspaceError::NetworkDoesNotExist));
}

#[test]
fn registration_respects_per_block_cap() {
    let mut p = network_with_capacity(1, 1, 10);
    p.set_max_registrations_per_block(1, 1);
    assert_eq!(p.do_registration(1, A, 1), Ok(0));
    assert_eq!(p.do_registration(1, B, 1), Err(SubspaceError::TooManyRegistrationsThisBlock));
    assert_eq!(p.get_network_n(1), 1);
}

#[test]
fn registration_twice_fails() {
    let mut p = network_with_capacity(1, 1, 10);
    assert_eq!(p.do_registration(1, A, 1), Ok(0));
    assert_eq!(p.do_registration(1, A, 1), Err(SubspaceError::AlreadyRegistered));
    assert_eq!(p.get_registrations_this_block(1), 1);
}

#[test]
fn zero_capacity_network_refuses_registration() {
    let mut p = network_with_capacity(1, 1, 0);
    assert_eq!(p.do_registration(1, A, 1), Err(SubspaceError::NetworkDoesNotExist));
}

#[test]
fn registration_creates_owner_record() {
    let mut p = network_with_capacity(1, 1, 4);
    assert!(!p.key_account_exists(A));
    p.do_registration(1, A, 3).unwrap();
    assert!(p.key_account_exists(A));
    assert_eq!(p.get_module_block_at_registration(1, 0), 3);
    assert_eq!(p.get_pruning_score_for_uid(1, 0), u16::MAX);
    assert!(p.get_active_for_uid(1, 0));
}

#[test]
fn uids_stay_below_capacity_and_distinct() {
    let mut p = network_with_capacity(2, 1, 3);
    p.set_max_registrations_per_block(2, 100);
    for key in 0..10u64 {
        let uid = p.do_registration(2, 1000 + key, 5).unwrap();
        assert!(uid < 3);
    }
    let keys: Vec<u64> = p.get_modules(2).iter().map(|m| m.key).collect();
    assert_eq!(keys.len(), 3);
    assert!(keys[0] != keys[1] && keys[1] != keys[2] && keys[0] != keys[2]);
}

#[test]
fn prune_prefers_lowest_score_out_of_immunity() {
    let mut p = network_with_capacity(1, 1, 3);
    p.set_immunity_period(1, 10);
    p.do_registration(1, A, 1).unwrap();
    p.do_registration(1, B, 1).unwrap();
    p.do_registration(1, C, 100).unwrap();
    p.set_pruning_score_for_uid(1, 0, 50);
    p.set_pruning_score_for_uid(1, 1, 40);
    p.set_pruning_score_for_uid(1, 2, 1);
    // uid 2 is still immune at block 105; uid 1 has the lowest score of the others.
    assert_eq!(p.get_module_to_prune(1, 105), 1);
    assert_eq!(p.get_pruning_score_for_uid(1, 1), u16::MAX);
    // The next call no longer picks uid 1.
    assert_eq!(p.get_module_to_prune(1, 105), 0);
}

#[test]
fn prune_falls_back_to_immune_slots() {
    let mut p = network_with_capacity(1, 1, 3);
    p.set_immunity_period(1, 1000);
    p.do_registration(1, A, 1).unwrap();
    p.do_registration(1, B, 1).unwrap();
    p.set_pruning_score_for_uid(1, 0, 9);
    p.set_pruning_score_for_uid(1, 1, 3);
    assert_eq!(p.get_module_to_prune(1, 2), 1);
}

#[test]
fn prune_ties_go_to_lowest_uid() {
    let mut p = network_with_capacity(1, 1, 3);
    p.set_immunity_period(1, 0);
    p.do_registration(1, A, 1).unwrap();
    p.do_registration(1, B, 1).unwrap();
    p.do_registration(1, C, 1).unwrap();
    p.set_pruning_score_for_uid(1, 0, 7);
    p.set_pruning_score_for_uid(1, 1, 5);
    p.set_pruning_score_for_uid(1, 2, 5);
    assert_eq!(p.get_module_to_prune(1, 9), 1);
}

#[test]
fn prune_on_empty_network_returns_zero() {
    let mut p = network_with_capacity(1, 1, 3);
    assert_eq!(p.get_module_to_prune(1, 9), 0);
    assert_eq!(p.get_module_to_prune(8, 9), 0);
}

#[test]
fn eviction_replaces_scores_with_defaults() {
    let mut p = network_with_capacity(1, 1, 1);
    p.set_immunity_period(1, 0);
    p.do_registration(1, A, 1).unwrap();
    p.set_pruning_score_for_uid(1, 0, 4);
    p.set_last_update_for_uid(1, 0, 77);
    p.set_active_for_uid(1, 0, false);
    p.set_max_registrations_per_block(1, 5);
    assert_eq!(p.do_registration(1, B, 20), Ok(0));
    assert_eq!(p.get_module(1, 0).unwrap().key, B);
    assert_eq!(p.get_pruning_score_for_uid(1, 0), u16::MAX);
    assert_eq!(p.get_last_update_for_uid(1, 0), 20);
    assert_eq!(p.get_module_block_at_registration(1, 0), 20);
    assert!(p.get_active_for_uid(1, 0));
}

#[test]
fn key_and_uid_lookups() {
    let mut p = network_with_capacity(1, 1, 4);
    p.do_registration(1, A, 1).unwrap();
    p.do_registration(1, B, 1).unwrap();
    assert_eq!(p.get_key_for_net_and_uid(1, 1), Some(B));
    assert_eq!(p.get_key_for_net_and_uid(1, 2), None);
    assert_eq!(p.get_key_for_net_and_uid(2, 0), None);
    assert_eq!(p.get_uid_for_net_and_key(1, A), Some(0));
    assert_eq!(p.get_uid_for_net_and_key(1, C), None);
    assert_eq!(p.get_uid_for_net_and_key(3, A), None);
    assert!(p.is_key_registered_on_network(1, B));
    assert!(!p.is_key_registered_on_network(1, C));
}
