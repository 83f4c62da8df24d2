use subspace::{Network, Pallet, SubspaceError};

fn three_networks(block_emission: u64) -> Pallet {
    let mut p = Pallet::new(block_emission);
    p.do_add_network(1, 1).unwrap();
    p.do_add_network(2, 10).unwrap();
    p.do_add_network(3, 100).unwrap();
    p
}

#[test]
fn emission_values_missing_a_network_fail_unchanged() {
    let mut p = three_networks(100);
    p.do_set_emission_values(&vec![1, 2, 3], &vec![20, 30, 50]).unwrap();
    assert_eq!(
        p.do_set_emission_values(&vec![1, 2], &vec![40, 60]),
        Err(SubspaceError::NotSettingEnoughWeights)
    );
    assert_eq!(p.get_emission_value(1), 20);
    assert_eq!(p.get_emission_value(2), 30);
    assert_eq!(p.get_emission_value(3), 50);
}

#[test]
fn emission_values_are_assigned_by_netuid() {
    let mut p = three_networks(100);
    assert_eq!(p.do_set_emission_values(&vec![3, 1, 2], &vec![70, 10, 20]), Ok(()));
    assert_eq!(p.get_emission_value(1), 10);
    assert_eq!(p.get_emission_value(2), 20);
    assert_eq!(p.get_emission_value(3), 70);
}

#[test]
fn emission_values_errors() {
    let mut p = three_networks(100);
    assert_eq!(
        p.do_set_emission_values(&vec![1, 2, 3], &vec![100]),
        Err(SubspaceError::WeightVecNotEqualSize)
    );
    assert_eq!(
        p.do_set_emission_values(&vec![1, 1, 3], &vec![20, 30, 50]),
        Err(SubspaceError::DuplicateUids)
    );
    assert_eq!(
        p.do_set_emission_values(&vec![1, 2, 9], &vec![20, 30, 50]),
        Err(SubspaceError::InvalidUid)
    );
    assert_eq!(
        p.do_set_emission_values(&vec![1, 2, 3], &vec![20, 30, 51]),
        Err(SubspaceError::InvalidEmissionValues)
    );
    assert_eq!(
        p.do_set_emission_values(&vec![1, 2, 3], &vec![u64::MAX, u64::MAX, 2]),
        Err(SubspaceError::InvalidEmissionValues)
    );
    assert_eq!(p.get_emission_value(1), 0);
}

#[test]
fn add_network_errors() {
    let mut p = three_networks(0);
    assert_eq!(p.do_add_network(2, 5), Err(SubspaceError::NetworkExist));
    assert_eq!(p.do_add_network(4, u16::MAX), Err(SubspaceError::InvalidTempo));
    assert!(!p.if_network_exist(4));
    assert_eq!(p.get_tempo(2), 10);
}

#[test]
fn remove_network_erases_its_state() {
    let mut p = three_networks(0);
    p.do_registration(2, 11, 1).unwrap();
    assert_eq!(p.do_remove_network(2), Ok(()));
    assert!(!p.if_network_exist(2));
    assert_eq!(p.get_network_n(2), 0);
    assert_eq!(p.get_tempo(2), 0);
    assert!(p.get_modules(2).is_empty());
    assert_eq!(p.do_remove_network(2), Err(SubspaceError::NetworkDoesNotExist));
    assert!(p.if_network_exist(1) && p.if_network_exist(3));
    // A participant's owner record survives the removal of its subnetwork.
    assert!(p.key_account_exists(11));
    p.do_add_network(2, 4).unwrap();
    assert_eq!(p.get_network_n(2), 0);
    assert_eq!(p.get_tempo(2), 4);
}

#[test]
fn network_descriptors() {
    let mut p = three_networks(0);
    p.do_registration(3, 5, 1).unwrap();
    let n = p.get_network(3).unwrap();
    assert_eq!(n.netuid, 3);
    assert_eq!(n.tempo, 100);
    assert_eq!(n.network_n, 1);
    assert_eq!(n.max_allowed_uids, 4096);
    assert!(p.get_network(4).is_none());
    let all: Vec<Network> = p.get_networks();
    assert_eq!(all.len(), 3);
    assert_eq!(all[1].netuid, 2);
}

#[test]
fn sudo_setters_need_existing_network() {
    let mut p = three_networks(0);
    assert_eq!(p.do_sudo_set_immunity_period(9, 5), Err(SubspaceError::NetworkDoesNotExist));
    assert_eq!(p.do_sudo_set_immunity_period(1, 5), Ok(()));
    assert_eq!(p.get_immunity_period(1), 5);
    assert_eq!(p.do_sudo_set_serving_rate_limit(1, 6), Ok(()));
    assert_eq!(p.get_serving_rate_limit(1), 6);
    assert_eq!(p.do_sudo_set_weights_set_rate_limit(1, 7), Ok(()));
    assert_eq!(p.get_weights_set_rate_limit(1), 7);
    assert_eq!(p.do_sudo_set_adjustment_interval(1, 8), Ok(()));
    assert_eq!(p.get_adjustment_interval(1), 8);
    assert_eq!(p.do_sudo_set_max_weight_limit(1, 9), Ok(()));
    assert_eq!(p.get_max_weight_limit(1), 9);
    assert_eq!(p.do_sudo_set_min_allowed_weights(1, 10), Ok(()));
    assert_eq!(p.get_min_allowed_weights(1), 10);
    assert_eq!(p.do_sudo_set_activity_cutoff(1, 11), Ok(()));
    assert_eq!(p.get_activity_cutoff(1), 11);
    assert_eq!(p.do_sudo_set_target_registrations_per_interval(1, 12), Ok(()));
    assert_eq!(p.get_target_registrations_per_interval(1), 12);
    assert_eq!(p.do_sudo_set_max_registrations_per_block(1, 13), Ok(()));
    assert_eq!(p.get_max_registrations_per_block(1), 13);
    assert_eq!(p.do_sudo_set_activity_cutoff(9, 11), Err(SubspaceError::NetworkDoesNotExist));
}

#[test]
fn capacity_only_grows() {
    let mut p = three_networks(0);
    assert_eq!(
        p.do_sudo_set_max_allowed_uids(1, 4096),
        Err(SubspaceError::MaxAllowedUIdsNotAllowed)
    );
    assert_eq!(
        p.do_sudo_set_max_allowed_uids(1, 10),
        Err(SubspaceError::MaxAllowedUIdsNotAllowed)
    );
    assert_eq!(p.do_sudo_set_max_allowed_uids(1, 5000), Ok(()));
    assert_eq!(p.get_max_allowed_uids(1), 5000);
    assert_eq!(p.do_sudo_set_max_allowed_uids(7, 5000), Err(SubspaceError::NetworkDoesNotExist));
}

#[test]
fn setters_ignore_missing_networks() {
    let mut p = three_networks(0);
    p.set_tempo(9, 3);
    assert!(!p.if_network_exist(9));
    assert_eq!(p.get_tempo(9), 0);
    p.set_tempo(1, 3);
    assert_eq!(p.get_tempo(1), 3);
    p.set_last_adjustment_block(1, 4);
    assert_eq!(p.get_last_adjustment_block(1), 4);
    p.set_last_mechanism_step_block(1, 6);
    assert_eq!(p.get_last_mechanism_step_block(1), 6);
    p.set_registrations_this_interval(1, 2);
    assert_eq!(p.get_registrations_this_interval(1), 2);
    p.set_registrations_this_block(1, 1);
    assert_eq!(p.get_registrations_this_block(1), 1);
    p.set_emission_for_network(1, 42);
    assert_eq!(p.get_emission_value(1), 42);
}

#[test]
fn tempo_validity() {
    assert!(subspace::network::if_tempo_is_valid(0));
    assert!(subspace::network::if_tempo_is_valid(u16::MAX - 1));
    assert!(!subspace::network::if_tempo_is_valid(u16::MAX));
}

#[test]
fn duplicate_and_invalid_netuid_checks() {
    let p = three_networks(0);
    assert!(subspace::network::has_duplicate_netuids(&vec![4, 5, 4]));
    assert!(!subspace::network::has_duplicate_netuids(&vec![4, 5, 6]));
    assert!(!subspace::network::has_duplicate_netuids(&vec![]));
    assert!(p.contains_invalid_netuids(&vec![1, 4]));
    assert!(!p.contains_invalid_netuids(&vec![3, 1]));
}

#[test]
fn networks_listed_by_netuid() {
    let mut p = Pallet::new(0);
    p.do_add_network(9, 1).unwrap();
    p.do_add_network(2, 1).unwrap();
    p.do_add_network(5, 1).unwrap();
    let ids: Vec<u16> = p.get_networks().iter().map(|n| n.netuid).collect();
    assert_eq!(ids, vec![2, 5, 9]);
}
