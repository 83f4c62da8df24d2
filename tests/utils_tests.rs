use subspace::{exceeds_rate_limit, Error, Pallet, SubspaceCustom};
use std::sync::Arc;

#[test]
fn rate_limit_disabled_without_prior_transaction() {
    for x in [0u64, 1, 500, u64::MAX] {
        for l in [0u64, 1, 10, u64::MAX] {
            assert!(!exceeds_rate_limit(0, x, l));
        }
    }
}

#[test]
fn rate_limit_window_edges() {
    assert!(exceeds_rate_limit(100, 110, 10));
    assert!(!exceeds_rate_limit(100, 111, 10));
    assert!(exceeds_rate_limit(100, 100, 10));
    assert!(!exceeds_rate_limit(100, 110, 0));
    assert!(!exceeds_rate_limit(100, 101, 0));
    assert!(exceeds_rate_limit(5, 3, 1));
}

#[test]
fn tx_rate_limit_uses_global_limit() {
    let mut p = Pallet::new(0);
    assert!(!p.exceeds_tx_rate_limit(5, 6));
    p.set_tx_rate_limit(3);
    assert_eq!(p.get_tx_rate_limit(), 3);
    assert!(p.exceeds_tx_rate_limit(5, 8));
    assert!(!p.exceeds_tx_rate_limit(5, 9));
}

#[test]
fn uid_reads_default_out_of_range() {
    let mut p = Pallet::new(0);
    p.do_add_network(1, 1).unwrap();
    p.do_registration(1, 4, 2).unwrap();
    assert_eq!(p.get_rank_for_uid(1, 5), 0);
    assert_eq!(p.get_emission_for_uid(1, 5), 0);
    assert!(!p.get_active_for_uid(1, 5));
    assert_eq!(p.get_incentive_for_uid(1, 5), 0);
    assert_eq!(p.get_dividends_for_uid(1, 5), 0);
    assert_eq!(p.get_last_update_for_uid(1, 5), 0);
    assert_eq!(p.get_pruning_score_for_uid(1, 5), u16::MAX);
    assert_eq!(p.get_pruning_score_for_uid(3, 0), u16::MAX);
    assert_eq!(p.get_module_block_at_registration(1, 5), 0);
    assert_eq!(p.get_rank_for_uid(1, 0), 0);
    assert_eq!(p.get_last_update_for_uid(1, 0), 2);
    p.set_pruning_score_for_uid(1, 5, 3);
    assert_eq!(p.get_network_n(1), 1);
}

#[test]
fn module_views() {
    let mut p = Pallet::new(0);
    p.do_add_network(1, 1).unwrap();
    p.do_registration(1, 4, 2).unwrap();
    p.do_registration(1, 6, 2).unwrap();
    p.increase_stake_on_account(6, 9);
    let m = p.get_module(1, 1).unwrap();
    assert_eq!(m.key, 6);
    assert_eq!(m.uid, 1);
    assert_eq!(m.netuid, 1);
    assert_eq!(m.stake, 9);
    assert!(p.get_module(1, 2).is_none());
    assert!(p.get_module(2, 0).is_none());
    let all = p.get_modules(1);
    assert_eq!(all.len(), 2);
    assert_eq!(all[0].key, 4);
    assert_eq!(all[1].stake, 9);
}

#[test]
fn global_getters() {
    let p = Pallet::new(77);
    assert_eq!(p.get_block_emission(), 77);
    assert_eq!(p.get_total_issuance(), 0);
    assert_eq!(p.get_total_stake(), 0);
}

#[test]
fn rpc_error_code() {
    let code: i32 = Error::RuntimeError.into();
    assert_eq!(code, 1);
}

#[test]
fn rpc_handle_keeps_client() {
    let client = Arc::new(5u32);
    let handle: SubspaceCustom<u32, ()> = SubspaceCustom::new(client.clone());
    assert_eq!(*handle.client, 5);
    assert!(Arc::ptr_eq(&handle.client, &client));
}

#[test]
fn score_vectors_by_uid() {
    let mut p = Pallet::new(0);
    p.do_add_network(1, 1).unwrap();
    p.do_registration(1, 4, 2).unwrap();
    p.do_registration(1, 6, 3).unwrap();
    p.set_pruning_score_for_uid(1, 1, 8);
    p.set_active_for_uid(1, 0, false);
    assert_eq!(p.get_pruning_score(1), vec![u16::MAX, 8]);
    assert_eq!(p.get_active(1), vec![false, true]);
    assert_eq!(p.get_last_update(1), vec![2, 3]);
    assert_eq!(p.get_rank(1), vec![0, 0]);
    assert_eq!(p.get_emission(1), vec![0, 0]);
    assert_eq!(p.get_incentive(1), vec![0, 0]);
    assert_eq!(p.get_dividends(1), vec![0, 0]);
    assert!(p.get_rank(2).is_empty());
    assert_eq!(p.get_number_of_networks(), 1);
    p.do_sudo_set_tx_rate_limit(4);
    assert_eq!(p.get_tx_rate_limit(), 4);
}

#[test]
fn full_view_lists_nonzero_weights_and_bonds() {
    let mut p = Pallet::new(0);
    p.do_add_network(1, 1).unwrap();
    p.set_max_allowed_uids(1, 2);
    p.set_immunity_period(1, 0);
    p.do_registration(1, 4, 2).unwrap();
    p.do_registration(1, 6, 2).unwrap();
    p.set_weights_for_uid(1, 0, vec![(0, 0), (1, 7), (2, 0), (3, 9)]);
    p.set_bonds_for_uid(1, 0, vec![(1, 0), (2, 5)]);
    p.set_weights_for_uid(1, 9, vec![(1, 1)]);
    let m = p.get_module(1, 0).unwrap();
    assert_eq!(m.weights, vec![(1, 7), (3, 9)]);
    assert_eq!(m.bonds, vec![(2, 5)]);
    assert!(p.get_modules(1)[1].weights.is_empty());
    let lite = p.get_module_lite(1, 0).unwrap();
    assert_eq!(lite.key, 4);
    assert_eq!(p.get_modules_lite(1).len(), 2);
    assert!(p.get_module_lite(1, 2).is_none());
    // Evicting uid 0 clears its weights and bonds.
    p.set_pruning_score_for_uid(1, 0, 1);
    assert_eq!(p.do_registration(1, 8, 3), Ok(0));
    let m = p.get_module(1, 0).unwrap();
    assert_eq!(m.key, 8);
    assert!(m.weights.is_empty() && m.bonds.is_empty());
}

#[test]
fn nonzero_filter() {
    assert_eq!(subspace::module::nonzero_entries(&vec![(1, 0), (2, 3), (4, 0)]), vec![(2, 3)]);
    assert!(subspace::module::nonzero_entries(&vec![]).is_empty());
}
