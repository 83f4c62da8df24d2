use subspace::serving::is_valid_ip_address;
use subspace::{Pallet, SubspaceError};

fn served_network() -> Pallet {
    let mut p = Pallet::new(0);
    p.do_add_network(1, 1).unwrap();
    p.do_add_network(2, 1).unwrap();
    p.do_registration(1, 8, 1).unwrap();
    p.set_serving_rate_limit(2, 50);
    p
}

#[test]
fn ip_validation() {
    assert!(!is_valid_ip_address(0));
    assert!(is_valid_ip_address(0x0a00_0001));
    assert!(!is_valid_ip_address(0x7f00_0001));
    assert!(!is_valid_ip_address(0xffff_ffff));
    assert!(is_valid_ip_address(0xffff_fffe));
    assert!(is_valid_ip_address(0x1_0000_0000));
    assert!(!is_valid_ip_address(u128::MAX));
    assert!(is_valid_ip_address(u128::MAX - 1));
}

#[test]
fn serve_records_endpoint() {
    let mut p = served_network();
    assert!(!p.has_module(2, 8));
    assert_eq!(p.do_serve_module(2, 8, b"n".to_vec(), 0x0a00_0001, 30333, b"u".to_vec(), 10), Ok(()));
    assert!(p.has_module(2, 8));
    let m = p.get_module_from_key(2, 8);
    assert_eq!(m.block, 10);
    assert_eq!(m.ip, 0x0a00_0001);
    assert_eq!(m.port, 30333);
    assert_eq!(m.name, b"n".to_vec());
    assert_eq!(m.uri, b"u".to_vec());
}

#[test]
fn serve_errors() {
    let mut p = served_network();
    assert_eq!(
        p.do_serve_module(5, 8, vec![], 0x0a00_0001, 1, vec![], 10),
        Err(SubspaceError::NetworkDoesNotExist)
    );
    assert_eq!(
        p.do_serve_module(2, 9, vec![], 0x0a00_0001, 1, vec![], 10),
        Err(SubspaceError::NotRegistered)
    );
    assert_eq!(
        p.do_serve_module(2, 8, vec![], 0x7f00_0001, 1, vec![], 10),
        Err(SubspaceError::InvalidIpAddress)
    );
    assert_eq!(p.do_serve_module(2, 8, vec![], 0x0a00_0001, 1, vec![], 10), Ok(()));
    assert_eq!(
        p.do_serve_module(2, 8, vec![], 0x0a00_0002, 2, vec![], 59),
        Err(SubspaceError::ServingRateLimitExceeded)
    );
    assert_eq!(
        p.do_serve_module(2, 8, vec![], 0x0a00_0002, 2, vec![], 60),
        Err(SubspaceError::ServingRateLimitExceeded)
    );
    assert_eq!(p.get_module_from_key(2, 8).ip, 0x0a00_0001);
    assert_eq!(p.do_serve_module(2, 8, vec![], 0x0a00_0002, 2, vec![], 61), Ok(()));
    assert_eq!(p.get_module_from_key(2, 8).ip, 0x0a00_0002);
    assert_eq!(p.get_module_from_key(2, 8).block, 61);
}

#[test]
fn missing_endpoint_reads_empty() {
    let p = served_network();
    let m = p.get_module_from_key(1, 8);
    assert_eq!(m.block, 0);
    assert_eq!(m.ip, 0);
    assert!(m.name.is_empty());
    assert!(p.is_key_registered_on_any_network(8));
    assert!(!p.is_key_registered_on_any_network(9));
}

#[test]
fn serving_rate_limit_window() {
    let p = served_network();
    let mut m = p.get_module_from_key(2, 8);
    assert!(p.module_passes_rate_limit(2, &m, 1));
    m.block = 100;
    assert!(!p.module_passes_rate_limit(2, &m, 149));
    assert!(!p.module_passes_rate_limit(2, &m, 150));
    assert!(p.module_passes_rate_limit(2, &m, 151));
    assert!(!p.module_passes_rate_limit(2, &m, 99));
    assert!(p.module_passes_rate_limit(9, &m, 99));
}
