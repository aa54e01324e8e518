//! Tests of address-text parsing, network names and configuration.

use ckb_analyzer::{
    bootnodes, host_of_addr, peer_id_of_addr, str_eq, CKBAnalyzerConfig, CKBNetworkType, DBConfig,
};

#[test]
fn peer_id_of_suffixed_address() {
    assert_eq!(peer_id_of_addr("/ip4/1.2.3.4/tcp/8114/p2p/QmABC"), "QmABC");
}

#[test]
fn peer_id_of_plain_address_is_empty() {
    assert_eq!(peer_id_of_addr("/ip4/1.2.3.4/tcp/8114"), "");
    assert_eq!(peer_id_of_addr(""), "");
    assert_eq!(peer_id_of_addr("/p2p/"), "");
}

#[test]
fn host_of_text_addresses() {
    assert_eq!(host_of_addr("/ip4/47.110.15.57/tcp/8114/p2p/QmX"), "47.110.15.57");
    assert_eq!(host_of_addr("/ip4/127.0.0.1/tcp/8114"), "127.0.0.1");
    assert_eq!(host_of_addr(""), "");
}

#[test]
fn network_names_round() {
    assert_eq!(CKBNetworkType::from_name("mirana"), Some(CKBNetworkType::Mirana));
    assert_eq!(CKBNetworkType::from_name("main"), Some(CKBNetworkType::Mirana));
    assert_eq!(CKBNetworkType::from_name("ckb"), Some(CKBNetworkType::Mirana));
    assert_eq!(CKBNetworkType::from_name("pudge"), Some(CKBNetworkType::Pudge));
    assert_eq!(CKBNetworkType::from_name("test"), Some(CKBNetworkType::Pudge));
    assert_eq!(CKBNetworkType::from_name("ckb_testnet"), Some(CKBNetworkType::Pudge));
    assert_eq!(CKBNetworkType::from_name("dev"), Some(CKBNetworkType::Dev));
    assert_eq!(CKBNetworkType::from_name("ckb_dev"), Some(CKBNetworkType::Dev));
    assert_eq!(CKBNetworkType::from_name("sirius"), None);
    assert_eq!(CKBNetworkType::Mirana.into_legacy_str(), "ckb");
    assert_eq!(CKBNetworkType::Pudge.into_legacy_str(), "ckb_testnet");
    assert_eq!(CKBNetworkType::Dev.into_legacy_str(), "ckb_dev");
}

#[test]
fn bootnodes_are_fixed() {
    assert_eq!(
        bootnodes(CKBNetworkType::Mirana),
        "/ip4/47.110.15.57/tcp/8114/p2p/QmXS4Kbc9HEeykHUTJCm2tNmqghbvWyYpUp6BtE5b6VrAU"
    );
    assert_eq!(
        bootnodes(CKBNetworkType::Pudge),
        "/ip4/47.111.169.36/tcp/8111/p2p/QmNQ4jky6uVqLDrPU7snqxARuNGWNLgSrTnssbRuy3ij2W"
    );
    assert_eq!(bootnodes(CKBNetworkType::Dev), "/ip4/127.0.0.1/tcp/8114");
}

#[test]
fn str_eq_compares_content() {
    assert!(str_eq("abc", "abc"));
    assert!(!str_eq("abc", "abd"));
    assert!(!str_eq("abc", "ab"));
    assert!(str_eq("", ""));
}

#[test]
fn configs_carry_their_fields() {
    let db = DBConfig::new(
        "localhost".to_string(),
        5432,
        "ckb".to_string(),
        "crawler".to_string(),
        "SECRET-REDACTED".to_string(),
    );
    assert_eq!(db.host, "localhost");
    assert_eq!(db.port, 5432);
    assert_eq!(db.database, "ckb");
    assert_eq!(db.user, "crawler");
    let cfg = CKBAnalyzerConfig::new(vec![CKBNetworkType::Pudge], db, String::new(), 5);
    assert_eq!(cfg.networks, vec![CKBNetworkType::Pudge]);
    assert_eq!(cfg.witness_bound, 5);
    assert_eq!(cfg.db.database, "ckb");
}
