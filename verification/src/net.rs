//! Supported CKB networks and their bootstrap addresses.

use vstd::prelude::*;

verus! {

use crate::text::str_eq;

/// The CKB network a crawler instance walks.
#[derive(Copy, Clone, Debug, PartialEq, Eq, Structural)]
pub enum CKBNetworkType {
    Mirana,
    Pudge,
    Dev,
}

/// The legacy spelling of each network's name, the namespace of its
/// downstream records.
pub open spec fn spec_legacy_name(t: CKBNetworkType) -> Seq<char> {
    match t {
        CKBNetworkType::Mirana => "ckb"@,
        CKBNetworkType::Pudge => "ckb_testnet"@,
        CKBNetworkType::Dev => "ckb_dev"@,
    }
}

impl CKBNetworkType {
    /// Parse a network name; accepts the current and the legacy spellings.
    pub fn from_name(s: &str) -> (r: Option<CKBNetworkType>)
        ensures
            (s@ == "mirana"@ || s@ == "ckb"@ || s@ == "main"@) ==> r == Some(
                CKBNetworkType::Mirana,
            ),
            (s@ == "pudge"@ || s@ == "ckb_testnet"@ || s@ == "test"@) ==> r == Some(
                CKBNetworkType::Pudge,
            ),
            (s@ == "dev"@ || s@ == "ckb_dev"@) ==> r == Some(CKBNetworkType::Dev),
            !(s@ == "mirana"@ || s@ == "ckb"@ || s@ == "main"@ || s@ == "pudge"@ || s@
                == "ckb_testnet"@ || s@ == "test"@ || s@ == "dev"@ || s@ == "ckb_dev"@) ==> r
                is None,
    {
        proof {
            reveal_strlit("mirana");
            reveal_strlit("ckb");
            reveal_strlit("main");
            reveal_strlit("pudge");
            reveal_strlit("ckb_testnet");
            reveal_strlit("test");
            reveal_strlit("dev");
            reveal_strlit("ckb_dev");
            assert("mirana"@.len() == 6 && "ckb"@.len() == 3 && "main"@.len() == 4);
            assert("pudge"@.len() == 5 && "ckb_testnet"@.len() == 11 && "test"@.len() == 4);
            assert("dev"@.len() == 3 && "ckb_dev"@.len() == 7);
            assert("test"@[0] == 't' && "main"@[0] == 'm');
            assert("ckb"@[0] == 'c' && "dev"@[0] == 'd');
        }
        if str_eq(s, "mirana") || str_eq(s, "ckb") || str_eq(s, "main") {
            Some(CKBNetworkType::Mirana)
        } else if str_eq(s, "pudge") || str_eq(s, "ckb_testnet") || str_eq(s, "test") {
            Some(CKBNetworkType::Pudge)
        } else if str_eq(s, "dev") || str_eq(s, "ckb_dev") {
            Some(CKBNetworkType::Dev)
        } else {
            None
        }
    }

    /// The legacy name used as the database schema of the network.
    pub fn into_legacy_str(&self) -> (r: String)
        ensures
            r@ == spec_legacy_name(*self),
    {
        match self {
            CKBNetworkType::Mirana => "ckb".to_owned(),
            CKBNetworkType::Pudge => "ckb_testnet".to_owned(),
            CKBNetworkType::Dev => "ckb_dev".to_owned(),
        }
    }
}

/// The bootstrap address of each network, one fixed seed per network.
pub open spec fn spec_bootnode(network: CKBNetworkType) -> Seq<char> {
    match network {
        CKBNetworkType::Mirana => "/ip4/47.110.15.57/tcp/8114/p2p/QmXS4Kbc9HEeykHUTJCm2tNmqghbvWyYpUp6BtE5b6VrAU"@,
        CKBNetworkType::Pudge => "/ip4/47.111.169.36/tcp/8111/p2p/QmNQ4jky6uVqLDrPU7snqxARuNGWNLgSrTnssbRuy3ij2W"@,
        CKBNetworkType::Dev => "/ip4/127.0.0.1/tcp/8114"@,
    }
}

/// The baked-in bootstrap address of a network, the seed of the crawl.
pub fn bootnodes(network: CKBNetworkType) -> (r: String)
    ensures
        r@ == spec_bootnode(network),
{
    match network {
        CKBNetworkType::Mirana => {
            "/ip4/47.110.15.57/tcp/8114/p2p/QmXS4Kbc9HEeykHUTJCm2tNmqghbvWyYpUp6BtE5b6VrAU".to_owned()
        },
        CKBNetworkType::Pudge => {
            "/ip4/47.111.169.36/tcp/8111/p2p/QmNQ4jky6uVqLDrPU7snqxARuNGWNLgSrTnssbRuy3ij2W".to_owned()
        },
        CKBNetworkType::Dev => "/ip4/127.0.0.1/tcp/8114".to_owned(),
    }
}

} // verus!
