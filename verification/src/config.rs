//! Run configuration: the networks to crawl, the database connection
//! parameters, and the witness-promotion threshold.

use vstd::prelude::*;

verus! {

use crate::net::CKBNetworkType;

/// Connection parameters of the relational store.
pub struct DBConfig {
    pub host: String,
    pub port: u16,
    pub database: String,
    pub user: String,
    pub password: String,
}

impl DBConfig {
    pub fn new(host: String, port: u16, database: String, user: String, password: String) -> (r:
        DBConfig)
        ensures
            r.host@ == host@,
            r.port == port,
            r.database@ == database@,
            r.user@ == user@,
            r.password@ == password@,
    {
        DBConfig { host, port, database, user, password }
    }
}

/// The whole run configuration.
pub struct CKBAnalyzerConfig {
    pub networks: Vec<CKBNetworkType>,
    pub db: DBConfig,
    pub witness_bound: usize,
}

impl CKBAnalyzerConfig {
    pub fn new(
        networks: Vec<CKBNetworkType>,
        db: DBConfig,
        _ipinfo_io_token: String,
        witness_bound: usize,
    ) -> (r: CKBAnalyzerConfig)
        ensures
            r.networks@ == networks@,
            r.db == db,
            r.witness_bound == witness_bound,
    {
        CKBAnalyzerConfig { networks, db, witness_bound }
    }
}

} // verus!
