//! Tests of the crawler's state machine: witness promotion, inbound
//! rejection, capability classification, reachability, freshness and
//! telemetry.

use ckb_analyzer::{CKBNetworkType, ChannelKind, NetworkCrawler, PeerRecord, SessionVerdict};

fn le32(x: u32) -> Vec<u8> {
    x.to_le_bytes().to_vec()
}

fn mol_bytes(content: &[u8]) -> Vec<u8> {
    let mut out = le32(content.len() as u32);
    out.extend_from_slice(content);
    out
}

fn mol_table(fields: &[Vec<u8>]) -> Vec<u8> {
    let header = 4 + 4 * fields.len();
    let total: usize = header + fields.iter().map(|f| f.len()).sum::<usize>();
    let mut out = le32(total as u32);
    let mut off = header;
    for f in fields {
        out.extend_from_slice(&le32(off as u32));
        off += f.len();
    }
    for f in fields {
        out.extend_from_slice(f);
    }
    out
}

fn mol_empty_vec() -> Vec<u8> {
    le32(4)
}

fn identify_msg(name: &str, flag: u64, version: &str) -> Vec<u8> {
    let inner = mol_table(&[
        mol_bytes(name.as_bytes()),
        flag.to_le_bytes().to_vec(),
        mol_bytes(version.as_bytes()),
    ]);
    mol_table(&[mol_empty_vec(), mol_empty_vec(), mol_bytes(&inner)])
}

fn ip4_tcp_bytes(a: u8, b: u8, c: u8, d: u8, port: u16) -> Vec<u8> {
    let mut out = vec![4u8, a, b, c, d, 6u8];
    out.extend_from_slice(&port.to_be_bytes());
    out
}

fn nodes_msg(nodes: &[Vec<Vec<u8>>]) -> Vec<u8> {
    let node_tables: Vec<Vec<u8>> = nodes
        .iter()
        .map(|addrs| {
            let addr_items: Vec<Vec<u8>> = addrs.iter().map(|a| mol_bytes(a)).collect();
            mol_table(&[mol_table(&addr_items)])
        })
        .collect();
    let items = mol_table(&node_tables);
    let nodes_table = mol_table(&[vec![0u8], items]);
    let mut union_bytes = le32(1);
    union_bytes.extend_from_slice(&nodes_table);
    mol_table(&[union_bytes])
}

fn witness_count(c: &NetworkCrawler, addr: &str) -> Option<usize> {
    c.book.iter().find(|p| p.0 == addr).map(|p| p.1)
}

fn ledger_entry<'a>(
    c: &'a NetworkCrawler,
    ip: &str,
) -> Option<&'a (String, ckb_analyzer::PeerInfo)> {
    c.ledger.iter().find(|p| p.0 == ip)
}

const BOOT_DEV: &str = "/ip4/127.0.0.1/tcp/8114";

/// A fresh crawler knows only the bootstrap address, with one witness;
/// a peer enters the ledger only through identify or promotion.
#[test]
fn fresh_crawler_holds_the_seed() {
    let c = NetworkCrawler::new(CKBNetworkType::Dev, 3);
    assert_eq!(witness_count(&c, BOOT_DEV), Some(1));
    assert_eq!(c.book.len(), 1);
    assert!(c.ledger.is_empty());
    assert!(c.sessions.is_empty());
}

/// One bootstrap address; a successful dial and identify exchange with
/// the full-node bit set; the next telemetry emission holds exactly one
/// record: full node, the reported version, no corroborated neighbours.
#[test]
fn scenario_successful_dial_and_identify() {
    let mut c = NetworkCrawler::new(CKBNetworkType::Dev, 3);
    let verdict = c.handle_session_open(7, BOOT_DEV, false);
    assert_eq!(verdict, SessionVerdict::Accept);
    c.received(
        ChannelKind::Identify,
        BOOT_DEV,
        &identify_msg("node", 0b10000, "ckb/0.100"),
        1_000,
    );
    let records: Vec<PeerRecord> = c.telemetry_records(1_500);
    assert_eq!(records.len(), 1);
    assert_eq!(records[0].node_type, 1);
    assert_eq!(records[0].version, "ckb/0.100");
    assert_eq!(records[0].ip, "127.0.0.1");
    assert_eq!(records[0].n_reachable, 0);
    assert_eq!(records[0].network, "ckb_dev");
    assert_eq!(records[0].address, BOOT_DEV);
}

/// Promotion threshold three; three distinct connected peers each
/// gossip the same unreachable address; after the third report a failed
/// dial makes its entry appear online though no session to it was ever
/// opened, and its witness counter resets to zero.
#[test]
fn scenario_witness_promotion() {
    let mut c = NetworkCrawler::new(CKBNetworkType::Dev, 3);
    let target = "/ip4/9.9.9.9/tcp/8114";
    let target_bytes = ip4_tcp_bytes(9, 9, 9, 9, 8114);
    let reporters = ["/ip4/10.0.0.1/tcp/1", "/ip4/10.0.0.2/tcp/1", "/ip4/10.0.0.3/tcp/1"];
    for (i, reporter) in reporters.iter().enumerate() {
        c.received_discovery(reporter, &nodes_msg(&[vec![target_bytes.clone()]]));
        assert_eq!(witness_count(&c, target), Some(i + 1));
    }
    // the gossiped address never completed identify, so it has no entry yet
    assert!(ledger_entry(&c, "9.9.9.9").is_none());
    c.online_witnesses(target, 5_000);
    let e = ledger_entry(&c, "9.9.9.9").expect("promoted peer must be in the ledger");
    assert_eq!(e.1.last_seen_ms, Some(5_000));
    assert_eq!(e.1.is_full_node, 0);
    assert_eq!(witness_count(&c, target), Some(0));
    assert!(!c.has_session_to(target));
}

/// Below the promotion threshold a failed dial changes nothing.
#[test]
fn no_promotion_below_threshold() {
    let mut c = NetworkCrawler::new(CKBNetworkType::Dev, 3);
    let target = "/ip4/9.9.9.9/tcp/8114";
    let target_bytes = ip4_tcp_bytes(9, 9, 9, 9, 8114);
    for reporter in ["/ip4/10.0.0.1/tcp/1", "/ip4/10.0.0.2/tcp/1"] {
        c.received_discovery(reporter, &nodes_msg(&[vec![target_bytes.clone()]]));
    }
    assert_eq!(witness_count(&c, target), Some(2));
    c.online_witnesses(target, 5_000);
    assert!(ledger_entry(&c, "9.9.9.9").is_none());
    assert_eq!(witness_count(&c, target), Some(2));
}

/// A promoted peer's version is backfilled from the observed-version
/// cache when its own identify exchange never completed.
#[test]
fn promotion_backfills_cached_version() {
    let mut c = NetworkCrawler::new(CKBNetworkType::Dev, 1);
    let target = "/ip4/9.9.9.9/tcp/8114";
    // an earlier identify exchange on this address left a version behind
    c.received_identify(target, &identify_msg("node", 0, "ckb/0.42"), 100);
    c.received_discovery("/ip4/10.0.0.1/tcp/1", &nodes_msg(&[vec![ip4_tcp_bytes(
        9, 9, 9, 9, 8114,
    )]]));
    c.online_witnesses(target, 9_000);
    let e = ledger_entry(&c, "9.9.9.9").expect("promoted peer");
    assert_eq!(e.1.client_version, "ckb/0.42");
    assert_eq!(e.1.last_seen_ms, Some(9_000));
}

/// An inbound session is rejected before anything of it is processed:
/// the verdict says disconnect and the state is untouched.
#[test]
fn inbound_session_is_rejected_untouched() {
    let mut c = NetworkCrawler::new(CKBNetworkType::Dev, 3);
    let book_before = c.book.clone();
    let ledger_len = c.ledger.len();
    let verdict = c.handle_session_open(3, "/ip4/8.8.8.8/tcp/1", true);
    assert_eq!(verdict, SessionVerdict::RejectInbound);
    assert!(c.sessions.is_empty());
    assert_eq!(c.book, book_before);
    assert_eq!(c.ledger.len(), ledger_len);
}

/// The full-node capability bit decides the class: set means full,
/// cleared means light.
#[test]
fn capability_bit_classifies() {
    let mut c = NetworkCrawler::new(CKBNetworkType::Dev, 3);
    c.received_identify("/ip4/1.1.1.1/tcp/1", &identify_msg("a", 0b10000, "v1"), 10);
    c.received_identify("/ip4/2.2.2.2/tcp/1", &identify_msg("b", 0b01111, "v2"), 10);
    assert_eq!(ledger_entry(&c, "1.1.1.1").unwrap().1.is_full_node, 1);
    assert_eq!(ledger_entry(&c, "2.2.2.2").unwrap().1.is_full_node, 2);
}

/// A malformed identify payload is dropped: logged and swallowed, the
/// state untouched.
#[test]
fn malformed_identify_changes_nothing() {
    let mut c = NetworkCrawler::new(CKBNetworkType::Dev, 3);
    let ledger_before_len = c.ledger.len();
    c.received_identify("/ip4/1.1.1.1/tcp/1", &[1, 2, 3, 4, 5], 10);
    assert_eq!(c.ledger.len(), ledger_before_len);
    assert!(ledger_entry(&c, "1.1.1.1").is_none());
}

/// A neighbour list from peer P naming hosts a, b, c leaves
/// P.reachable containing all three, and the corroborated reachability
/// at emission time counts exactly the online ones.
#[test]
fn reachability_is_recorded_and_corroborated() {
    let mut c = NetworkCrawler::new(CKBNetworkType::Dev, 3);
    let reporter = "/ip4/10.0.0.1/tcp/1";
    let gossip = nodes_msg(&[vec![
        ip4_tcp_bytes(1, 2, 3, 4, 1),
        ip4_tcp_bytes(5, 6, 7, 8, 1),
        ip4_tcp_bytes(9, 10, 11, 12, 1),
    ]]);
    c.received_identify(reporter, &identify_msg("p", 0, "vp"), 1_000);
    c.received_discovery(reporter, &gossip);
    let e = ledger_entry(&c, "10.0.0.1").expect("reporter");
    for host in ["1.2.3.4", "5.6.7.8", "9.10.11.12"] {
        assert!(e.1.reachable.iter().any(|h| h == host), "missing {host}");
    }
    // one gossiped neighbour completes identify and is online
    c.received_identify("/ip4/5.6.7.8/tcp/1", &identify_msg("n", 0, "vn"), 1_200);
    let records = c.telemetry_records(1_500);
    let rec = records.iter().find(|r| r.ip == "10.0.0.1").expect("reporter record");
    assert_eq!(rec.n_reachable, 1);
}

/// A legacy peer wraps the neighbour list in a length-prefixed frame;
/// the fallback decode still reads it.
#[test]
fn legacy_framed_gossip_is_understood() {
    let mut c = NetworkCrawler::new(CKBNetworkType::Dev, 3);
    let msg = nodes_msg(&[vec![ip4_tcp_bytes(9, 9, 9, 9, 8114)]]);
    let mut framed = (msg.len() as u32).to_be_bytes().to_vec();
    framed.extend_from_slice(&msg);
    c.received_discovery("/ip4/10.0.0.1/tcp/1", &framed);
    assert_eq!(witness_count(&c, "/ip4/9.9.9.9/tcp/8114"), Some(1));
}

/// A peer whose last liveness proof is older than the freshness window
/// is left out of the emission though it stays in the ledger.
#[test]
fn stale_peer_is_excluded_from_telemetry() {
    let mut c = NetworkCrawler::new(CKBNetworkType::Dev, 3);
    c.received_identify("/ip4/1.1.1.1/tcp/1", &identify_msg("a", 0, "v1"), 1_000);
    c.received_identify("/ip4/2.2.2.2/tcp/1", &identify_msg("b", 0, "v2"), 9_000);
    let records = c.telemetry_records(10_000);
    assert!(records.iter().any(|r| r.ip == "2.2.2.2"));
    assert!(!records.iter().any(|r| r.ip == "1.1.1.1"));
    assert!(ledger_entry(&c, "1.1.1.1").is_some());
}

/// The stale-session sweep names exactly the sessions whose peer's
/// last liveness proof is older than the staleness window.
#[test]
fn stale_sessions_are_swept() {
    let mut c = NetworkCrawler::new(CKBNetworkType::Dev, 3);
    let fresh = "/ip4/1.1.1.1/tcp/1";
    let stale = "/ip4/2.2.2.2/tcp/1";
    c.handle_session_open(1, fresh, false);
    c.handle_session_open(2, stale, false);
    c.received_identify(fresh, &identify_msg("a", 0, "v1"), 50_000);
    c.received_identify(stale, &identify_msg("b", 0, "v2"), 10_000);
    let doomed = c.stale_sessions(51_000);
    assert_eq!(doomed, vec![2]);
    c.handle_session_close(2);
    assert_eq!(c.sessions.len(), 1);
    assert_eq!(c.sessions[0].id, 1);
}

/// The dial tick skips an address that already has an open session.
#[test]
fn dial_candidate_skips_open_sessions() {
    let mut c = NetworkCrawler::new(CKBNetworkType::Dev, 3);
    assert_eq!(c.dial_candidate().as_deref(), Some(BOOT_DEV));
    c.handle_session_open(1, BOOT_DEV, false);
    assert_eq!(c.dial_candidate(), None);
}

/// The discovery channel is greeted with a request for neighbours; a
/// legacy peer gets it framed.
#[test]
fn discovery_channel_greeting() {
    let mut c = NetworkCrawler::new(CKBNetworkType::Dev, 3);
    c.handle_session_open(1, BOOT_DEV, false);
    let raw = c.connected(1, ChannelKind::Discovery, "1.0.0").expect("greeting");
    assert_eq!(raw.len(), 36);
    let framed = c.connected(1, ChannelKind::Discovery, "0.0.1").expect("legacy greeting");
    assert_eq!(framed.len(), 40);
    assert_eq!(&framed[..4], &[0, 0, 0, 36]);
    assert_eq!(&framed[4..], &raw[..]);
    assert_eq!(c.connected(1, ChannelKind::Identify, "1.0.0"), None);
}

/// Channels come and go on a session's record.
#[test]
fn channel_bookkeeping() {
    let mut c = NetworkCrawler::new(CKBNetworkType::Dev, 3);
    c.handle_session_open(1, BOOT_DEV, false);
    c.connected(1, ChannelKind::Discovery, "1.0.0");
    c.connected(1, ChannelKind::Identify, "1.0.0");
    assert_eq!(c.sessions[0].channels.len(), 2);
    c.disconnected(1, ChannelKind::Discovery);
    assert_eq!(c.sessions[0].channels, vec![ChannelKind::Identify]);
}

/// Geolocation lookups are deduplicated per host for the process's
/// lifetime.
#[test]
fn ip_lookup_dedup() {
    let mut c = NetworkCrawler::new(CKBNetworkType::Dev, 3);
    assert!(c.needs_ip_lookup("1.2.3.4"));
    c.mark_ip_known("1.2.3.4");
    assert!(!c.needs_ip_lookup("1.2.3.4"));
    assert!(c.needs_ip_lookup("5.6.7.8"));
}

/// Messages on the bulk channel keep full nodes talking and change
/// nothing.
#[test]
fn bulk_channel_is_inert() {
    let mut c = NetworkCrawler::new(CKBNetworkType::Dev, 3);
    let ledger_len = c.ledger.len();
    c.received(ChannelKind::Bulk, BOOT_DEV, &[1, 2, 3], 10);
    assert_eq!(c.ledger.len(), ledger_len);
    assert!(c.sessions.is_empty());
}

/// A request for neighbours from a peer is ignored: the crawler is a
/// pure observer and never answers queries.
#[test]
fn get_nodes_request_is_ignored() {
    let mut c = NetworkCrawler::new(CKBNetworkType::Dev, 3);
    let book_before = c.book.clone();
    let request = ckb_analyzer::encode_get_nodes(1, 1000);
    c.received_discovery("/ip4/10.0.0.1/tcp/1", &request);
    assert_eq!(c.book, book_before);
    assert!(ledger_entry(&c, "10.0.0.1").is_none());
}

/// A discovery payload that decodes neither raw nor as a legacy frame
/// is dropped without any effect.
#[test]
fn undecodable_gossip_changes_nothing() {
    let mut c = NetworkCrawler::new(CKBNetworkType::Dev, 3);
    let book_before = c.book.clone();
    c.received_discovery("/ip4/10.0.0.1/tcp/1", &[7, 7, 7, 7, 7]);
    assert_eq!(c.book, book_before);
    assert!(ledger_entry(&c, "10.0.0.1").is_none());
}
