//! Peer metadata, sessions, and the telemetry records derived from them.

use vstd::prelude::*;

verus! {

use crate::addr::spec_peer_id;

/// Capability class: not yet known.
pub const NODE_TYPE_UNKNOWN: u8 = 0;

/// Capability class: a full node.
pub const NODE_TYPE_FULL: u8 = 1;

/// Capability class: a light node.
pub const NODE_TYPE_LIGHT: u8 = 2;

/// What the crawler knows of one peer, keyed in the ledger by the
/// peer's host.
pub struct PeerInfo {
    /// The address the peer was reached or gossiped under.
    pub address: String,
    /// When the peer last proved alive, on the driving clock; nothing
    /// before the first proof.
    pub last_seen_ms: Option<u64>,
    /// The hosts of the neighbours the peer gossiped, each once.
    pub reachable: Vec<String>,
    /// The client version from the peer's identify exchange.
    pub client_version: String,
    /// The capability class inferred from the identify flags.
    pub is_full_node: u8,
}

/// The protocol channels the crawler opens on a session.
#[derive(Copy, Clone, Debug, PartialEq, Eq, Structural)]
pub enum ChannelKind {
    Discovery,
    Identify,
    Bulk,
}

/// One open outbound transport session.
pub struct Session {
    pub id: u64,
    pub address: String,
    /// The channels opened on the session, each once.
    pub channels: Vec<ChannelKind>,
}

/// One peer-liveness record of a telemetry emission.
pub struct PeerRecord {
    pub network: String,
    pub time_ms: u64,
    pub version: String,
    pub ip: String,
    pub n_reachable: usize,
    pub address: String,
    pub peer_id: String,
    pub node_type: u8,
}

/// The mathematical content of a peer-liveness record.
pub struct RecordView {
    pub network: Seq<char>,
    pub time_ms: u64,
    pub version: Seq<char>,
    pub ip: Seq<char>,
    pub n_reachable: int,
    pub address: Seq<char>,
    pub peer_id: Seq<char>,
    pub node_type: u8,
}

impl DeepView for PeerRecord {
    type V = RecordView;

    open spec fn deep_view(&self) -> RecordView {
        self.view()
    }
}

impl View for PeerRecord {
    type V = RecordView;

    open spec fn view(&self) -> RecordView {
        RecordView {
            network: self.network@,
            time_ms: self.time_ms,
            version: self.version@,
            ip: self.ip@,
            n_reachable: self.n_reachable as int,
            address: self.address@,
            peer_id: self.peer_id@,
            node_type: self.node_type,
        }
    }
}

/// The record view a fresh ledger entry gives rise to.
pub open spec fn record_view_of(
    network: Seq<char>,
    time_ms: u64,
    ip: Seq<char>,
    e: PeerInfo,
    n_reachable: int,
) -> RecordView {
    RecordView {
        network: network,
        time_ms: time_ms,
        version: e.client_version@,
        ip: ip,
        n_reachable: n_reachable,
        address: e.address@,
        peer_id: spec_peer_id(e.address@),
        node_type: e.is_full_node,
    }
}

} // verus!
