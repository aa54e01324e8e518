//! Verified core of a CKB network crawler.
//!
//! The crawler is a passive, outbound-only participant in the CKB
//! peer-to-peer network.  It harvests peer metadata (client version,
//! capability class, gossiped neighbours) through the identify and
//! discovery protocol channels, infers liveness of unreachable peers from
//! accumulated gossip witnesses, and periodically derives telemetry
//! records for a downstream store.
//!
//! This crate holds the crawler's state machine and wire codec, all
//! verified; the surrounding process (transport, database, geolocation
//! lookups) drives it from the outside.

mod addr;
mod codec;
mod config;
mod crawler;
mod net;
mod peer;
mod store;
mod text;

pub use addr::host_of_addr;
pub use addr::peer_id_of_addr;
pub use codec::DiscoveryPayload;
pub use codec::IdentifyPayload;
pub use codec::encode_get_nodes;
pub use codec::frame_decode;
pub use codec::frame_encode;
pub use codec::parse_discovery;
pub use codec::parse_identify;
pub use config::CKBAnalyzerConfig;
pub use config::DBConfig;
pub use crawler::NetworkCrawler;
pub use crawler::SessionVerdict;
pub use crawler::node_class_of_flag;
pub use net::CKBNetworkType;
pub use net::bootnodes;
pub use peer::ChannelKind;
pub use peer::PeerInfo;
pub use peer::PeerRecord;
pub use peer::Session;
pub use text::str_eq;
