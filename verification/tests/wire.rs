//! Tests of the wire codec: message encoding and decoding, and the
//! legacy frame envelope.

use ckb_analyzer::{encode_get_nodes, frame_decode, frame_encode, parse_discovery, parse_identify};
use ckb_analyzer::{DiscoveryPayload, IdentifyPayload};

fn le32(x: u32) -> Vec<u8> {
    x.to_le_bytes().to_vec()
}

/// A byte string: count, then content.
fn mol_bytes(content: &[u8]) -> Vec<u8> {
    let mut out = le32(content.len() as u32);
    out.extend_from_slice(content);
    out
}

/// A table or dynamic vector: total size, offsets, items.
fn mol_table(fields: &[Vec<u8>]) -> Vec<u8> {
    let header = 4 + 4 * fields.len();
    let total: usize = header + fields.iter().map(|f| f.len()).sum::<usize>();
    let mut out = le32(total as u32);
    let mut off = header;
    for f in fields {
        out.extend_from_slice(&le32(off as u32));
        off += f.len();
    }
    for f in fields {
        out.extend_from_slice(f);
    }
    out
}

/// An empty dynamic vector.
fn mol_empty_vec() -> Vec<u8> {
    le32(4)
}

/// A full identify message carrying the given name, flags and version.
fn identify_msg(name: &str, flag: u64, version: &str) -> Vec<u8> {
    let inner = mol_table(&[
        mol_bytes(name.as_bytes()),
        flag.to_le_bytes().to_vec(),
        mol_bytes(version.as_bytes()),
    ]);
    mol_table(&[mol_empty_vec(), mol_empty_vec(), mol_bytes(&inner)])
}

/// The binary form of an `/ip4/a.b.c.d/tcp/port` address.
fn ip4_tcp_bytes(a: u8, b: u8, c: u8, d: u8, port: u16) -> Vec<u8> {
    let mut out = vec![4u8, a, b, c, d, 6u8];
    out.extend_from_slice(&port.to_be_bytes());
    out
}

/// A discovery neighbour-list message: one node per entry, with its
/// address encodings.
fn nodes_msg(nodes: &[Vec<Vec<u8>>]) -> Vec<u8> {
    let node_tables: Vec<Vec<u8>> = nodes
        .iter()
        .map(|addrs| {
            let addr_items: Vec<Vec<u8>> = addrs.iter().map(|a| mol_bytes(a)).collect();
            mol_table(&[mol_table(&addr_items)])
        })
        .collect();
    let items = mol_table(&node_tables);
    let nodes_table = mol_table(&[vec![0u8], items]);
    let mut union_bytes = le32(1);
    union_bytes.extend_from_slice(&nodes_table);
    mol_table(&[union_bytes])
}

#[test]
fn identify_round_trip() {
    let msg = identify_msg("node", 0b10000, "ckb/0.100");
    let p: IdentifyPayload = parse_identify(&msg).expect("well-formed identify must parse");
    assert_eq!(p.name, b"node".to_vec());
    assert_eq!(p.flag, 0b10000);
    assert_eq!(p.client_version, b"ckb/0.100".to_vec());
}

#[test]
fn identify_truncated_is_rejected() {
    let msg = identify_msg("node", 1, "ckb/0.1");
    assert!(parse_identify(&msg[..msg.len() - 1]).is_none());
    assert!(parse_identify(&[]).is_none());
    assert!(parse_identify(&[1, 2, 3]).is_none());
}

#[test]
fn discovery_nodes_round_trip() {
    let a = ip4_tcp_bytes(1, 2, 3, 4, 8114);
    let b = ip4_tcp_bytes(5, 6, 7, 8, 8114);
    let msg = nodes_msg(&[vec![a.clone()], vec![b.clone()]]);
    match parse_discovery(&msg) {
        Some(DiscoveryPayload::Nodes(nodes)) => {
            assert_eq!(nodes.len(), 2);
            assert_eq!(nodes[0], vec![a]);
            assert_eq!(nodes[1], vec![b]);
        },
        _ => panic!("neighbour list must parse as nodes"),
    }
}

#[test]
fn discovery_get_nodes_message_is_exact() {
    let msg = encode_get_nodes(1, 1000);
    let mut expected = Vec::new();
    expected.extend_from_slice(&le32(36));
    expected.extend_from_slice(&le32(8));
    expected.extend_from_slice(&le32(0));
    expected.extend_from_slice(&le32(24));
    expected.extend_from_slice(&le32(16));
    expected.extend_from_slice(&le32(20));
    expected.extend_from_slice(&le32(24));
    expected.extend_from_slice(&le32(1));
    expected.extend_from_slice(&le32(1000));
    assert_eq!(msg, expected);
}

#[test]
fn own_get_nodes_parses_as_request() {
    let msg = encode_get_nodes(1, 1000);
    match parse_discovery(&msg) {
        Some(DiscoveryPayload::GetNodes) => {},
        _ => panic!("the crawler's own greeting must parse as a request"),
    }
}

#[test]
fn frame_round_trip() {
    let body = vec![9u8, 8, 7, 6, 5];
    let framed = frame_encode(&body);
    assert_eq!(framed.len(), body.len() + 4);
    assert_eq!(&framed[..4], &[0, 0, 0, 5]);
    assert_eq!(frame_decode(&framed).expect("frame must decode"), body);
}

#[test]
fn frame_decode_rejects_short_input() {
    assert!(frame_decode(&[0, 0, 0]).is_none());
    assert!(frame_decode(&[0, 0, 0, 9, 1]).is_none());
}

#[test]
fn framed_nodes_message_still_parses_raw_first() {
    let msg = nodes_msg(&[vec![ip4_tcp_bytes(1, 1, 1, 1, 1)]]);
    let framed = frame_encode(&msg);
    assert!(parse_discovery(&framed).is_none());
    let body = frame_decode(&framed).unwrap();
    assert!(matches!(parse_discovery(&body), Some(DiscoveryPayload::Nodes(_))));
}

#[test]
fn unknown_discovery_union_id_is_rejected() {
    // a discovery message whose payload carries an unknown union id
    let mut union_bytes = le32(7);
    union_bytes.extend_from_slice(&mol_table(&[vec![0u8]]));
    let msg = mol_table(&[union_bytes]);
    assert!(parse_discovery(&msg).is_none());
}
