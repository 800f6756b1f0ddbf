use mmr_history::codec::{
    digest_node, hash_node, parse_node, read_entry, read_frame, read_node, DecodeError,
    EntryKind, CURRENT_NODE_MAX, CURRENT_NODE_MIN, DIGEST_SIZE, LEGACY_NODE_MAX,
    LEGACY_NODE_MIN, MAX_ENTRY_SIZE, MAX_NODE_DATA_SIZE,
};
use mmr_history::epoch::TreeVersion;
use zcash_history::{NodeData, Version, V1, V2};

const CANOPY: u32 = 0xe9ff_75a6;
const NU5: u32 = 0xc2d6_d0b4;

type CurrentData = <V2 as Version>::NodeData;

fn sample_legacy() -> NodeData {
    NodeData {
        consensus_branch_id: CANOPY,
        subtree_commitment: [0xaa; 32],
        start_time: 11,
        end_time: 12,
        start_target: 13,
        end_target: 14,
        start_sapling_root: [0xbb; 32],
        end_sapling_root: [0xcc; 32],
        subtree_total_work: 0x0102_0304_0506_0708u64.into(),
        start_height: 903_000,
        end_height: 903_007,
        sapling_tx: 70_000,
    }
}

fn sample_current() -> CurrentData {
    let mut data = CurrentData::default();
    data.v1 = sample_legacy();
    data.v1.consensus_branch_id = NU5;
    data.start_orchard_root = [0xdd; 32];
    data.end_orchard_root = [0xee; 32];
    data.orchard_tx = 0x1_0000_0001;
    data
}

#[test]
fn sizes_are_those_of_the_encoding() {
    assert_eq!(MAX_NODE_DATA_SIZE, zcash_history::MAX_NODE_DATA_SIZE);
    assert_eq!(MAX_ENTRY_SIZE, zcash_history::MAX_ENTRY_SIZE);
    assert_eq!(DIGEST_SIZE, V1::hash(&sample_legacy()).len());
    assert_eq!(V1::to_bytes(&NodeData::default()).len(), LEGACY_NODE_MIN);
    assert_eq!(V2::to_bytes(&CurrentData::default()).len(), CURRENT_NODE_MIN);
    let mut wide = NodeData::default();
    wide.start_height = u64::MAX;
    wide.end_height = u64::MAX;
    wide.sapling_tx = u64::MAX;
    assert_eq!(V1::to_bytes(&wide).len(), LEGACY_NODE_MAX);
    let mut wider = CurrentData::default();
    wider.v1 = wide;
    wider.orchard_tx = u64::MAX;
    assert_eq!(V2::to_bytes(&wider).len(), CURRENT_NODE_MAX);
}

#[test]
fn legacy_summary_has_the_fields_of_the_node() {
    let s = read_node(TreeVersion::Legacy, CANOPY, &V1::to_bytes(&sample_legacy())).unwrap();
    assert_eq!(s.start_height, 903_000);
    assert_eq!(s.end_height, 903_007);
    assert_eq!(s.sapling_tx, 70_000);
    assert_eq!(s.orchard_tx, 0);
    assert_eq!(s.work, [0x0102_0304_0506_0708, 0, 0, 0]);
}

#[test]
fn current_summary_has_the_fields_of_the_node() {
    let s = read_node(TreeVersion::Current, NU5, &V2::to_bytes(&sample_current())).unwrap();
    assert_eq!(s.start_height, 903_000);
    assert_eq!(s.end_height, 903_007);
    assert_eq!(s.sapling_tx, 70_000);
    assert_eq!(s.orchard_tx, 0x1_0000_0001);
    assert_eq!(s.work, [0x0102_0304_0506_0708, 0, 0, 0]);
}

#[test]
fn short_buffers_hold_no_node() {
    let legacy = V1::to_bytes(&sample_legacy());
    assert!(read_node(TreeVersion::Legacy, CANOPY, &legacy[..legacy.len() - 1]).is_none());
    assert!(read_node(TreeVersion::Legacy, CANOPY, &[0u8; 146]).is_none());
    assert!(read_node(TreeVersion::Legacy, CANOPY, &[0u8; 147]).is_some());
    assert!(read_node(TreeVersion::Current, NU5, &legacy).is_none());
    assert!(read_node(TreeVersion::Current, NU5, &[0u8; 211]).is_none());
    assert!(read_node(TreeVersion::Current, NU5, &[0xffu8; 244]).is_some());
    assert!(read_node(TreeVersion::Legacy, CANOPY, &[0xffu8; 171]).is_some());
}

#[test]
fn parse_node_tells_oversized_from_malformed() {
    assert_eq!(parse_node(NU5, vec![0u8; 245]).err(), Some(DecodeError::Oversized));
    assert_eq!(parse_node(NU5, vec![0u8; 200]).err(), Some(DecodeError::Malformed));
    assert_eq!(parse_node(NU5, Vec::new()).err(), Some(DecodeError::Malformed));
    assert!(parse_node(NU5, vec![0u8; 244]).is_ok());
    assert_eq!(hash_node(NU5, &[0u8; 245]).err(), Some(DecodeError::Oversized));
    assert_eq!(hash_node(CANOPY, &[0u8; 10]).err(), Some(DecodeError::Malformed));
}

#[test]
fn parsed_node_keeps_summary_and_epoch() {
    let mut bytes = V2::to_bytes(&sample_current());
    bytes.resize(MAX_NODE_DATA_SIZE, 0x5a);
    let node = parse_node(NU5, bytes.clone()).unwrap();
    assert_eq!(node.epoch(), NU5);
    assert_eq!(node.bytes(), &bytes);
    assert_eq!(node.summary().orchard_tx, 0x1_0000_0001);
    assert_eq!(node.summary().end_height, 903_007);
}

#[test]
fn encoding_drops_what_follows_the_node() {
    let exact = V2::to_bytes(&sample_current());
    let mut padded = exact.clone();
    padded.resize(MAX_NODE_DATA_SIZE, 0x5a);
    let node = parse_node(NU5, padded.clone()).unwrap();
    assert_eq!(node.encode(), exact);
    assert_ne!(node.encode(), padded);
    let legacy = V1::to_bytes(&sample_legacy());
    let mut padded = legacy.clone();
    padded.resize(200, 1);
    assert_eq!(parse_node(CANOPY, padded).unwrap().encode(), legacy);
}

#[test]
fn digest_is_that_of_the_node() {
    let legacy = sample_legacy();
    let current = sample_current();
    assert_eq!(hash_node(CANOPY, &V1::to_bytes(&legacy)).unwrap(), V1::hash(&legacy));
    assert_eq!(hash_node(NU5, &V2::to_bytes(&current)).unwrap(), V2::hash(&current));
    let node = parse_node(NU5, V2::to_bytes(&current)).unwrap();
    assert_eq!(node.hash(), V2::hash(&current));
    assert_eq!(
        digest_node(TreeVersion::Legacy, CANOPY, &V1::to_bytes(&legacy)),
        Some(V1::hash(&legacy))
    );
    assert_eq!(digest_node(TreeVersion::Current, NU5, &[1u8; 30]), None);
}

#[test]
fn hashing_twice_gives_one_digest() {
    let bytes = V2::to_bytes(&sample_current());
    assert_eq!(hash_node(NU5, &bytes).unwrap(), hash_node(NU5, &bytes.clone()).unwrap());
}

#[test]
fn one_changed_byte_changes_the_digest() {
    let bytes = V2::to_bytes(&sample_current());
    let digest = hash_node(NU5, &bytes).unwrap();
    for at in [0usize, 31, 40, 100, 150] {
        let mut other = bytes.clone();
        other[at] ^= 1;
        assert_ne!(hash_node(NU5, &other).unwrap(), digest);
    }
}

#[test]
fn the_epoch_picks_the_rules_and_enters_the_digest() {
    let nu6: u32 = 0xc8e7_1055;
    let heartwood: u32 = 0xf5b9_230b;
    let blossom: u32 = 0x2bb4_0e60;
    let mut legacy = sample_legacy();
    let bytes = V1::to_bytes(&legacy);
    legacy.consensus_branch_id = heartwood;
    assert_eq!(hash_node(heartwood, &bytes).unwrap(), V1::hash(&legacy));
    assert_ne!(hash_node(heartwood, &bytes).unwrap(), hash_node(CANOPY, &bytes).unwrap());
    assert_eq!(hash_node(nu6, &bytes).err(), Some(DecodeError::Malformed));
    legacy.consensus_branch_id = blossom;
    assert_eq!(hash_node(blossom, &bytes).unwrap(), V1::hash(&legacy));
    let mut current = sample_current();
    let bytes = V2::to_bytes(&current);
    current.v1.consensus_branch_id = nu6;
    assert_eq!(hash_node(nu6, &bytes).unwrap(), V2::hash(&current));
    assert_ne!(hash_node(blossom, &bytes).unwrap(), V2::hash(&current));
}

#[test]
fn frame_of_a_leaf_and_of_an_inner_node() {
    assert_eq!(read_frame(&[1, 9, 9]), Some((EntryKind::Leaf, 1)));
    assert_eq!(
        read_frame(&[0, 2, 1, 0, 0, 0xff, 0xff, 0xff, 0xff, 7]),
        Some((EntryKind::Node { left: 258, right: u32::MAX }, 9))
    );
    assert_eq!(read_frame(&[0, 0, 0, 0, 0, 0, 0, 0]), None);
    assert_eq!(read_frame(&[2, 0, 0, 0, 0, 0, 0, 0, 0, 0]), None);
    assert_eq!(read_frame(&[]), None);
}

#[test]
fn entry_is_frame_then_node() {
    let data = sample_current();
    let mut bytes = vec![0u8, 4, 0, 0, 0, 5, 0, 0, 0];
    bytes.extend(V2::to_bytes(&data));
    let facts = read_entry(TreeVersion::Current, NU5, 6, &bytes).unwrap();
    assert_eq!(facts.index, 6);
    assert_eq!(facts.kind, EntryKind::Node { left: 4, right: 5 });
    assert_eq!(facts.summary.start_height, 903_000);
    bytes[0] = 3;
    assert_eq!(
        read_entry(TreeVersion::Current, NU5, 6, &bytes).err(),
        Some(DecodeError::Malformed)
    );
    assert_eq!(
        read_entry(TreeVersion::Current, NU5, 6, &[1u8; 254]).err(),
        Some(DecodeError::Oversized)
    );
    assert!(read_entry(TreeVersion::Current, NU5, 6, &[1u8; 253]).is_ok());
    assert_eq!(
        read_entry(TreeVersion::Current, NU5, 6, &[1u8; 100]).err(),
        Some(DecodeError::Malformed)
    );
}
