use mmr_history::codec::{hash_node, parse_node, StoredEntry};
use mmr_history::tree::{build, AppendError, BuildError, TruncateError};
use zcash_history::{Entry, EntryLink, Version, V1, V2};

const NU5: u32 = 0xc2d6_d0b4;
const HEARTWOOD: u32 = 0xf5b9_230b;

type Current = <V2 as Version>::NodeData;

fn current_leaf(height: u64) -> Current {
    let mut data = Current::default();
    data.v1.consensus_branch_id = NU5;
    data.v1.subtree_commitment = [height as u8; 32];
    data.v1.start_time = height as u32 * 10 + 1;
    data.v1.end_time = height as u32 * 10 + 1;
    data.v1.start_target = 100 + height as u32;
    data.v1.end_target = 100 + height as u32;
    data.v1.subtree_total_work = 7u64.into();
    data.v1.start_height = height;
    data.v1.end_height = height;
    data.v1.sapling_tx = 5 + height;
    data.orchard_tx = 2 * height;
    data
}

fn leaf_entry(index: u32, data: &Current) -> StoredEntry {
    let mut bytes = Vec::new();
    Entry::<V2>::new_leaf(data.clone()).write(&mut bytes).unwrap();
    StoredEntry { index, bytes }
}

fn node_entry(index: u32, data: &Current, left: u32, right: u32) -> StoredEntry {
    let mut bytes = Vec::new();
    Entry::<V2>::new(data.clone(), EntryLink::Stored(left), EntryLink::Stored(right))
        .write(&mut bytes)
        .unwrap();
    StoredEntry { index, bytes }
}

#[test]
fn first_leaf_is_the_root() {
    let a = current_leaf(1);
    let tree = build(NU5, 0, vec![], vec![]).unwrap();
    let leaf = parse_node(NU5, V2::to_bytes(&a)).unwrap();
    let out = tree.append_leaf(&leaf).unwrap();
    assert_eq!(out.length, 1);
    assert!(out.nodes.is_empty());
    assert_eq!(out.root, V2::hash(&a));
}

#[test]
fn second_leaf_completes_one_node() {
    let a = current_leaf(1);
    let b = current_leaf(2);
    let tree = build(NU5, 1, vec![leaf_entry(0, &a)], vec![]).unwrap();
    let leaf = parse_node(NU5, V2::to_bytes(&b)).unwrap();
    let out = tree.append_leaf(&leaf).unwrap();
    let ab = V2::combine(&a, &b);
    assert_eq!(out.length, 3);
    assert_eq!(out.nodes, vec![V2::to_bytes(&ab)]);
    assert_eq!(out.root, V2::hash(&ab));
}

#[test]
fn third_leaf_completes_nothing() {
    let a = current_leaf(1);
    let b = current_leaf(2);
    let c = current_leaf(3);
    let ab = V2::combine(&a, &b);
    let tree = build(NU5, 3, vec![node_entry(2, &ab, 0, 1)], vec![]).unwrap();
    let leaf = parse_node(NU5, V2::to_bytes(&c)).unwrap();
    let out = tree.append_leaf(&leaf).unwrap();
    assert_eq!(out.length, 4);
    assert!(out.nodes.is_empty());
    assert_eq!(out.root, V2::hash(&V2::combine(&ab, &c)));
}

#[test]
fn fourth_leaf_completes_two_nodes() {
    let a = current_leaf(1);
    let b = current_leaf(2);
    let c = current_leaf(3);
    let d = current_leaf(4);
    let ab = V2::combine(&a, &b);
    let cd = V2::combine(&c, &d);
    let abcd = V2::combine(&ab, &cd);
    let tree = build(NU5, 4, vec![node_entry(2, &ab, 0, 1), leaf_entry(3, &c)], vec![]).unwrap();
    let leaf = parse_node(NU5, V2::to_bytes(&d)).unwrap();
    let out = tree.append_leaf(&leaf).unwrap();
    assert_eq!(out.length, 7);
    assert_eq!(out.nodes, vec![V2::to_bytes(&cd), V2::to_bytes(&abcd)]);
    assert_eq!(out.root, V2::hash(&abcd));
}

#[test]
fn truncate_undoes_the_second_append() {
    let a = current_leaf(1);
    let b = current_leaf(2);
    let ab = V2::combine(&a, &b);
    let tree = build(
        NU5,
        3,
        vec![node_entry(2, &ab, 0, 1)],
        vec![leaf_entry(0, &a), leaf_entry(1, &b)],
    )
    .unwrap();
    let out = tree.truncate_leaf().unwrap();
    assert_eq!(out.length, 1);
    assert_eq!(out.root, Some(V2::hash(&a)));
    assert_eq!(out.root.unwrap(), hash_node(NU5, &V2::to_bytes(&a)).unwrap());
}

#[test]
fn truncate_of_an_odd_tree_drops_one_node() {
    let a = current_leaf(1);
    let b = current_leaf(2);
    let c = current_leaf(3);
    let ab = V2::combine(&a, &b);
    let tree = build(NU5, 4, vec![node_entry(2, &ab, 0, 1), leaf_entry(3, &c)], vec![]).unwrap();
    let out = tree.truncate_leaf().unwrap();
    assert_eq!(out.length, 3);
    assert_eq!(out.root, Some(V2::hash(&ab)));
}

#[test]
fn truncate_of_four_leaves_takes_the_peak_apart() {
    let a = current_leaf(1);
    let b = current_leaf(2);
    let c = current_leaf(3);
    let d = current_leaf(4);
    let ab = V2::combine(&a, &b);
    let cd = V2::combine(&c, &d);
    let abcd = V2::combine(&ab, &cd);
    let tree = build(
        NU5,
        7,
        vec![node_entry(6, &abcd, 2, 5)],
        vec![
            node_entry(2, &ab, 0, 1),
            leaf_entry(3, &c),
            leaf_entry(4, &d),
            node_entry(5, &cd, 3, 4),
        ],
    )
    .unwrap();
    let out = tree.truncate_leaf().unwrap();
    assert_eq!(out.length, 4);
    assert_eq!(out.root, Some(V2::hash(&V2::combine(&ab, &c))));
}

#[test]
fn truncate_of_one_leaf_leaves_nothing() {
    let a = current_leaf(1);
    let tree = build(NU5, 1, vec![leaf_entry(0, &a)], vec![]).unwrap();
    let out = tree.truncate_leaf().unwrap();
    assert_eq!(out.length, 0);
    assert_eq!(out.root, None);
}

#[test]
fn truncate_of_nothing_is_refused() {
    let tree = build(NU5, 0, vec![], vec![]).unwrap();
    assert_eq!(tree.truncate_leaf().unwrap_err(), TruncateError::EmptyTree);
}

#[test]
fn truncate_without_the_children_is_refused() {
    let a = current_leaf(1);
    let b = current_leaf(2);
    let ab = V2::combine(&a, &b);
    let tree = build(NU5, 3, vec![node_entry(2, &ab, 0, 1)], vec![leaf_entry(1, &b)]).unwrap();
    assert_eq!(tree.truncate_leaf().unwrap_err(), TruncateError::MissingExtras);
}

#[test]
fn append_without_a_peak_is_refused() {
    let a = current_leaf(1);
    let b = current_leaf(2);
    let c = current_leaf(3);
    let d = current_leaf(4);
    let ab = V2::combine(&a, &b);
    let tree = build(NU5, 4, vec![node_entry(2, &ab, 0, 1)], vec![]).unwrap();
    let leaf = parse_node(NU5, V2::to_bytes(&d)).unwrap();
    assert_eq!(tree.append_leaf(&leaf).unwrap_err(), AppendError::UnresolvableNode);
    let tree = build(NU5, 4, vec![leaf_entry(3, &c)], vec![]).unwrap();
    assert_eq!(tree.append_leaf(&leaf).unwrap_err(), AppendError::UnresolvableNode);
}

#[test]
fn leaf_of_another_epoch_is_refused() {
    let a = current_leaf(1);
    let tree = build(NU5, 1, vec![leaf_entry(0, &a)], vec![]).unwrap();
    let mut other = zcash_history::NodeData::default();
    other.start_height = 2;
    other.end_height = 2;
    let leaf = parse_node(HEARTWOOD, V1::to_bytes(&other)).unwrap();
    assert_eq!(tree.append_leaf(&leaf).unwrap_err(), AppendError::UnresolvableNode);
}

#[test]
fn build_refuses_an_unknown_kind_byte() {
    let a = current_leaf(1);
    let mut entry = leaf_entry(0, &a);
    entry.bytes[0] = 2;
    assert_eq!(build(NU5, 1, vec![entry], vec![]).err(), Some(BuildError::InvalidEncoding));
}

#[test]
fn build_refuses_a_short_extra() {
    let a = current_leaf(1);
    let mut extra = leaf_entry(5, &a);
    extra.bytes.truncate(100);
    let r = build(NU5, 1, vec![leaf_entry(0, &a)], vec![extra]);
    assert_eq!(r.err(), Some(BuildError::InvalidEncoding));
}

#[test]
fn append_then_truncate_restores_root_and_length() {
    let a = current_leaf(1);
    let b = current_leaf(2);
    let c = current_leaf(3);
    let d = current_leaf(4);
    let ab = V2::combine(&a, &b);
    let before_root = V2::hash(&V2::combine(&ab, &c));
    let peaks = vec![node_entry(2, &ab, 0, 1), leaf_entry(3, &c)];
    let tree = build(NU5, 4, peaks, vec![]).unwrap();
    let leaf = parse_node(NU5, V2::to_bytes(&d)).unwrap();
    let grown = tree.append_leaf(&leaf).unwrap();
    assert_eq!(grown.length, 7);
    let cd = <V2 as Version>::from_bytes(NU5, &grown.nodes[0]).unwrap();
    let abcd = <V2 as Version>::from_bytes(NU5, &grown.nodes[1]).unwrap();
    let after = build(
        NU5,
        grown.length,
        vec![node_entry(6, &abcd, 2, 5)],
        vec![
            node_entry(2, &ab, 0, 1),
            leaf_entry(3, &c),
            leaf_entry(4, &d),
            node_entry(5, &cd, 3, 4),
        ],
    )
    .unwrap();
    let shrunk = after.truncate_leaf().unwrap();
    assert_eq!(shrunk.length, 4);
    assert_eq!(shrunk.root, Some(before_root));
}

#[test]
fn append_refuses_totals_out_of_range() {
    let mut a = current_leaf(1);
    a.v1.sapling_tx = u64::MAX;
    let b = current_leaf(2);
    let tree = build(NU5, 1, vec![leaf_entry(0, &a)], vec![]).unwrap();
    let leaf = parse_node(NU5, V2::to_bytes(&b)).unwrap();
    assert_eq!(tree.append_leaf(&leaf).unwrap_err(), AppendError::UnresolvableNode);
    assert!(!tree.check_append(&leaf));
}

#[test]
fn append_refuses_a_leaf_at_height_zero() {
    let a = current_leaf(0);
    let b = current_leaf(1);
    let tree = build(NU5, 1, vec![leaf_entry(0, &a)], vec![]).unwrap();
    let leaf = parse_node(NU5, V2::to_bytes(&b)).unwrap();
    assert_eq!(tree.append_leaf(&leaf).unwrap_err(), AppendError::UnresolvableNode);
}

#[test]
fn truncate_refuses_an_extra_on_a_peak() {
    let a = current_leaf(1);
    let b = current_leaf(2);
    let ab = V2::combine(&a, &b);
    let tree = build(
        NU5,
        3,
        vec![node_entry(2, &ab, 0, 1)],
        vec![leaf_entry(0, &a), leaf_entry(1, &b), leaf_entry(2, &b)],
    )
    .unwrap();
    assert_eq!(tree.truncate_leaf().unwrap_err(), TruncateError::MissingExtras);
    assert_eq!(tree.check_truncate(), None);
}

#[test]
fn snapshot_reports_what_it_was_made_of() {
    let a = current_leaf(1);
    let tree = build(NU5, 1, vec![leaf_entry(0, &a)], vec![]).unwrap();
    assert_eq!(tree.len(), 1);
    assert_eq!(tree.epoch(), NU5);
    assert_eq!(tree.peak_count(), 1);
}

#[test]
fn legacy_tree_grows_and_shrinks() {
    let mut a = zcash_history::NodeData::default();
    a.consensus_branch_id = HEARTWOOD;
    a.start_height = 100;
    a.end_height = 100;
    a.sapling_tx = 4;
    let mut b = a.clone();
    b.start_height = 101;
    b.end_height = 101;
    let ab = V1::combine(&a, &b);
    let mut bytes = Vec::new();
    Entry::<V1>::new_leaf(a.clone()).write(&mut bytes).unwrap();
    let tree = build(HEARTWOOD, 1, vec![StoredEntry { index: 0, bytes: bytes.clone() }], vec![])
        .unwrap();
    let leaf = parse_node(HEARTWOOD, V1::to_bytes(&b)).unwrap();
    let out = tree.append_leaf(&leaf).unwrap();
    assert_eq!(out.nodes, vec![V1::to_bytes(&ab)]);
    assert_eq!(out.root, V1::hash(&ab));
    assert_eq!(out.length, 3);
    let mut top = Vec::new();
    Entry::<V1>::new(ab.clone(), EntryLink::Stored(0), EntryLink::Stored(1))
        .write(&mut top)
        .unwrap();
    let mut right = Vec::new();
    Entry::<V1>::new_leaf(b.clone()).write(&mut right).unwrap();
    let grown = build(
        HEARTWOOD,
        3,
        vec![StoredEntry { index: 2, bytes: top }],
        vec![StoredEntry { index: 0, bytes }, StoredEntry { index: 1, bytes: right }],
    )
    .unwrap();
    let back = grown.truncate_leaf().unwrap();
    assert_eq!(back.length, 1);
    assert_eq!(back.root, Some(V1::hash(&a)));
}

#[test]
fn full_buffers_with_a_known_tag_always_build() {
    let mut leaf = vec![0xffu8; 253];
    leaf[0] = 1;
    let mut inner = vec![0x11u8; 253];
    inner[0] = 0;
    let peaks = vec![StoredEntry { index: 0, bytes: leaf.clone() }];
    let extras = vec![StoredEntry { index: 9, bytes: inner }];
    assert!(build(NU5, 1, peaks, extras).is_ok());
    assert!(build(HEARTWOOD, 1, vec![StoredEntry { index: 0, bytes: leaf }], vec![]).is_ok());
}

#[test]
fn append_completes_one_node_for_each_peak_it_carries_into() {
    let a = current_leaf(1);
    let b = current_leaf(2);
    let c = current_leaf(3);
    let d = current_leaf(4);
    let e = current_leaf(5);
    let ab = V2::combine(&a, &b);
    let cd = V2::combine(&c, &d);
    let abcd = V2::combine(&ab, &cd);
    let tree = build(NU5, 7, vec![node_entry(6, &abcd, 2, 5)], vec![]).unwrap();
    let leaf = parse_node(NU5, V2::to_bytes(&e)).unwrap();
    let out = tree.append_leaf(&leaf).unwrap();
    assert!(out.nodes.is_empty());
    assert_eq!(out.length, 8);
    let tree = build(NU5, 4, vec![node_entry(2, &ab, 0, 1), leaf_entry(3, &c)], vec![]).unwrap();
    let leaf = parse_node(NU5, V2::to_bytes(&d)).unwrap();
    let out = tree.append_leaf(&leaf).unwrap();
    assert_eq!(out.nodes.len(), 2);
    assert_eq!(out.root, hash_node(NU5, out.nodes.last().unwrap()).unwrap());
}
