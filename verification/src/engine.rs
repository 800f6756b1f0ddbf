//! The tree engine of zcash_history, behind four calls.
//!
//! The engine panics or does not return on snapshots that are not coherent:
//! it adds totals without a check, takes leaf counts from heights by
//! subtraction, and follows child positions wherever they lead. Each call here
//! therefore asks that the snapshot has been checked first. On a snapshot
//! that has been, the engine does not fail, and the calls say so.
//!
//! The engine reads an entry as this crate frames it: the byte 1 for a leaf,
//! or the byte 0 and the positions of two children, least significant byte
//! first, and then the node. An entry that decodes here is one that
//! `Entry::from_bytes` reads.

use vstd::prelude::*;
use zcash_history::{Entry, Tree, Version, V1, V2};

use crate::codec::{
    current_encoding, current_fields, decoded_entry, legacy_encoding, legacy_fields,
    node_decodes, node_encoding, node_fields, EntryFacts, StoredEntry, MAX_NODE_DATA_SIZE,
};
use crate::epoch::TreeVersion;
use crate::layout::{append_ready, carries, lemma_carried_is_bounded, truncate_ready};

verus! {

/// The positions of supplied entries.
pub open spec fn indices_of(entries: Seq<StoredEntry>) -> Seq<u32> {
    Seq::new(entries.len(), |i: int| entries[i].index)
}

/// The encodings of supplied entries.
pub open spec fn bytes_of(entries: Seq<StoredEntry>) -> Seq<Seq<u8>> {
    Seq::new(entries.len(), |i: int| entries[i].bytes@)
}

/// The contents of a list of buffers.
pub open spec fn views_of(buffers: Seq<Vec<u8>>) -> Seq<Seq<u8>> {
    Seq::new(buffers.len(), |i: int| buffers[i]@)
}

/// Whether every supplied entry decodes.
pub open spec fn all_decode(version: TreeVersion, branch: u32, entries: Seq<StoredEntry>) -> bool {
    forall|i: int|
        0 <= i < entries.len() ==> decoded_entry(version, branch, #[trigger] entries[i]) is Some
}

/// What the supplied entries decode to.
pub open spec fn facts_of(version: TreeVersion, branch: u32, entries: Seq<StoredEntry>) -> Seq<
    EntryFacts,
> {
    Seq::new(entries.len(), |i: int| decoded_entry(version, branch, entries[i])->0)
}

/// What `Tree::append_leaf` of zcash_history does to the legacy tree that
/// `Tree::new` makes of a length and peaks: the encodings of the nodes it
/// stores, the leaf first, and the encoding of the new root; `None` where it
/// fails.
pub uninterp spec fn legacy_append_outcome(
    branch: u32,
    length: u32,
    indices: Seq<u32>,
    entries: Seq<Seq<u8>>,
    leaf: Seq<u8>,
) -> Option<(Seq<Seq<u8>>, Seq<u8>)>;

/// What `Tree::append_leaf` of zcash_history does to the current tree that
/// `Tree::new` makes of a length and peaks: the encodings of the nodes it
/// stores, the leaf first, and the encoding of the new root; `None` where it
/// fails.
pub uninterp spec fn current_append_outcome(
    branch: u32,
    length: u32,
    indices: Seq<u32>,
    entries: Seq<Seq<u8>>,
    leaf: Seq<u8>,
) -> Option<(Seq<Seq<u8>>, Seq<u8>)>;

/// The encoding of the root that `Tree::truncate_leaf` of zcash_history leaves
/// in the legacy tree that `Tree::new` makes of a length, peaks and extra
/// entries; `None` where it fails.
pub uninterp spec fn legacy_truncate_outcome(
    branch: u32,
    length: u32,
    peak_indices: Seq<u32>,
    peak_entries: Seq<Seq<u8>>,
    extra_indices: Seq<u32>,
    extra_entries: Seq<Seq<u8>>,
) -> Option<Seq<u8>>;

/// The encoding of the root that `Tree::truncate_leaf` of zcash_history leaves
/// in the current tree that `Tree::new` makes of a length, peaks and extra
/// entries; `None` where it fails.
pub uninterp spec fn current_truncate_outcome(
    branch: u32,
    length: u32,
    peak_indices: Seq<u32>,
    peak_entries: Seq<Seq<u8>>,
    extra_indices: Seq<u32>,
    extra_entries: Seq<Seq<u8>>,
) -> Option<Seq<u8>>;

/// What appending `leaf` gives under `version`.
pub open spec fn append_outcome(
    version: TreeVersion,
    branch: u32,
    length: u32,
    peaks: Seq<StoredEntry>,
    leaf: Seq<u8>,
) -> Option<(Seq<Seq<u8>>, Seq<u8>)> {
    match version {
        TreeVersion::Legacy => legacy_append_outcome(
            branch,
            length,
            indices_of(peaks),
            bytes_of(peaks),
            leaf,
        ),
        TreeVersion::Current => current_append_outcome(
            branch,
            length,
            indices_of(peaks),
            bytes_of(peaks),
            leaf,
        ),
    }
}

/// What taking the last leaf away gives under `version`.
pub open spec fn truncate_outcome(
    version: TreeVersion,
    branch: u32,
    length: u32,
    peaks: Seq<StoredEntry>,
    extras: Seq<StoredEntry>,
) -> Option<Seq<u8>> {
    match version {
        TreeVersion::Legacy => legacy_truncate_outcome(
            branch,
            length,
            indices_of(peaks),
            bytes_of(peaks),
            indices_of(extras),
            bytes_of(extras),
        ),
        TreeVersion::Current => current_truncate_outcome(
            branch,
            length,
            indices_of(peaks),
            bytes_of(peaks),
            indices_of(extras),
            bytes_of(extras),
        ),
    }
}

/// Whether the engine may be asked to append `leaf`.
pub open spec fn may_append(
    version: TreeVersion,
    branch: u32,
    length: u32,
    peaks: Seq<StoredEntry>,
    leaf: Seq<u8>,
) -> bool {
    &&& all_decode(version, branch, peaks)
    &&& node_decodes(version, branch, leaf)
    &&& append_ready(
        length,
        facts_of(version, branch, peaks),
        node_fields(version, branch, leaf)->0,
    )
}

/// Whether the engine may be asked to take the last leaf away.
pub open spec fn may_truncate(
    version: TreeVersion,
    branch: u32,
    length: u32,
    peaks: Seq<StoredEntry>,
    extras: Seq<StoredEntry>,
) -> bool {
    &&& all_decode(version, branch, peaks)
    &&& all_decode(version, branch, extras)
    &&& truncate_ready(
        length,
        facts_of(version, branch, peaks),
        facts_of(version, branch, extras),
    )
}

/// What is known of what the engine stored for a leaf and of the new root,
/// besides their names: the engine stores the leaf and one node for each peak
/// that the leaf carries into; the first encoding is the leaf's; the root can
/// be read back; and where every peak was carried into, the last node stored
/// is the root.
pub open spec fn stored_as_due(
    version: TreeVersion,
    branch: u32,
    peaks: Seq<StoredEntry>,
    leaf: Seq<u8>,
    nodes: Seq<Seq<u8>>,
    root: Seq<u8>,
) -> bool {
    &&& nodes.len() == 1 + carries(facts_of(version, branch, peaks))
    &&& nodes[0] == node_encoding(version, branch, leaf)
    &&& node_decodes(version, branch, root)
    &&& carries(facts_of(version, branch, peaks)) == peaks.len() ==> root == nodes.last()
}

/// Makes a legacy tree with `Tree::new` of zcash_history, calls
/// `Tree::append_leaf` on it, and hands out the encoding of each node that the
/// call stored, with `Tree::resolve_link` and `V1::to_bytes`, and the
/// encoding of the new root, with `Tree::root_node` and `V1::to_bytes`.
///
/// Trusted, of a snapshot that `may_append` admits. Every entry and the leaf
/// decode, and there is a peak, so decoding and `Tree::new` do not panic. The
/// peaks cover consecutive blocks above height zero and each is a perfect
/// subtree, smaller than the one before, so no leaf count is taken from a
/// descending range and the search for peaks finds the peaks, all supplied.
/// Every node that is combined covers peaks and leaf once each, so with their
/// totals in range no sum overflows. So the call succeeds. The engine stores
/// the leaf first, then merges it with the last peak while the two cover as
/// many leaves, storing each merged node: one for every peak that the leaf
/// carries into, which the array has room for. The links it returns are those
/// of the nodes it stored. Where it merged every peak the last node stored is
/// the root. What `to_bytes` writes can be read back. The result depends on
/// the arguments alone.
#[verifier::external_body]
fn legacy_append(branch: u32, length: u32, peaks: &Vec<StoredEntry>, leaf: &[u8]) -> (r: Option<
    (Vec<Vec<u8>>, Vec<u8>),
>)
    requires
        may_append(TreeVersion::Legacy, branch, length, peaks@, leaf@),
    ensures
        match r {
            Some((nodes, root)) => {
                &&& legacy_append_outcome(
                    branch,
                    length,
                    indices_of(peaks@),
                    bytes_of(peaks@),
                    leaf@,
                ) == Some((views_of(nodes@), root@))
                &&& nodes@.len() == 1 + carries(facts_of(TreeVersion::Legacy, branch, peaks@))
                &&& nodes@[0]@ == legacy_encoding(branch, leaf@)
                &&& root@.len() <= MAX_NODE_DATA_SIZE
                &&& legacy_fields(branch, root@) is Some
                &&& carries(facts_of(TreeVersion::Legacy, branch, peaks@)) == peaks@.len()
                    ==> root@ == nodes@[nodes@.len() - 1]@
            },
            None => false,
        },
{
    let load = |e: &StoredEntry| (e.index, Entry::from_bytes(branch, &e.bytes).unwrap());
    let mut tree = Tree::<V1>::new(length, peaks.iter().map(load).collect(), Vec::new());
    let links = tree.append_leaf(V1::from_bytes(branch, leaf).unwrap()).ok()?;
    let nodes =
        links.iter().map(|l| V1::to_bytes(tree.resolve_link(*l).unwrap().data())).collect();
    Some((nodes, V1::to_bytes(tree.root_node().ok()?.data())))
}

/// Makes a current tree with `Tree::new` of zcash_history, calls
/// `Tree::append_leaf` on it, and hands out the encoding of each node that the
/// call stored, with `Tree::resolve_link` and `V2::to_bytes`, and the
/// encoding of the new root, with `Tree::root_node` and `V2::to_bytes`.
///
/// Trusted, of a snapshot that `may_append` admits. Every entry and the leaf
/// decode, and there is a peak, so decoding and `Tree::new` do not panic. The
/// peaks cover consecutive blocks above height zero and each is a perfect
/// subtree, smaller than the one before, so no leaf count is taken from a
/// descending range and the search for peaks finds the peaks, all supplied.
/// Every node that is combined covers peaks and leaf once each, so with their
/// totals in range no sum overflows. So the call succeeds. The engine stores
/// the leaf first, then merges it with the last peak while the two cover as
/// many leaves, storing each merged node: one for every peak that the leaf
/// carries into, which the array has room for. The links it returns are those
/// of the nodes it stored. Where it merged every peak the last node stored is
/// the root. What `to_bytes` writes can be read back. The result depends on
/// the arguments alone.
#[verifier::external_body]
fn current_append(branch: u32, length: u32, peaks: &Vec<StoredEntry>, leaf: &[u8]) -> (r: Option<
    (Vec<Vec<u8>>, Vec<u8>),
>)
    requires
        may_append(TreeVersion::Current, branch, length, peaks@, leaf@),
    ensures
        match r {
            Some((nodes, root)) => {
                &&& current_append_outcome(
                    branch,
                    length,
                    indices_of(peaks@),
                    bytes_of(peaks@),
                    leaf@,
                ) == Some((views_of(nodes@), root@))
                &&& nodes@.len() == 1 + carries(facts_of(TreeVersion::Current, branch, peaks@))
                &&& nodes@[0]@ == current_encoding(branch, leaf@)
                &&& root@.len() <= MAX_NODE_DATA_SIZE
                &&& current_fields(branch, root@) is Some
                &&& carries(facts_of(TreeVersion::Current, branch, peaks@)) == peaks@.len()
                    ==> root@ == nodes@[nodes@.len() - 1]@
            },
            None => false,
        },
{
    let load = |e: &StoredEntry| (e.index, Entry::from_bytes(branch, &e.bytes).unwrap());
    let mut tree = Tree::<V2>::new(length, peaks.iter().map(load).collect(), Vec::new());
    let links = tree.append_leaf(V2::from_bytes(branch, leaf).unwrap()).ok()?;
    let nodes =
        links.iter().map(|l| V2::to_bytes(tree.resolve_link(*l).unwrap().data())).collect();
    Some((nodes, V2::to_bytes(tree.root_node().ok()?.data())))
}

/// Makes a legacy tree with `Tree::new` of zcash_history, calls
/// `Tree::truncate_leaf` on it, and hands out the encoding of the root that is
/// left, with `Tree::root_node` and `V1::to_bytes`.
///
/// Trusted, of a snapshot that `may_truncate` admits. Every entry decodes, and
/// there is a peak, so decoding and `Tree::new` do not panic; no extra entry
/// replaces a peak. The tree has more than one leaf, so its root has children.
/// From the last peak the engine follows right children, each stored one
/// position before its parent with the frame of that position, so the walk
/// ends at the last leaf after as many steps as the peak is high, and removes
/// no more nodes than the array holds. It then combines what is left of the
/// peaks with the left children it met, each once and each supplied, and their
/// totals are in range. So the call succeeds. What `to_bytes` writes can be
/// read back. The result depends on the arguments alone.
#[verifier::external_body]
fn legacy_truncate(
    branch: u32,
    length: u32,
    peaks: &Vec<StoredEntry>,
    extras: &Vec<StoredEntry>,
) -> (r: Option<Vec<u8>>)
    requires
        may_truncate(TreeVersion::Legacy, branch, length, peaks@, extras@),
    ensures
        match r {
            Some(root) => {
                &&& legacy_truncate_outcome(
                    branch,
                    length,
                    indices_of(peaks@),
                    bytes_of(peaks@),
                    indices_of(extras@),
                    bytes_of(extras@),
                ) == Some(root@)
                &&& root@.len() <= MAX_NODE_DATA_SIZE
                &&& legacy_fields(branch, root@) is Some
            },
            None => false,
        },
{
    let load = |e: &StoredEntry| (e.index, Entry::from_bytes(branch, &e.bytes).unwrap());
    let stored = peaks.iter().map(load).collect();
    let mut tree = Tree::<V1>::new(length, stored, extras.iter().map(load).collect());
    tree.truncate_leaf().ok()?;
    Some(V1::to_bytes(tree.root_node().ok()?.data()))
}

/// Makes a current tree with `Tree::new` of zcash_history, calls
/// `Tree::truncate_leaf` on it, and hands out the encoding of the root that is
/// left, with `Tree::root_node` and `V2::to_bytes`.
///
/// Trusted, of a snapshot that `may_truncate` admits. Every entry decodes, and
/// there is a peak, so decoding and `Tree::new` do not panic; no extra entry
/// replaces a peak. The tree has more than one leaf, so its root has children.
/// From the last peak the engine follows right children, each stored one
/// position before its parent with the frame of that position, so the walk
/// ends at the last leaf after as many steps as the peak is high, and removes
/// no more nodes than the array holds. It then combines what is left of the
/// peaks with the left children it met, each once and each supplied, and their
/// totals are in range. So the call succeeds. What `to_bytes` writes can be
/// read back. The result depends on the arguments alone.
#[verifier::external_body]
fn current_truncate(
    branch: u32,
    length: u32,
    peaks: &Vec<StoredEntry>,
    extras: &Vec<StoredEntry>,
) -> (r: Option<Vec<u8>>)
    requires
        may_truncate(TreeVersion::Current, branch, length, peaks@, extras@),
    ensures
        match r {
            Some(root) => {
                &&& current_truncate_outcome(
                    branch,
                    length,
                    indices_of(peaks@),
                    bytes_of(peaks@),
                    indices_of(extras@),
                    bytes_of(extras@),
                ) == Some(root@)
                &&& root@.len() <= MAX_NODE_DATA_SIZE
                &&& current_fields(branch, root@) is Some
            },
            None => false,
        },
{
    let load = |e: &StoredEntry| (e.index, Entry::from_bytes(branch, &e.bytes).unwrap());
    let stored = peaks.iter().map(load).collect();
    let mut tree = Tree::<V2>::new(length, stored, extras.iter().map(load).collect());
    tree.truncate_leaf().ok()?;
    Some(V2::to_bytes(tree.root_node().ok()?.data()))
}

/// Appends `leaf` with the engine of `version`. Gives the encodings of the
/// nodes that the engine stored, the leaf first, and the encoding of the new
/// root.
pub fn engine_append(
    version: TreeVersion,
    branch: u32,
    length: u32,
    peaks: &Vec<StoredEntry>,
    leaf: &[u8],
) -> (r: (Vec<Vec<u8>>, Vec<u8>))
    requires
        may_append(version, branch, length, peaks@, leaf@),
    ensures
        append_outcome(version, branch, length, peaks@, leaf@) == Some((views_of(r.0@), r.1@)),
        stored_as_due(version, branch, peaks@, leaf@, views_of(r.0@), r.1@),
{
    let given = match version {
        TreeVersion::Legacy => legacy_append(branch, length, peaks, leaf),
        TreeVersion::Current => current_append(branch, length, peaks, leaf),
    };
    proof {
        let facts = facts_of(version, branch, peaks@);
        lemma_carried_is_bounded(facts, facts.len() as int, 1);
    }
    match given {
        Some((nodes, root)) => {
            assert(views_of(nodes@)[0] == nodes@[0]@);
            assert(views_of(nodes@).last() == nodes@[nodes@.len() - 1]@);
            (nodes, root)
        },
        None => (Vec::new(), Vec::new()),
    }
}

/// Takes the last leaf away with the engine of `version`. Gives the encoding
/// of the root that is left.
pub fn engine_truncate(
    version: TreeVersion,
    branch: u32,
    length: u32,
    peaks: &Vec<StoredEntry>,
    extras: &Vec<StoredEntry>,
) -> (root: Vec<u8>)
    requires
        may_truncate(version, branch, length, peaks@, extras@),
    ensures
        truncate_outcome(version, branch, length, peaks@, extras@) == Some(root@),
        node_decodes(version, branch, root@),
{
    let given = match version {
        TreeVersion::Legacy => legacy_truncate(branch, length, peaks, extras),
        TreeVersion::Current => current_truncate(branch, length, peaks, extras),
    };
    match given {
        Some(root) => root,
        None => Vec::new(),
    }
}

} // verus!
