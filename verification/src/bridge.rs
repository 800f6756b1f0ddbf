//! The three operations as a foreign caller sees them: plain buffers in, and
//! answers written into what the caller hands in.
//!
//! Append and delete say whether they succeeded apart from the number they
//! give: a leaf may complete no node, and a tree may be left with no node,
//! so zero is an answer like any other. Hashing returns zero on success and
//! one on failure.

use vstd::prelude::*;

use crate::codec::{
    decoded_entry, hash_node, node_decodes, node_digest, node_fields, parse_node, StoredEntry,
    MAX_NODE_DATA_SIZE,
};
use crate::counting::ceil_log2;
use crate::engine::{all_decode, facts_of, views_of};
use crate::epoch::{is_known_epoch, version_of_id};
use crate::layout::{append_ready, carries, truncate_ready};
use crate::tree::{append_result, build, one_leaf, truncate_result};

verus! {

/// What append hands back: nothing without a leaf, else what appending the
/// leaf to the tree of these peaks gives.
pub open spec fn append_answer(
    cbranch: u32,
    t_len: u32,
    peaks: Seq<StoredEntry>,
    new_node: Option<Vec<u8>>,
) -> Option<(Seq<Seq<u8>>, Seq<u8>)> {
    match new_node {
        Some(leaf) => append_result(cbranch, t_len, peaks, leaf@),
        None => None,
    }
}

/// Whether append succeeds: there is a leaf, it and every peak decode, and
/// the tree is empty or its peaks are ready for the leaf.
pub open spec fn append_succeeds(
    cbranch: u32,
    t_len: u32,
    peaks: Seq<StoredEntry>,
    new_node: Option<Vec<u8>>,
) -> bool {
    let version = version_of_id(cbranch);
    match new_node {
        Some(leaf) => {
            &&& all_decode(version, cbranch, peaks)
            &&& node_decodes(version, cbranch, leaf@)
            &&& if peaks.len() == 0 {
                t_len == 0
            } else {
                append_ready(
                    t_len,
                    facts_of(version, cbranch, peaks),
                    node_fields(version, cbranch, leaf@)->0,
                )
            }
        },
        None => false,
    }
}

/// What delete hands back: nothing where more peaks are announced than
/// entries supplied or an entry does not decode, else what taking the last
/// leaf away gives. The first `p_len` entries are the peaks.
pub open spec fn delete_answer(cbranch: u32, t_len: u32, entries: Seq<StoredEntry>, p_len: usize) -> Option<
    (int, Option<Seq<u8>>),
> {
    if p_len > entries.len() || !all_decode(version_of_id(cbranch), cbranch, entries) {
        None
    } else {
        match truncate_result(
            cbranch,
            t_len,
            entries.subrange(0, p_len as int),
            entries.subrange(p_len as int, entries.len() as int),
        ) {
            Ok(answer) => Some(answer),
            Err(_) => None,
        }
    }
}

/// Whether delete succeeds: the peaks announced are supplied, every entry
/// decodes, the tree has a leaf, and it holds one leaf only or everything that
/// taking its last peak apart needs is supplied.
pub open spec fn delete_succeeds(cbranch: u32, t_len: u32, entries: Seq<StoredEntry>, p_len: usize) -> bool {
    let version = version_of_id(cbranch);
    let peaks = facts_of(version, cbranch, entries.subrange(0, p_len as int));
    let extras = facts_of(
        version,
        cbranch,
        entries.subrange(p_len as int, entries.len() as int),
    );
    &&& p_len <= entries.len()
    &&& all_decode(version, cbranch, entries)
    &&& t_len > 0
    &&& one_leaf(t_len, peaks) || truncate_ready(t_len, peaks, extras)
}

/// Appends the leaf in `new_node` to the tree of `t_len` nodes whose peaks
/// are `peaks`. On success the inner nodes that the leaf completed are put
/// into `buf_ret`, the leaf not among them, the digest of the new root into
/// `rt_ret`, and the number of those nodes is returned. It is the number of
/// peaks that the leaf carries into, and no more than the logarithm of
/// `t_len + 1`, rounded up. On failure nothing is returned and nothing is
/// written.
pub fn librustzcash_mmr_append(
    cbranch: u32,
    t_len: u32,
    peaks: Vec<StoredEntry>,
    new_node: Option<Vec<u8>>,
    rt_ret: &mut [u8; 32],
    buf_ret: &mut Vec<Vec<u8>>,
) -> (count: Option<u32>)
    requires
        is_known_epoch(cbranch),
    ensures
        count is Some <==> append_succeeds(cbranch, t_len, peaks@, new_node),
        match new_node {
            Some(leaf) => leaf@.len() == MAX_NODE_DATA_SIZE ==> node_decodes(
                version_of_id(cbranch),
                cbranch,
                leaf@,
            ),
            None => count is None,
        },
        match count {
            Some(n) => {
                &&& append_answer(cbranch, t_len, peaks@, new_node) == Some(
                    (views_of(final(buf_ret)@), final(rt_ret)@),
                )
                &&& n == final(buf_ret)@.len()
                &&& n == carries(facts_of(version_of_id(cbranch), cbranch, peaks@))
                &&& n <= ceil_log2(t_len + 1)
            },
            None => {
                &&& append_answer(cbranch, t_len, peaks@, new_node) is None
                &&& *final(rt_ret) == *old(rt_ret)
                &&& *final(buf_ret) == *old(buf_ret)
            },
        },
{
    let new_node_bytes = match new_node {
        Some(bytes) => bytes,
        None => {
            return None;
        },
    };
    let node = match parse_node(cbranch, new_node_bytes) {
        Ok(node) => node,
        Err(_) => {
            return None;
        },
    };
    let tree = match build(cbranch, t_len, peaks, Vec::new()) {
        Ok(t) => t,
        Err(_) => {
            return None;
        },
    };
    let appended = match tree.append_leaf(&node) {
        Ok(appended) => appended,
        Err(_) => {
            return None;
        },
    };
    let return_count = appended.length - t_len - 1;
    *rt_ret = appended.root;
    *buf_ret = appended.nodes;
    Some(return_count)
}

/// Takes the last leaf from the tree of `t_len` nodes. The first `p_len` of
/// `entries` are its peaks, the others the extra entries. On success the
/// digest of the root that is left is put into `rt_ret`, where there is one,
/// and the new length is returned. On failure nothing is returned and nothing
/// is written.
pub fn librustzcash_mmr_delete(
    cbranch: u32,
    t_len: u32,
    entries: Vec<StoredEntry>,
    p_len: usize,
    rt_ret: &mut [u8; 32],
) -> (new_len: Option<u32>)
    requires
        is_known_epoch(cbranch),
    ensures
        new_len is Some <==> delete_succeeds(cbranch, t_len, entries@, p_len),
        match delete_answer(cbranch, t_len, entries@, p_len) {
            Some((length, Some(root))) => new_len == Some(length as u32) && final(rt_ret)@
                == root,
            Some((length, None)) => new_len == Some(0u32) && length == 0 && *final(rt_ret)
                == *old(rt_ret),
            None => new_len is None && *final(rt_ret) == *old(rt_ret),
        },
{
    if p_len > entries.len() {
        return None;
    }
    let mut peaks = entries;
    let extra = peaks.split_off(p_len);
    proof {
        let version = version_of_id(cbranch);
        let all = entries@;
        if all_decode(version, cbranch, peaks@) && all_decode(version, cbranch, extra@) {
            assert forall|i: int| 0 <= i < all.len() implies decoded_entry(
                version,
                cbranch,
                #[trigger] all[i],
            ) is Some by {
                if i < p_len {
                    assert(all[i] == peaks@[i]);
                } else {
                    assert(all[i] == extra@[i - p_len]);
                }
            }
        }
        if all_decode(version, cbranch, all) {
            assert forall|i: int| 0 <= i < peaks@.len() implies decoded_entry(
                version,
                cbranch,
                #[trigger] peaks@[i],
            ) is Some by {
                assert(peaks@[i] == all[i]);
            }
            assert forall|i: int| 0 <= i < extra@.len() implies decoded_entry(
                version,
                cbranch,
                #[trigger] extra@[i],
            ) is Some by {
                assert(extra@[i] == all[i + p_len]);
            }
        }
    }
    let tree = match build(cbranch, t_len, peaks, extra) {
        Ok(t) => t,
        Err(_) => {
            return None;
        },
    };
    let truncated = match tree.truncate_leaf() {
        Ok(v) => v,
        Err(_) => {
            return None;
        },
    };
    match truncated.root {
        Some(root) => {
            *rt_ret = root;
        },
        None => {},
    }
    Some(truncated.length)
}

/// Decodes the node in `node` under the rules of `cbranch` and puts its
/// digest into `h_ret`. Returns zero; or one, with nothing written, where
/// there is no buffer or it holds no node.
pub fn librustzcash_mmr_hash_node(cbranch: u32, node: Option<&[u8]>, h_ret: &mut [u8; 32]) -> (status:
    u32)
    requires
        is_known_epoch(cbranch),
    ensures
        match node {
            Some(bytes) if node_decodes(version_of_id(cbranch), cbranch, bytes@) => {
                &&& status == 0
                &&& final(h_ret)@ == node_digest(version_of_id(cbranch), cbranch, bytes@)
            },
            _ => status == 1 && *final(h_ret) == *old(h_ret),
        },
        node matches Some(bytes) && bytes@.len() == MAX_NODE_DATA_SIZE ==> status == 0,
{
    let node_bytes = match node {
        Some(bytes) => bytes,
        None => {
            return 1;
        },
    };
    match hash_node(cbranch, node_bytes) {
        Ok(digest) => {
            *h_ret = digest;
            0
        },
        Err(_) => 1,
    }
}

} // verus!
