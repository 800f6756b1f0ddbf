//! Node and entry encodings: what a buffer decodes to, and its digest.
//!
//! A node is the metadata of one subtree. An entry is a node as it is stored:
//! a kind byte, the positions of its two children where it has any, then the
//! node itself. Parsing and hashing of the node are done by zcash_history; the
//! framing of an entry is checked here.

use vstd::prelude::*;
use vstd::slice::slice_subrange;
use zcash_history::{Version, V1, V2};

use crate::epoch::{is_known_epoch, legacy_epoch, select_version, version_of_id, TreeVersion};

verus! {

/// Largest encoding of a node, in bytes.
pub const MAX_NODE_DATA_SIZE: usize = 244;

/// Largest encoding of an entry, in bytes.
pub const MAX_ENTRY_SIZE: usize = 253;

/// Size of a digest, in bytes.
pub const DIGEST_SIZE: usize = 32;

/// A buffer shorter than this holds no legacy node.
pub const LEGACY_NODE_MIN: usize = 147;

/// A buffer of at least this length always holds a legacy node.
pub const LEGACY_NODE_MAX: usize = 171;

/// A buffer shorter than this holds no current node.
pub const CURRENT_NODE_MIN: usize = 212;

/// A buffer of at least this length always holds a current node.
pub const CURRENT_NODE_MAX: usize = 244;

/// Why a buffer was refused.
#[derive(Clone, Copy, Debug, PartialEq, Eq, Structural)]
pub enum DecodeError {
    /// The buffer is longer than the largest encoding.
    Oversized,
    /// The buffer does not hold a complete encoding.
    Malformed,
}

/// What the tree reads of a node: the block range it covers and the totals
/// that add up when two nodes are combined.
#[derive(Clone, Copy, Debug)]
pub struct NodeSummary {
    /// Height of the first block under the node.
    pub start_height: u64,
    /// Height of the last block under the node.
    pub end_height: u64,
    /// Number of Sapling transactions under the node.
    pub sapling_tx: u64,
    /// Number of Orchard transactions under the node; zero in a legacy node.
    pub orchard_tx: u64,
    /// Total work under the node, as a 256-bit number, least significant limb first.
    pub work: [u64; 4],
}

/// Whether a stored node is a leaf or has children, and where those are.
#[derive(Clone, Copy, Debug, PartialEq, Eq, Structural)]
pub enum EntryKind {
    Leaf,
    Node { left: u32, right: u32 },
}

/// A stored entry as the caller supplies it: its position in the array of
/// all nodes, and its encoding.
#[derive(Clone, Debug)]
pub struct StoredEntry {
    pub index: u32,
    pub bytes: Vec<u8>,
}

/// What a stored entry decodes to, with its position.
#[derive(Clone, Copy, Debug)]
pub struct EntryFacts {
    pub index: u32,
    pub kind: EntryKind,
    pub summary: NodeSummary,
}

/// What `Version::from_bytes` of zcash_history reads from `bytes` as a legacy
/// node: start height, end height, Sapling transaction count and the limbs of
/// the total work; `None` where it fails.
pub uninterp spec fn legacy_fields(branch: u32, bytes: Seq<u8>) -> Option<(u64, u64, u64, [u64; 4])>;

/// What `Version::from_bytes` of zcash_history reads from `bytes` as a current
/// node: start height, end height, Sapling and Orchard transaction counts and
/// the limbs of the total work; `None` where it fails.
pub uninterp spec fn current_fields(branch: u32, bytes: Seq<u8>) -> Option<
    (u64, u64, u64, u64, [u64; 4]),
>;

/// The digest that `Version::hash` of zcash_history gives the legacy node read
/// from `bytes`.
pub uninterp spec fn legacy_hash(branch: u32, bytes: Seq<u8>) -> Seq<u8>;

/// The digest that `Version::hash` of zcash_history gives the current node read
/// from `bytes`.
pub uninterp spec fn current_hash(branch: u32, bytes: Seq<u8>) -> Seq<u8>;

/// The bytes that `Version::to_bytes` of zcash_history writes for the legacy
/// node read from `bytes`.
pub uninterp spec fn legacy_encoding(branch: u32, bytes: Seq<u8>) -> Seq<u8>;

/// The bytes that `Version::to_bytes` of zcash_history writes for the current
/// node read from `bytes`.
pub uninterp spec fn current_encoding(branch: u32, bytes: Seq<u8>) -> Seq<u8>;

/// The summary of the node that `bytes` holds under `version`.
pub open spec fn node_fields(version: TreeVersion, branch: u32, bytes: Seq<u8>) -> Option<
    NodeSummary,
> {
    match version {
        TreeVersion::Legacy => match legacy_fields(branch, bytes) {
            Some((start, end, sapling, work)) => Some(
                NodeSummary {
                    start_height: start,
                    end_height: end,
                    sapling_tx: sapling,
                    orchard_tx: 0,
                    work,
                },
            ),
            None => None,
        },
        TreeVersion::Current => match current_fields(branch, bytes) {
            Some((start, end, sapling, orchard, work)) => Some(
                NodeSummary {
                    start_height: start,
                    end_height: end,
                    sapling_tx: sapling,
                    orchard_tx: orchard,
                    work,
                },
            ),
            None => None,
        },
    }
}

/// The digest of the node that `bytes` holds under `version`.
pub open spec fn node_digest(version: TreeVersion, branch: u32, bytes: Seq<u8>) -> Seq<u8> {
    match version {
        TreeVersion::Legacy => legacy_hash(branch, bytes),
        TreeVersion::Current => current_hash(branch, bytes),
    }
}

/// The encoding of the node that `bytes` holds under `version`, without what
/// follows the node in `bytes`.
pub open spec fn node_encoding(version: TreeVersion, branch: u32, bytes: Seq<u8>) -> Seq<u8> {
    match version {
        TreeVersion::Legacy => legacy_encoding(branch, bytes),
        TreeVersion::Current => current_encoding(branch, bytes),
    }
}

/// Whether a buffer holds a node: it is no longer than the largest encoding
/// and a node can be read from it.
pub open spec fn node_decodes(version: TreeVersion, branch: u32, bytes: Seq<u8>) -> bool {
    bytes.len() <= MAX_NODE_DATA_SIZE && node_fields(version, branch, bytes) is Some
}

/// A 32-bit number from four bytes, least significant first.
pub open spec fn le_u32(b0: u8, b1: u8, b2: u8, b3: u8) -> int {
    b0 as int + 256 * (b1 as int) + 65536 * (b2 as int) + 16777216 * (b3 as int)
}

/// The kind of the entry that `bytes` begins with, and where its node starts.
/// A leaf is the byte 1; an inner node is the byte 0 followed by the positions
/// of its left and right child. Anything else is no entry.
pub open spec fn entry_frame(bytes: Seq<u8>) -> Option<(EntryKind, int)> {
    if bytes.len() >= 1 && bytes[0] == 1 {
        Some((EntryKind::Leaf, 1))
    } else if bytes.len() >= 9 && bytes[0] == 0 {
        Some(
            (
                EntryKind::Node {
                    left: le_u32(bytes[1], bytes[2], bytes[3], bytes[4]) as u32,
                    right: le_u32(bytes[5], bytes[6], bytes[7], bytes[8]) as u32,
                },
                9,
            ),
        )
    } else {
        None
    }
}

/// What the entry in `bytes`, stored at `index`, decodes to under `version`:
/// its frame, then the node in the bytes that follow.
pub open spec fn entry_facts(version: TreeVersion, branch: u32, index: u32, bytes: Seq<u8>) -> Option<
    EntryFacts,
> {
    match entry_frame(bytes) {
        Some((kind, at)) => match node_fields(version, branch, bytes.subrange(at, bytes.len() as int)) {
            Some(summary) => Some(EntryFacts { index, kind, summary }),
            None => None,
        },
        None => None,
    }
}

/// What a supplied entry decodes to: nothing where it is longer than the
/// largest encoding or holds no entry.
pub open spec fn decoded_entry(version: TreeVersion, branch: u32, entry: StoredEntry) -> Option<
    EntryFacts,
> {
    if entry.bytes@.len() > MAX_ENTRY_SIZE {
        None
    } else {
        entry_facts(version, branch, entry.index, entry.bytes@)
    }
}

/// Calls `V1::from_bytes` of zcash_history and picks four fields of the node.
/// Trusted: the fields are a function of the arguments; a buffer that cannot
/// hold the fixed fields and three one-byte counts is refused, and one long
/// enough for three nine-byte counts is read.
#[verifier::external_body]
fn read_legacy(branch: u32, bytes: &[u8]) -> (r: Option<(u64, u64, u64, [u64; 4])>)
    ensures
        r == legacy_fields(branch, bytes@),
        bytes@.len() >= LEGACY_NODE_MAX ==> r is Some,
        bytes@.len() < LEGACY_NODE_MIN ==> r is None,
{
    match V1::from_bytes(branch, bytes) {
        Ok(d) => Some((d.start_height, d.end_height, d.sapling_tx, d.subtree_total_work.0)),
        Err(_) => None,
    }
}

/// Calls `V2::from_bytes` of zcash_history and picks five fields of the node.
/// Trusted: the fields are a function of the arguments; a buffer that cannot
/// hold the fixed fields and four one-byte counts is refused, and one long
/// enough for four nine-byte counts is read.
#[verifier::external_body]
fn read_current(branch: u32, bytes: &[u8]) -> (r: Option<(u64, u64, u64, u64, [u64; 4])>)
    ensures
        r == current_fields(branch, bytes@),
        bytes@.len() >= CURRENT_NODE_MAX ==> r is Some,
        bytes@.len() < CURRENT_NODE_MIN ==> r is None,
{
    match V2::from_bytes(branch, bytes) {
        Ok(d) => Some(
            (d.v1.start_height, d.v1.end_height, d.v1.sapling_tx, d.orchard_tx, d.v1.subtree_total_work.0),
        ),
        Err(_) => None,
    }
}

/// Calls `V1::from_bytes` and then `V1::hash` of zcash_history. Trusted: the
/// digest is a function of the arguments.
#[verifier::external_body]
fn hash_legacy(branch: u32, bytes: &[u8]) -> (d: [u8; 32])
    requires
        legacy_fields(branch, bytes@) is Some,
    ensures
        d@ == legacy_hash(branch, bytes@),
{
    V1::hash(&V1::from_bytes(branch, bytes).unwrap())
}

/// Calls `V2::from_bytes` and then `V2::hash` of zcash_history. Trusted: the
/// digest is a function of the arguments.
#[verifier::external_body]
fn hash_current(branch: u32, bytes: &[u8]) -> (d: [u8; 32])
    requires
        current_fields(branch, bytes@) is Some,
    ensures
        d@ == current_hash(branch, bytes@),
{
    V2::hash(&V2::from_bytes(branch, bytes).unwrap())
}

/// Calls `V1::from_bytes` and then `V1::to_bytes` of zcash_history. Trusted:
/// the bytes are a function of the arguments, and no more than the largest
/// encoding. Writing mirrors reading field by field, so the node read back
/// from what was written is the node that was written: it has the same
/// fields and digest, and is written the same again.
#[verifier::external_body]
fn encode_legacy(branch: u32, bytes: &[u8]) -> (out: Vec<u8>)
    requires
        legacy_fields(branch, bytes@) is Some,
    ensures
        out@ == legacy_encoding(branch, bytes@),
        out@.len() <= MAX_NODE_DATA_SIZE,
        legacy_fields(branch, out@) == legacy_fields(branch, bytes@),
        legacy_hash(branch, out@) == legacy_hash(branch, bytes@),
        legacy_encoding(branch, out@) == out@,
{
    V1::to_bytes(&V1::from_bytes(branch, bytes).unwrap())
}

/// Calls `V2::from_bytes` and then `V2::to_bytes` of zcash_history. Trusted:
/// the bytes are a function of the arguments, and no more than the largest
/// encoding. Writing mirrors reading field by field, so the node read back
/// from what was written is the node that was written: it has the same
/// fields and digest, and is written the same again.
#[verifier::external_body]
fn encode_current(branch: u32, bytes: &[u8]) -> (out: Vec<u8>)
    requires
        current_fields(branch, bytes@) is Some,
    ensures
        out@ == current_encoding(branch, bytes@),
        out@.len() <= MAX_NODE_DATA_SIZE,
        current_fields(branch, out@) == current_fields(branch, bytes@),
        current_hash(branch, out@) == current_hash(branch, bytes@),
        current_encoding(branch, out@) == out@,
{
    V2::to_bytes(&V2::from_bytes(branch, bytes).unwrap())
}

/// Reads the summary of the node in `bytes` under `version`.
pub fn read_node(version: TreeVersion, branch: u32, bytes: &[u8]) -> (r: Option<NodeSummary>)
    ensures
        r == node_fields(version, branch, bytes@),
        version == TreeVersion::Legacy && bytes@.len() >= LEGACY_NODE_MAX ==> r is Some,
        version == TreeVersion::Legacy && bytes@.len() < LEGACY_NODE_MIN ==> r is None,
        version == TreeVersion::Current && bytes@.len() >= CURRENT_NODE_MAX ==> r is Some,
        version == TreeVersion::Current && bytes@.len() < CURRENT_NODE_MIN ==> r is None,
{
    match version {
        TreeVersion::Legacy => match read_legacy(branch, bytes) {
            Some((start, end, sapling, work)) => Some(
                NodeSummary {
                    start_height: start,
                    end_height: end,
                    sapling_tx: sapling,
                    orchard_tx: 0,
                    work,
                },
            ),
            None => None,
        },
        TreeVersion::Current => match read_current(branch, bytes) {
            Some((start, end, sapling, orchard, work)) => Some(
                NodeSummary {
                    start_height: start,
                    end_height: end,
                    sapling_tx: sapling,
                    orchard_tx: orchard,
                    work,
                },
            ),
            None => None,
        },
    }
}

/// The digest of the node in `bytes` under `version`.
pub fn digest_node(version: TreeVersion, branch: u32, bytes: &[u8]) -> (r: Option<[u8; 32]>)
    ensures
        r is Some <==> node_fields(version, branch, bytes@) is Some,
        r matches Some(d) ==> d@ == node_digest(version, branch, bytes@),
        bytes@.len() >= CURRENT_NODE_MAX ==> r is Some,
        bytes@.len() < LEGACY_NODE_MIN ==> r is None,
{
    match version {
        TreeVersion::Legacy => match read_legacy(branch, bytes) {
            Some(_) => Some(hash_legacy(branch, bytes)),
            None => None,
        },
        TreeVersion::Current => match read_current(branch, bytes) {
            Some(_) => Some(hash_current(branch, bytes)),
            None => None,
        },
    }
}

/// Reads the frame of an entry: its kind and the offset of its node.
pub fn read_frame(bytes: &[u8]) -> (r: Option<(EntryKind, usize)>)
    ensures
        match r {
            Some((kind, at)) => entry_frame(bytes@) == Some((kind, at as int)) && at <= bytes@.len(),
            None => entry_frame(bytes@) is None,
        },
{
    if bytes.len() >= 1 && bytes[0] == 1 {
        Some((EntryKind::Leaf, 1))
    } else if bytes.len() >= 9 && bytes[0] == 0 {
        let left: u32 = bytes[1] as u32 + 256 * (bytes[2] as u32) + 65536 * (bytes[3] as u32)
            + 16777216 * (bytes[4] as u32);
        let right: u32 = bytes[5] as u32 + 256 * (bytes[6] as u32) + 65536 * (bytes[7] as u32)
            + 16777216 * (bytes[8] as u32);
        Some((EntryKind::Node { left, right }, 9))
    } else {
        None
    }
}

/// Decodes the entry stored at `index` under `version`: oversized and
/// malformed buffers are refused, every other buffer gives the facts of its
/// entry.
pub fn read_entry(version: TreeVersion, branch: u32, index: u32, bytes: &[u8]) -> (r: Result<
    EntryFacts,
    DecodeError,
>)
    ensures
        bytes@.len() > MAX_ENTRY_SIZE ==> r == Err::<EntryFacts, DecodeError>(DecodeError::Oversized),
        bytes@.len() <= MAX_ENTRY_SIZE ==> match entry_facts(version, branch, index, bytes@) {
            Some(facts) => r == Ok::<EntryFacts, DecodeError>(facts),
            None => r == Err::<EntryFacts, DecodeError>(DecodeError::Malformed),
        },
        bytes@.len() == MAX_ENTRY_SIZE && (bytes@[0] == 0 || bytes@[0] == 1) ==> r is Ok,
{
    if bytes.len() > MAX_ENTRY_SIZE {
        return Err(DecodeError::Oversized);
    }
    match read_frame(bytes) {
        Some((kind, at)) => match read_node(version, branch, slice_subrange(bytes, at, bytes.len())) {
            Some(summary) => Ok(EntryFacts { index, kind, summary }),
            None => Err(DecodeError::Malformed),
        },
        None => Err(DecodeError::Malformed),
    }
}

/// A node that has been decoded under the rules of an epoch.
pub struct Node {
    epoch: u32,
    bytes: Vec<u8>,
    summary: NodeSummary,
}

impl Node {
    #[verifier::type_invariant]
    spec fn decoded(self) -> bool {
        &&& is_known_epoch(self.epoch)
        &&& self.bytes@.len() <= MAX_NODE_DATA_SIZE
        &&& node_fields(version_of_id(self.epoch), self.epoch, self.bytes@) == Some(self.summary)
    }

    /// The epoch under whose rules the node was decoded.
    pub closed spec fn epoch_id(&self) -> u32 {
        self.epoch
    }

    /// The buffer that the node was decoded from.
    pub closed spec fn encoding(&self) -> Seq<u8> {
        self.bytes@
    }

    /// What the node decoded to.
    pub closed spec fn facts(&self) -> NodeSummary {
        self.summary
    }

    /// The epoch under whose rules the node was decoded.
    pub fn epoch(&self) -> (e: u32)
        ensures
            e == self.epoch_id(),
            is_known_epoch(e),
    {
        proof {
            use_type_invariant(self);
        }
        self.epoch
    }

    /// The buffer that the node was decoded from.
    pub fn bytes(&self) -> (b: &Vec<u8>)
        ensures
            b@ == self.encoding(),
            b@.len() <= MAX_NODE_DATA_SIZE,
            node_fields(version_of_id(self.epoch_id()), self.epoch_id(), b@) == Some(self.facts()),
    {
        proof {
            use_type_invariant(self);
        }
        &self.bytes
    }

    /// What the node decoded to.
    pub fn summary(&self) -> (s: NodeSummary)
        ensures
            s == self.facts(),
    {
        self.summary
    }

    /// The encoding of the node, without what followed it in the buffer that
    /// it was decoded from.
    pub fn encode(&self) -> (out: Vec<u8>)
        ensures
            out@ == node_encoding(version_of_id(self.epoch_id()), self.epoch_id(), self.encoding()),
            out@.len() <= MAX_NODE_DATA_SIZE,
            hash_answer(self.epoch_id(), out@) == hash_answer(self.epoch_id(), self.encoding()),
            node_fields(version_of_id(self.epoch_id()), self.epoch_id(), out@) == Some(
                self.facts(),
            ),
            node_encoding(version_of_id(self.epoch_id()), self.epoch_id(), out@) == out@,
    {
        proof {
            use_type_invariant(self);
        }
        match select_version(self.epoch) {
            TreeVersion::Legacy => encode_legacy(self.epoch, self.bytes.as_slice()),
            TreeVersion::Current => encode_current(self.epoch, self.bytes.as_slice()),
        }
    }

    /// The digest of the node.
    pub fn hash(&self) -> (d: [u8; 32])
        ensures
            d@ == node_digest(version_of_id(self.epoch_id()), self.epoch_id(), self.encoding()),
    {
        proof {
            use_type_invariant(self);
        }
        match digest_node(select_version(self.epoch), self.epoch, self.bytes.as_slice()) {
            Some(d) => d,
            None => [0u8; 32],
        }
    }
}

/// Decodes the node in `bytes` under the rules of `epoch`. A buffer longer
/// than the largest encoding, or too short for a node, is refused; a buffer of
/// exactly the largest size always holds a node.
pub fn parse_node(epoch: u32, bytes: Vec<u8>) -> (r: Result<Node, DecodeError>)
    requires
        is_known_epoch(epoch),
    ensures
        match r {
            Ok(node) => {
                &&& bytes@.len() <= MAX_NODE_DATA_SIZE
                &&& node.epoch_id() == epoch
                &&& node.encoding() == bytes@
                &&& node_fields(version_of_id(epoch), epoch, bytes@) == Some(node.facts())
            },
            Err(DecodeError::Oversized) => bytes@.len() > MAX_NODE_DATA_SIZE,
            Err(DecodeError::Malformed) => bytes@.len() <= MAX_NODE_DATA_SIZE && node_fields(
                version_of_id(epoch),
                epoch,
                bytes@,
            ) is None,
        },
        bytes@.len() == MAX_NODE_DATA_SIZE ==> r is Ok,
        bytes@.len() < LEGACY_NODE_MIN ==> r is Err,
{
    if bytes.len() > MAX_NODE_DATA_SIZE {
        return Err(DecodeError::Oversized);
    }
    match read_node(select_version(epoch), epoch, bytes.as_slice()) {
        Some(summary) => Ok(Node { epoch, bytes, summary }),
        None => Err(DecodeError::Malformed),
    }
}

/// What hashing a buffer gives under the rules of `epoch`: a buffer longer
/// than the largest encoding is refused as oversized, one that holds no node
/// as malformed, and any other gives the digest of its node.
pub open spec fn hash_answer(epoch: u32, bytes: Seq<u8>) -> Result<Seq<u8>, DecodeError> {
    if bytes.len() > MAX_NODE_DATA_SIZE {
        Err(DecodeError::Oversized)
    } else if node_fields(version_of_id(epoch), epoch, bytes) is None {
        Err(DecodeError::Malformed)
    } else {
        Ok(node_digest(version_of_id(epoch), epoch, bytes))
    }
}

/// Decodes the node in `bytes` under the rules of `epoch` and returns its
/// digest. A buffer of exactly the largest size always holds a node, and one
/// too short for the fixed fields never does.
pub fn hash_node(epoch: u32, bytes: &[u8]) -> (r: Result<[u8; 32], DecodeError>)
    requires
        is_known_epoch(epoch),
    ensures
        match r {
            Ok(d) => hash_answer(epoch, bytes@) == Ok::<Seq<u8>, DecodeError>(d@),
            Err(e) => hash_answer(epoch, bytes@) == Err::<Seq<u8>, DecodeError>(e),
        },
        bytes@.len() == MAX_NODE_DATA_SIZE ==> r is Ok,
        bytes@.len() < LEGACY_NODE_MIN ==> r is Err,
{
    if bytes.len() > MAX_NODE_DATA_SIZE {
        return Err(DecodeError::Oversized);
    }
    match digest_node(select_version(epoch), epoch, bytes) {
        Some(d) => Ok(d),
        None => Err(DecodeError::Malformed),
    }
}

/// Hashing is a function of the epoch and the bytes: equal buffers give equal
/// answers under one epoch.
pub proof fn lemma_hash_is_deterministic(epoch: u32, first: Seq<u8>, second: Seq<u8>)
    requires
        first =~= second,
    ensures
        hash_answer(epoch, first) == hash_answer(epoch, second),
{
}

/// The rules follow the epoch alone: under a known epoch a buffer is read and
/// hashed as a legacy node where the epoch is one before Nu5 (Sprout,
/// Overwinter, Sapling, Blossom, Heartwood or Canopy), and as a current node
/// under Nu5 and every epoch after it.
pub proof fn lemma_rules_follow_the_epoch(epoch: u32, bytes: Seq<u8>)
    requires
        is_known_epoch(epoch),
    ensures
        legacy_epoch(epoch) ==> {
            &&& version_of_id(epoch) == TreeVersion::Legacy
            &&& node_digest(version_of_id(epoch), epoch, bytes) == legacy_hash(epoch, bytes)
            &&& node_encoding(version_of_id(epoch), epoch, bytes) == legacy_encoding(epoch, bytes)
            &&& node_fields(version_of_id(epoch), epoch, bytes) is Some == legacy_fields(
                epoch,
                bytes,
            ) is Some
        },
        !legacy_epoch(epoch) ==> {
            &&& version_of_id(epoch) == TreeVersion::Current
            &&& node_digest(version_of_id(epoch), epoch, bytes) == current_hash(epoch, bytes)
            &&& node_encoding(version_of_id(epoch), epoch, bytes) == current_encoding(epoch, bytes)
            &&& node_fields(version_of_id(epoch), epoch, bytes) is Some == current_fields(
                epoch,
                bytes,
            ) is Some
        },
{
}

/// A buffer that does not begin with the byte of a leaf or of an inner node
/// holds no entry, whatever follows.
pub proof fn lemma_unknown_kind_is_refused(
    version: TreeVersion,
    branch: u32,
    index: u32,
    bytes: Seq<u8>,
)
    requires
        bytes.len() == 0 || bytes[0] > 1,
    ensures
        entry_facts(version, branch, index, bytes) is None,
{
}

} // verus!
