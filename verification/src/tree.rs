//! A snapshot of the tree and the two things done to it: appending a leaf and
//! taking the last leaf away.
//!
//! A snapshot is made from what the caller stores: the length of the array of
//! all nodes, the entries that are the peaks, and, for taking a leaf away, the
//! extra entries inside the last peak. Nothing is kept between operations.

use vstd::prelude::*;

use crate::codec::{
    decoded_entry, digest_node, node_decodes, node_digest, node_fields, read_entry, EntryFacts,
    Node, StoredEntry, MAX_ENTRY_SIZE,
};
use crate::counting::{
    ceil_log2, leaf_count, lemma_lengths_round_trip, lemma_peaks_are_few,
    lemma_peaks_are_the_bits, popcount, spans_of,
};
use crate::engine::{
    all_decode, append_outcome, engine_append, engine_truncate, facts_of, truncate_outcome,
    views_of,
};
use crate::epoch::{is_known_epoch, select_version, version_of_id, TreeVersion};
use crate::layout::{
    append_ready, carries, check_peaks, check_spine, height_of, leaf_span,
    lemma_carried_is_bounded, lemma_height_below_span, nodes_before, peak_placed, peaks_coherent,
    truncate_ready,
};
use crate::totals::{add_entries, lemma_sums_grow, work_value, Totals};

verus! {

/// Why a snapshot could not be made.
#[derive(Clone, Copy, Debug, PartialEq, Eq, Structural)]
pub enum BuildError {
    /// A supplied entry does not decode.
    InvalidEncoding,
}

/// Why a leaf could not be appended.
#[derive(Clone, Copy, Debug, PartialEq, Eq, Structural)]
pub enum AppendError {
    /// The peaks that joining the leaf to the tree needs are not all there.
    UnresolvableNode,
}

/// Why the last leaf could not be taken away.
#[derive(Clone, Copy, Debug, PartialEq, Eq, Structural)]
pub enum TruncateError {
    /// An entry that taking the last peak apart needs was not supplied.
    MissingExtras,
    /// The tree has no leaf.
    EmptyTree,
}

/// What appending a leaf gives.
#[derive(Debug)]
pub struct Appended {
    /// Digest of the new root.
    pub root: [u8; 32],
    /// Encodings of the inner nodes that the leaf completed, in the order in
    /// which they follow the leaf in the array. The leaf is not among them.
    pub nodes: Vec<Vec<u8>>,
    /// Length of the array with the leaf and the new nodes.
    pub length: u32,
}

/// What taking the last leaf away gives.
#[derive(Debug)]
pub struct Truncated {
    /// Digest of the root that is left; none where no leaf is left.
    pub root: Option<[u8; 32]>,
    /// Length of the array without the leaf and the nodes above it.
    pub length: u32,
}

/// A snapshot of the tree.
pub struct Tree {
    epoch: u32,
    version: TreeVersion,
    length: u32,
    peaks: Vec<StoredEntry>,
    extras: Vec<StoredEntry>,
    peak_facts: Vec<EntryFacts>,
    extra_facts: Vec<EntryFacts>,
}

/// Whether every entry fills a buffer of the largest size and begins with the
/// byte of a leaf or of an inner node. Such entries always decode.
pub open spec fn full_sized(entries: Seq<StoredEntry>) -> bool {
    forall|i: int|
        0 <= i < entries.len() ==> (#[trigger] entries[i]).bytes@.len() == MAX_ENTRY_SIZE && (
        entries[i].bytes@[0] == 0 || entries[i].bytes@[0] == 1)
}

/// Decodes every entry, or gives `None` at the first that does not decode.
pub fn decode_all(version: TreeVersion, branch: u32, entries: &Vec<StoredEntry>) -> (r: Option<
    Vec<EntryFacts>,
>)
    ensures
        match r {
            Some(facts) => all_decode(version, branch, entries@) && facts@ == facts_of(
                version,
                branch,
                entries@,
            ),
            None => !all_decode(version, branch, entries@),
        },
        full_sized(entries@) ==> r is Some,
{
    let mut facts: Vec<EntryFacts> = Vec::new();
    let mut i: usize = 0;
    while i < entries.len()
        invariant
            0 <= i <= entries.len(),
            facts@.len() == i,
            forall|j: int|
                0 <= j < i ==> decoded_entry(version, branch, #[trigger] entries@[j]) == Some(
                    facts@[j],
                ),
        decreases entries.len() - i,
    {
        let entry = &entries[i];
        match read_entry(version, branch, entry.index, entry.bytes.as_slice()) {
            Ok(f) => {
                facts.push(f);
            },
            Err(_) => {
                assert(decoded_entry(version, branch, entries@[i as int]) is None);
                return None;
            },
        }
        i += 1;
    }
    assert(facts@ =~= facts_of(version, branch, entries@));
    Some(facts)
}

/// What appending a leaf to a tree gives: the encodings of the inner nodes
/// that the leaf completes, without the leaf itself, and the digest of the new
/// root; `None` where the leaf is refused. A leaf on an empty tree completes
/// nothing and is the root. On any other tree the peaks have to be ready for
/// the leaf; the nodes are those that the engine stores after the leaf, and
/// the root is the digest of the root that the engine leaves.
pub open spec fn append_result(epoch: u32, length: u32, peaks: Seq<StoredEntry>, leaf: Seq<u8>) -> Option<
    (Seq<Seq<u8>>, Seq<u8>),
> {
    let version = version_of_id(epoch);
    if !all_decode(version, epoch, peaks) || !node_decodes(version, epoch, leaf) {
        None
    } else if peaks.len() == 0 {
        if length == 0 {
            Some((Seq::empty(), node_digest(version, epoch, leaf)))
        } else {
            None
        }
    } else if !append_ready(
        length,
        facts_of(version, epoch, peaks),
        node_fields(version, epoch, leaf)->0,
    ) {
        None
    } else {
        match append_outcome(version, epoch, length, peaks, leaf) {
            Some((stored, root)) => if 1 <= stored.len() && length + stored.len() <= u32::MAX
                && node_fields(version, epoch, root) is Some {
                Some((stored.subrange(1, stored.len() as int), node_digest(version, epoch, root)))
            } else {
                None
            },
            None => None,
        }
    }
}

/// Whether a tree holds one leaf and nothing else.
pub open spec fn one_leaf(length: u32, peaks: Seq<EntryFacts>) -> bool {
    peaks.len() == 1 && peaks_coherent(length, peaks) && leaf_span(peaks[0].summary) == 1
}

/// What taking the last leaf from a tree gives: the new length and the digest
/// of the root that is left. A tree without leaves is refused; a tree of one
/// leaf is left with length zero and no root. On any other tree everything
/// that taking the last peak apart needs has to be supplied; the root is the
/// digest of the root that the engine leaves. The new length is the old one
/// less the leaf and the nodes above it in the last peak.
pub open spec fn truncate_result(
    epoch: u32,
    length: u32,
    peaks: Seq<StoredEntry>,
    extras: Seq<StoredEntry>,
) -> Result<(int, Option<Seq<u8>>), TruncateError> {
    let version = version_of_id(epoch);
    let peak_facts = facts_of(version, epoch, peaks);
    let extra_facts = facts_of(version, epoch, extras);
    if length == 0 {
        Err(TruncateError::EmptyTree)
    } else if one_leaf(length, peak_facts) {
        Ok((0, None))
    } else if !truncate_ready(length, peak_facts, extra_facts) {
        Err(TruncateError::MissingExtras)
    } else {
        match truncate_outcome(version, epoch, length, peaks, extras) {
            Some(root) => if node_fields(version, epoch, root) is Some {
                Ok(
                    (
                        length - 1 - height_of(leaf_span(peak_facts.last().summary)),
                        Some(node_digest(version, epoch, root)),
                    ),
                )
            } else {
                Err(TruncateError::MissingExtras)
            },
            None => Err(TruncateError::MissingExtras),
        }
    }
}

/// What is returned for what the engine stored when it appended to a tree of
/// `length` nodes: the leaf, which the engine stores first, is left out, the
/// root is hashed, and the new length counts the leaf and every new node. The
/// answer is an error where nothing was stored, the length does not fit, or
/// the root cannot be read.
pub fn finish_append(
    version: TreeVersion,
    branch: u32,
    length: u32,
    stored: Vec<Vec<u8>>,
    root: Vec<u8>,
) -> (r: Result<Appended, AppendError>)
    ensures
        match r {
            Ok(a) => {
                &&& 1 <= stored@.len()
                &&& a.nodes@ == stored@.subrange(1, stored@.len() as int)
                &&& a.length == length + stored@.len()
                &&& node_fields(version, branch, root@) is Some
                &&& a.root@ == node_digest(version, branch, root@)
            },
            Err(e) => {
                &&& e == AppendError::UnresolvableNode
                &&& stored@.len() < 1 || length + stored@.len() > u32::MAX || node_fields(
                    version,
                    branch,
                    root@,
                ) is None
            },
        },
{
    let count = stored.len();
    if count < 1 || count > (u32::MAX - length) as usize {
        return Err(AppendError::UnresolvableNode);
    }
    let digest = match digest_node(version, branch, root.as_slice()) {
        Some(d) => d,
        None => {
            return Err(AppendError::UnresolvableNode);
        },
    };
    let mut nodes = stored;
    let _ = nodes.remove(0);
    assert(nodes@ =~= stored@.subrange(1, stored@.len() as int));
    Ok(Appended { root: digest, nodes, length: length + count as u32 })
}

/// What is returned for the root that the engine left when it took the last
/// leaf from a tree of `length` nodes whose last peak has `height`: the root
/// is hashed, and the leaf and the nodes above it are gone from the length.
/// The answer is an error where the root cannot be read.
pub fn finish_truncate(
    version: TreeVersion,
    branch: u32,
    length: u32,
    height: u32,
    root: Vec<u8>,
) -> (r: Result<Truncated, TruncateError>)
    requires
        height < length,
    ensures
        match r {
            Ok(t) => {
                &&& node_fields(version, branch, root@) is Some
                &&& t.root matches Some(d) && d@ == node_digest(version, branch, root@)
                &&& t.length == length - 1 - height
            },
            Err(e) => e == TruncateError::MissingExtras && node_fields(version, branch, root@)
                is None,
        },
{
    match digest_node(version, branch, root.as_slice()) {
        Some(d) => Ok(Truncated { root: Some(d), length: length - 1 - height }),
        None => Err(TruncateError::MissingExtras),
    }
}

/// Makes a snapshot of a tree of `length` nodes from the entries that are its
/// peaks and extra entries from inside them. Every entry is decoded under the
/// rules of `epoch`; the snapshot is made where all of them decode. Whether
/// the entries fit the length is not looked at here.
pub fn build(epoch: u32, length: u32, peaks: Vec<StoredEntry>, extras: Vec<StoredEntry>) -> (r:
    Result<Tree, BuildError>)
    requires
        is_known_epoch(epoch),
    ensures
        match r {
            Ok(tree) => {
                &&& all_decode(version_of_id(epoch), epoch, peaks@)
                &&& all_decode(version_of_id(epoch), epoch, extras@)
                &&& tree.epoch_id() == epoch
                &&& tree.size() == length
                &&& tree.peak_entries() == peaks@
                &&& tree.extra_entries() == extras@
            },
            Err(e) => e == BuildError::InvalidEncoding && !(all_decode(
                version_of_id(epoch),
                epoch,
                peaks@,
            ) && all_decode(version_of_id(epoch), epoch, extras@)),
        },
        full_sized(peaks@) && full_sized(extras@) ==> r is Ok,
{
    let version = select_version(epoch);
    let peak_facts = match decode_all(version, epoch, &peaks) {
        Some(facts) => facts,
        None => {
            return Err(BuildError::InvalidEncoding);
        },
    };
    let extra_facts = match decode_all(version, epoch, &extras) {
        Some(facts) => facts,
        None => {
            return Err(BuildError::InvalidEncoding);
        },
    };
    Ok(Tree { epoch, version, length, peaks, extras, peak_facts, extra_facts })
}

/// Every tree that a leaf is appended to, or the last leaf is taken from, has
/// as many peaks as its number of leaves has 1-bits.
pub proof fn lemma_peaks_match_leaf_count(
    epoch: u32,
    length: u32,
    peaks: Seq<StoredEntry>,
    extras: Seq<StoredEntry>,
    leaf: Seq<u8>,
)
    requires
        is_known_epoch(epoch),
        append_result(epoch, length, peaks, leaf) is Some || truncate_result(
            epoch,
            length,
            peaks,
            extras,
        ) is Ok,
    ensures
        peaks.len() == popcount(leaf_count(facts_of(version_of_id(epoch), epoch, peaks))),
{
    let facts = facts_of(version_of_id(epoch), epoch, peaks);
    if peaks.len() == 0 {
        assert(spans_of(facts) =~= Seq::<int>::empty());
    } else {
        lemma_peaks_are_the_bits(length, facts);
    }
}

/// Number of inner nodes that an appended leaf completes; zero where the leaf
/// is refused.
pub open spec fn completed_count(epoch: u32, length: u32, peaks: Seq<StoredEntry>, leaf: Seq<u8>) -> int {
    match append_result(epoch, length, peaks, leaf) {
        Some((nodes, _)) => nodes.len() as int,
        None => 0,
    }
}

/// Taking the last leaf away undoes what appending it did to the length:
/// where a leaf was appended to a tree of `length` nodes and completed as many
/// nodes as it carried into peaks, as `Tree::append_leaf` says it does, and
/// the last leaf is then taken from a coherent tree of the new length, the
/// length is `length` again.
pub proof fn lemma_truncate_restores_length(
    epoch: u32,
    length: u32,
    peaks: Seq<StoredEntry>,
    leaf: Seq<u8>,
    grown_peaks: Seq<StoredEntry>,
    extras: Seq<StoredEntry>,
)
    requires
        is_known_epoch(epoch),
        append_result(epoch, length, peaks, leaf) is Some,
        completed_count(epoch, length, peaks, leaf) == carries(
            facts_of(version_of_id(epoch), epoch, peaks),
        ),
        truncate_result(
            epoch,
            (length + 1 + completed_count(epoch, length, peaks, leaf)) as u32,
            grown_peaks,
            extras,
        ) is Ok,
    ensures
        truncate_result(
            epoch,
            (length + 1 + completed_count(epoch, length, peaks, leaf)) as u32,
            grown_peaks,
            extras,
        ) matches Ok((restored, _)) && restored == length,
{
    let facts = facts_of(version_of_id(epoch), epoch, peaks);
    let grown = facts_of(version_of_id(epoch), epoch, grown_peaks);
    let count = completed_count(epoch, length, peaks, leaf);
    lemma_carried_is_bounded(facts, facts.len() as int, 1);
    assert(0 <= count && length + 1 + count <= u32::MAX);
    if peaks.len() == 0 {
        assert(length == 0);
        assert(nodes_before(facts, 0) == 0);
    }
    assert(peaks_coherent(length, facts));
    lemma_lengths_round_trip(length, facts, grown);
    if one_leaf((length + 1 + count) as u32, grown) {
        assert(peak_placed(grown, 0));
        assert(grown.last() == grown[0]);
        assert(height_of(1) == 0);
        assert(nodes_before(grown, 0) == 0);
        assert(nodes_before(grown, 1) == 1);
    }
}

impl Tree {
    #[verifier::type_invariant]
    spec fn decoded(self) -> bool {
        &&& is_known_epoch(self.epoch)
        &&& self.version == version_of_id(self.epoch)
        &&& all_decode(self.version, self.epoch, self.peaks@)
        &&& all_decode(self.version, self.epoch, self.extras@)
        &&& self.peak_facts@ == facts_of(self.version, self.epoch, self.peaks@)
        &&& self.extra_facts@ == facts_of(self.version, self.epoch, self.extras@)
    }

    /// The epoch under whose rules the entries were decoded.
    pub closed spec fn epoch_id(&self) -> u32 {
        self.epoch
    }

    /// The length of the array of all nodes.
    pub closed spec fn size(&self) -> u32 {
        self.length
    }

    /// The entries supplied as peaks.
    pub closed spec fn peak_entries(&self) -> Seq<StoredEntry> {
        self.peaks@
    }

    /// The extra entries.
    pub closed spec fn extra_entries(&self) -> Seq<StoredEntry> {
        self.extras@
    }

    /// The tree version of the snapshot's epoch.
    pub open spec fn rules(&self) -> TreeVersion {
        version_of_id(self.epoch_id())
    }

    /// What the peaks decode to.
    pub open spec fn peak_facts(&self) -> Seq<EntryFacts> {
        facts_of(self.rules(), self.epoch_id(), self.peak_entries())
    }

    /// What the extra entries decode to.
    pub open spec fn extra_facts(&self) -> Seq<EntryFacts> {
        facts_of(self.rules(), self.epoch_id(), self.extra_entries())
    }

    /// What appending `leaf` gives; nothing where the leaf was decoded under
    /// another epoch than the snapshot.
    pub open spec fn appended(&self, leaf: &Node) -> Option<(Seq<Seq<u8>>, Seq<u8>)> {
        if leaf.epoch_id() == self.epoch_id() {
            append_result(self.epoch_id(), self.size(), self.peak_entries(), leaf.encoding())
        } else {
            None
        }
    }

    /// What taking the last leaf away gives.
    pub open spec fn truncated(&self) -> Result<(int, Option<Seq<u8>>), TruncateError> {
        truncate_result(self.epoch_id(), self.size(), self.peak_entries(), self.extra_entries())
    }

    /// Whether `leaf` can be handed to the engine, or is the first leaf.
    pub open spec fn accepts(&self, leaf: &Node) -> bool {
        &&& leaf.epoch_id() == self.epoch_id()
        &&& if self.peak_entries().len() == 0 {
            self.size() == 0
        } else {
            append_ready(self.size(), self.peak_facts(), leaf.facts())
        }
    }

    /// Whether the last leaf can be taken away with the engine.
    pub open spec fn can_shrink(&self) -> bool {
        truncate_ready(self.size(), self.peak_facts(), self.extra_facts())
    }

    /// The length of the array of all nodes.
    pub fn len(&self) -> (n: u32)
        ensures
            n == self.size(),
    {
        self.length
    }

    /// The epoch under whose rules the entries were decoded.
    pub fn epoch(&self) -> (e: u32)
        ensures
            e == self.epoch_id(),
            is_known_epoch(e),
    {
        proof {
            use_type_invariant(self);
        }
        self.epoch
    }

    /// Number of peaks supplied.
    pub fn peak_count(&self) -> (n: usize)
        ensures
            n == self.peak_entries().len(),
    {
        self.peaks.len()
    }

    /// Whether `leaf` can be appended to the tree. An empty tree takes any
    /// leaf of its epoch, also one at height zero or one that covers several
    /// blocks, though the tree of that one leaf is refused by every later
    /// operation; peaks take only the one block that follows them.
    pub fn check_append(&self, leaf: &Node) -> (ok: bool)
        ensures
            ok == self.accepts(leaf),
    {
        proof {
            use_type_invariant(self);
        }
        if leaf.epoch() != self.epoch {
            return false;
        }
        let count = self.peaks.len();
        if count == 0 {
            return self.length == 0;
        }
        if !check_peaks(self.length, &self.peak_facts) {
            return false;
        }
        let summary = leaf.summary();
        let last = self.peak_facts[count - 1].summary;
        assert(peak_placed(self.peak_facts@, count - 1));
        if summary.start_height < 1 || summary.start_height != summary.end_height
            || summary.start_height - 1 != last.end_height {
            return false;
        }
        proof {
            lemma_sums_grow(self.peak_facts@, 0, count as int);
            assert(work_value(summary.work) >= 0) by (nonlinear_arith)
                requires
                    summary.work[0] >= 0,
                    summary.work[1] >= 0,
                    summary.work[2] >= 0,
                    summary.work[3] >= 0,
            ;
        }
        let totals = match add_entries(Totals::zero(), &self.peak_facts, count) {
            Some(t) => t,
            None => {
                return false;
            },
        };
        if totals.with(&summary).is_none() {
            return false;
        }
        count <= u32::MAX as usize && self.length as u64 + count as u64 + 1 <= u32::MAX as u64
    }

    /// Appends `leaf` to the tree. Gives the inner nodes that the leaf
    /// completed, without the leaf, the digest of the new root and the new
    /// length. The leaf is appended exactly where the snapshot accepts it: on
    /// an empty tree, where it completes nothing and is the root, or on peaks
    /// that are ready for it. It completes one node for each peak it carries
    /// into, which is no more than the tree has peaks and no more than the
    /// logarithm of its length plus one, rounded up. Where it carries into
    /// every peak, the last node it completes is the new root.
    ///
    /// An empty tree takes any leaf, also one at height zero or one that
    /// covers several blocks; the tree of that one leaf is then refused by
    /// every later operation.
    pub fn append_leaf(&self, leaf: &Node) -> (r: Result<Appended, AppendError>)
        ensures
            r is Ok <==> self.accepts(leaf),
            match r {
                Ok(a) => {
                    &&& self.appended(leaf) == Some((views_of(a.nodes@), a.root@))
                    &&& a.length == self.size() + 1 + a.nodes@.len()
                    &&& a.nodes@.len() == carries(self.peak_facts())
                    &&& a.nodes@.len() <= self.peak_entries().len()
                    &&& a.nodes@.len() <= ceil_log2(self.size() + 1)
                    &&& 0 < a.nodes@.len() == self.peak_entries().len() ==> a.root@ == node_digest(
                        self.rules(),
                        self.epoch_id(),
                        a.nodes@.last()@,
                    )
                },
                Err(e) => e == AppendError::UnresolvableNode && self.appended(leaf) is None,
            },
    {
        proof {
            use_type_invariant(self);
        }
        let bytes = leaf.bytes();
        if !self.check_append(leaf) {
            return Err(AppendError::UnresolvableNode);
        }
        if self.peaks.len() == 0 {
            assert(views_of(Seq::<Vec<u8>>::empty()) =~= Seq::<Seq<u8>>::empty());
            return Ok(Appended { root: leaf.hash(), nodes: Vec::new(), length: 1 });
        }
        proof {
            lemma_peaks_are_few(self.size(), self.peak_facts());
            lemma_carried_is_bounded(self.peak_facts(), self.peak_facts().len() as int, 1);
        }
        let (stored, root) = engine_append(
            self.version,
            self.epoch,
            self.length,
            &self.peaks,
            bytes.as_slice(),
        );
        let ghost given = stored@;
        let r = finish_append(self.version, self.epoch, self.length, stored, root);
        proof {
            let a = r->Ok_0;
            assert(views_of(a.nodes@) =~= views_of(given).subrange(1, given.len() as int));
            if a.nodes@.len() > 0 {
                assert(views_of(a.nodes@).last() == views_of(given).last());
            }
        }
        r
    }

    /// Checks what taking the last leaf away needs and gives the height of
    /// the last peak, or `None` where the snapshot is not ready.
    pub fn check_truncate(&self) -> (r: Option<u32>)
        ensures
            match r {
                Some(h) => {
                    &&& self.can_shrink()
                    &&& h == height_of(leaf_span(self.peak_facts().last().summary))
                    &&& h < self.size()
                },
                None => !self.can_shrink(),
            },
    {
        proof {
            use_type_invariant(self);
        }
        let count = self.peaks.len();
        assert(self.peak_facts@.len() == count);
        if count == 0 || !check_peaks(self.length, &self.peak_facts) {
            return None;
        }
        let last = self.peak_facts[count - 1];
        assert(peak_placed(self.peak_facts@, count - 1));
        let span: u64 = last.summary.end_height - last.summary.start_height + 1;
        if count < 2 && span < 2 {
            return None;
        }
        let mut i: usize = 0;
        while i < self.extra_facts.len()
            invariant
                0 <= i <= self.extra_facts@.len(),
                count == self.peak_facts@.len(),
                self.peak_facts@ == self.peak_facts(),
                self.extra_facts@ == self.extra_facts(),
                forall|a: int, b: int|
                    0 <= a < i && 0 <= b < self.peak_facts@.len() ==> (
                    #[trigger] self.extra_facts@[a]).index != (#[trigger] self.peak_facts@[b]).index,
            decreases self.extra_facts@.len() - i,
        {
            let at = self.extra_facts[i].index;
            let mut j: usize = 0;
            while j < count
                invariant
                    0 <= j <= count == self.peak_facts@.len(),
                    self.peak_facts@ == self.peak_facts(),
                    self.extra_facts@ == self.extra_facts(),
                    i < self.extra_facts@.len(),
                    at == self.extra_facts@[i as int].index,
                    forall|b: int| 0 <= b < j ==> at != (#[trigger] self.peak_facts@[b]).index,
                decreases count - j,
            {
                if self.peak_facts[j].index == at {
                    assert(self.extra_facts@[i as int].index == self.peak_facts@[j as int].index);
                    return None;
                }
                j += 1;
            }
            i += 1;
        }
        proof {
            lemma_sums_grow(self.peak_facts@, count - 1, count as int);
            lemma_height_below_span(span as int);
        }
        if add_entries(Totals::zero(), &self.peak_facts, count).is_none() {
            return None;
        }
        let rest = match add_entries(Totals::zero(), &self.peak_facts, count - 1) {
            Some(t) => t,
            None => {
                return None;
            },
        };
        match check_spine(&self.extra_facts, last.index, span, rest) {
            Some((_, height)) => Some(height),
            None => None,
        }
    }

    /// Takes the last leaf from the tree, and with it the nodes above it in
    /// the last peak. Gives the new length and the digest of the root that is
    /// left. A tree of one leaf is left with no root. The call is refused on a
    /// tree without leaves, and where something that taking the last peak
    /// apart needs is not supplied; on every other tree it succeeds.
    pub fn truncate_leaf(&self) -> (r: Result<Truncated, TruncateError>)
        ensures
            r is Ok <==> self.size() > 0 && (one_leaf(self.size(), self.peak_facts())
                || self.can_shrink()),
            match r {
                Ok(t) => self.truncated() == Ok::<(int, Option<Seq<u8>>), TruncateError>(
                    (
                        t.length as int,
                        match t.root {
                            Some(root) => Some(root@),
                            None => None,
                        },
                    ),
                ),
                Err(e) => self.truncated() == Err::<(int, Option<Seq<u8>>), TruncateError>(e),
            },
    {
        proof {
            use_type_invariant(self);
        }
        if self.length == 0 {
            return Err(TruncateError::EmptyTree);
        }
        if self.peaks.len() == 1 && check_peaks(self.length, &self.peak_facts) {
            let only = self.peak_facts[0].summary;
            assert(peak_placed(self.peak_facts@, 0));
            if only.end_height == only.start_height {
                return Ok(Truncated { root: None, length: 0 });
            }
        }
        let height = match self.check_truncate() {
            Some(h) => h,
            None => {
                return Err(TruncateError::MissingExtras);
            },
        };
        let root = engine_truncate(
            self.version,
            self.epoch,
            self.length,
            &self.peaks,
            &self.extras,
        );
        finish_truncate(self.version, self.epoch, self.length, height, root)
    }
}

} // verus!
