//! Where nodes sit in the array of all nodes, and what a coherent set of
//! peaks looks like.
//!
//! Nodes are numbered in the order in which they are created: a leaf, then
//! every inner node that the leaf completes. A perfect subtree over `n` leaves
//! therefore fills `2n - 1` consecutive positions and ends with its root, the
//! right child of a root sits just before it, and the left child sits as many
//! positions before the root as the root has leaves.

use vstd::arithmetic::power2::is_pow2;
use vstd::prelude::*;

use crate::codec::{EntryFacts, EntryKind, NodeSummary};
use crate::totals::{
    entry_sums, in_range, no_sums, sums_join, sums_with, work_value, Sums, Totals,
};

verus! {

/// Number of leaves under a node: the blocks it covers.
pub open spec fn leaf_span(s: NodeSummary) -> int {
    s.end_height - s.start_height + 1
}

/// Number of positions that a perfect subtree over `leaves` leaves fills.
pub open spec fn subtree_nodes(leaves: int) -> int {
    2 * leaves - 1
}

/// The frame that the root of a perfect subtree over `span` leaves has when it
/// is stored at `index`.
pub open spec fn kind_at(index: int, span: int) -> EntryKind {
    if span >= 2 {
        EntryKind::Node { left: (index - span) as u32, right: (index - 1) as u32 }
    } else {
        EntryKind::Leaf
    }
}

/// Whether an entry can be the root of a perfect subtree that ends at its
/// position: it covers a power of two of blocks, starting above height zero,
/// the subtree fits into the array before it, and its frame names the
/// children that such a root has.
pub open spec fn entry_fits(e: EntryFacts) -> bool {
    &&& 1 <= e.summary.start_height <= e.summary.end_height
    &&& is_pow2(leaf_span(e.summary))
    &&& subtree_nodes(leaf_span(e.summary)) <= e.index + 1
    &&& e.kind == kind_at(e.index as int, leaf_span(e.summary))
}

/// Number of positions filled by the subtrees of the first `j` peaks.
pub open spec fn nodes_before(peaks: Seq<EntryFacts>, j: int) -> int
    decreases j,
{
    if j <= 0 {
        0
    } else {
        nodes_before(peaks, j - 1) + subtree_nodes(leaf_span(peaks[j - 1].summary))
    }
}

/// Whether peak `j` follows peak `j - 1`: it is smaller and covers the blocks
/// right after it.
pub open spec fn peak_follows(peaks: Seq<EntryFacts>, j: int) -> bool {
    &&& leaf_span(peaks[j].summary) < leaf_span(peaks[j - 1].summary)
    &&& peaks[j].summary.start_height == peaks[j - 1].summary.end_height + 1
}

/// Whether peak `j` is a perfect subtree that ends where the subtrees of the
/// peaks up to it end.
pub open spec fn peak_placed(peaks: Seq<EntryFacts>, j: int) -> bool {
    &&& entry_fits(peaks[j])
    &&& peaks[j].index + 1 == nodes_before(peaks, j + 1)
}

/// Whether `peaks` are the peaks of a tree of `length` nodes: perfect subtrees
/// of strictly falling size over consecutive blocks, stored back to back from
/// position zero, that fill the array exactly.
pub open spec fn peaks_coherent(length: u32, peaks: Seq<EntryFacts>) -> bool {
    &&& forall|j: int| 0 <= j < peaks.len() ==> #[trigger] peak_placed(peaks, j)
    &&& forall|j: int| 0 < j < peaks.len() ==> #[trigger] peak_follows(peaks, j)
    &&& length == nodes_before(peaks, peaks.len() as int)
}

/// Number of peaks, counted back from peak `j`, that a subtree over `unit`
/// leaves merges with in turn: the peak before `j` has to be as large as the
/// subtree, the one before it twice as large, and so on.
pub open spec fn carried(peaks: Seq<EntryFacts>, j: int, unit: int) -> int
    decreases j,
{
    if j >= 1 && leaf_span(peaks[j - 1].summary) == unit {
        1 + carried(peaks, j - 1, 2 * unit)
    } else {
        0
    }
}

/// Number of inner nodes that a new leaf completes: the peaks at the end that
/// cover one leaf, two leaves, four leaves and so on, as a binary counter
/// carries when one is added.
pub open spec fn carries(peaks: Seq<EntryFacts>) -> int {
    carried(peaks, peaks.len() as int, 1)
}

/// No more peaks merge than there are.
pub proof fn lemma_carried_is_bounded(peaks: Seq<EntryFacts>, j: int, unit: int)
    requires
        0 <= j,
    ensures
        0 <= carried(peaks, j, unit) <= j,
    decreases j,
{
    if j >= 1 && leaf_span(peaks[j - 1].summary) == unit {
        lemma_carried_is_bounded(peaks, j - 1, 2 * unit);
    }
}

/// Whether a node can be the next leaf after `peaks`: it covers one block, the
/// one after the last peak.
pub open spec fn leaf_follows(peaks: Seq<EntryFacts>, leaf: NodeSummary) -> bool {
    &&& leaf.start_height == leaf.end_height
    &&& leaf.start_height == peaks.last().summary.end_height + 1
}

/// Whether `leaf` can be appended to the tree of `length` nodes with these
/// peaks: the peaks are coherent, the leaf is the next block, the totals of
/// peaks and leaf stay in range, and the array has room for the leaf and one
/// new node for each peak.
pub open spec fn append_ready(length: u32, peaks: Seq<EntryFacts>, leaf: NodeSummary) -> bool {
    &&& peaks.len() >= 1
    &&& peaks_coherent(length, peaks)
    &&& leaf_follows(peaks, leaf)
    &&& in_range(sums_with(entry_sums(peaks, peaks.len() as int), leaf))
    &&& length + peaks.len() + 1 <= u32::MAX
}

/// Whether no extra entry is stored where a peak is. An extra entry at the
/// position of a peak takes the place of the peak in the engine, so it is
/// not admitted, also where it holds the bytes of the peak.
pub open spec fn apart(extras: Seq<EntryFacts>, peaks: Seq<EntryFacts>) -> bool {
    forall|i: int, j: int|
        0 <= i < extras.len() && 0 <= j < peaks.len() ==> (#[trigger] extras[i]).index != (
        #[trigger] peaks[j]).index
}

/// Whether the last leaf can be taken from the tree of `length` nodes with
/// these peaks and extra entries, leaving at least one leaf: the peaks are
/// coherent, the extras do not overwrite them, everything that taking apart the
/// last peak asks for is supplied, and the totals stay in range, those of the
/// peaks and those of what is left when the last leaf is gone.
pub open spec fn truncate_ready(length: u32, peaks: Seq<EntryFacts>, extras: Seq<EntryFacts>) -> bool {
    &&& peaks.len() >= 1
    &&& peaks_coherent(length, peaks)
    &&& (peaks.len() >= 2 || leaf_span(peaks.last().summary) >= 2)
    &&& apart(extras, peaks)
    &&& spine_supplied(extras, length - 1, leaf_span(peaks.last().summary))
    &&& in_range(entry_sums(peaks, peaks.len() as int))
    &&& in_range(
        sums_join(
            entry_sums(peaks, peaks.len() - 1),
            spine_sums(extras, length - 1, leaf_span(peaks.last().summary)),
        ),
    )
}

/// Whether `n` is a power of two.
pub fn is_power_of_two(n: u64) -> (b: bool)
    ensures
        b == is_pow2(n as int),
{
    if n == 0 {
        proof {
            reveal(is_pow2);
        }
        return false;
    }
    let mut m: u64 = n;
    while m % 2 == 0
        invariant
            m >= 1,
            is_pow2(m as int) == is_pow2(n as int),
        decreases m,
    {
        proof {
            reveal(is_pow2);
        }
        m = m / 2;
    }
    proof {
        reveal(is_pow2);
    }
    m == 1
}

/// Whether an entry can be the root of a perfect subtree that ends at its
/// position.
pub fn fits(e: &EntryFacts) -> (ok: bool)
    ensures
        ok == entry_fits(*e),
{
    let s = e.summary;
    if s.start_height < 1 || s.end_height < s.start_height {
        return false;
    }
    let span: u64 = s.end_height - s.start_height + 1;
    if span > 0x8000_0000 {
        return false;
    }
    if !is_power_of_two(span) {
        return false;
    }
    let index: u64 = e.index as u64;
    if index + 1 < 2 * span - 1 {
        return false;
    }
    match e.kind {
        EntryKind::Leaf => span == 1,
        EntryKind::Node { left, right } => span >= 2 && right as u64 == index - 1 && left as u64
            == index - span,
    }
}

/// Whether `peaks` are the peaks of a tree of `length` nodes.
pub fn check_peaks(length: u32, peaks: &Vec<EntryFacts>) -> (ok: bool)
    ensures
        ok == peaks_coherent(length, peaks@),
{
    let mut count: u64 = 0;
    let mut i: usize = 0;
    while i < peaks.len()
        invariant
            0 <= i <= peaks.len(),
            count == nodes_before(peaks@, i as int),
            count <= 0x1_0000_0000,
            forall|j: int| 0 <= j < i ==> #[trigger] peak_placed(peaks@, j),
            forall|j: int| 0 < j < i ==> #[trigger] peak_follows(peaks@, j),
        decreases peaks.len() - i,
    {
        let e = peaks[i];
        if !fits(&e) {
            assert(!peak_placed(peaks@, i as int));
            return false;
        }
        let span: u64 = e.summary.end_height - e.summary.start_height + 1;
        let next: u64 = count + (2 * span - 1);
        if e.index as u64 + 1 != next {
            assert(!peak_placed(peaks@, i as int));
            return false;
        }
        if i > 0 {
            let p = peaks[i - 1];
            assert(peak_placed(peaks@, i - 1));
            let before: u64 = p.summary.end_height - p.summary.start_height + 1;
            if span >= before || e.summary.start_height - 1 != p.summary.end_height {
                assert(!peak_follows(peaks@, i as int));
                return false;
            }
        }
        count = next;
        i += 1;
    }
    count == length as u64
}

/// Height of a perfect subtree over `span` leaves.
pub open spec fn height_of(span: int) -> int
    decreases span,
{
    if span <= 1 {
        0
    } else {
        1 + height_of(span / 2)
    }
}

/// The entry supplied for position `index`; where several are, the last.
pub open spec fn supplied_at(extras: Seq<EntryFacts>, index: int) -> Option<EntryFacts>
    decreases extras.len(),
{
    if extras.len() == 0 {
        None
    } else if extras.last().index == index {
        Some(extras.last())
    } else {
        supplied_at(extras.drop_last(), index)
    }
}

/// Whether everything that taking apart the subtree of `span` leaves rooted
/// at `index` asks for is supplied: on each level the left child, and the right
/// child with the frame of its position. The walk goes down the right edge
/// to the last leaf.
pub open spec fn spine_supplied(extras: Seq<EntryFacts>, index: int, span: int) -> bool
    decreases span,
{
    if span <= 1 {
        true
    } else {
        &&& supplied_at(extras, index - span) is Some
        &&& supplied_at(extras, index - 1) matches Some(right) && right.kind == kind_at(
            index - 1,
            span / 2,
        )
        &&& spine_supplied(extras, index - 1, span / 2)
    }
}

/// The totals of the left children along the right edge of the subtree of
/// `span` leaves rooted at `index`.
pub open spec fn spine_sums(extras: Seq<EntryFacts>, index: int, span: int) -> Sums
    decreases span,
{
    if span <= 1 {
        no_sums()
    } else {
        sums_with(
            spine_sums(extras, index - 1, span / 2),
            supplied_at(extras, index - span)->0.summary,
        )
    }
}

/// A subtree is lower than it has leaves.
pub proof fn lemma_height_below_span(span: int)
    requires
        span >= 1,
    ensures
        0 <= height_of(span) < span,
    decreases span,
{
    if span > 1 {
        lemma_height_below_span(span / 2);
    }
}

/// The totals along a right edge are never negative.
pub proof fn lemma_spine_sums_positive(extras: Seq<EntryFacts>, index: int, span: int)
    ensures
        spine_sums(extras, index, span).sapling >= 0,
        spine_sums(extras, index, span).orchard >= 0,
        spine_sums(extras, index, span).work >= 0,
    decreases span,
{
    if span > 1 {
        lemma_spine_sums_positive(extras, index - 1, span / 2);
        let w = supplied_at(extras, index - span)->0.summary.work;
        assert(work_value(w) >= 0) by (nonlinear_arith)
            requires
                w[0] >= 0,
                w[1] >= 0,
                w[2] >= 0,
                w[3] >= 0,
        ;
    }
}

/// The entry supplied for position `index`; where several are, the last.
pub fn find(extras: &Vec<EntryFacts>, index: u32) -> (r: Option<EntryFacts>)
    ensures
        r == supplied_at(extras@, index as int),
{
    let mut i: usize = extras.len();
    assert(extras@.subrange(0, i as int) =~= extras@);
    while i > 0
        invariant
            i <= extras.len(),
            supplied_at(extras@, index as int) == supplied_at(
                extras@.subrange(0, i as int),
                index as int,
            ),
        decreases i,
    {
        let e = extras[i - 1];
        if e.index == index {
            return Some(e);
        }
        assert(extras@.subrange(0, i as int).drop_last() =~= extras@.subrange(0, i - 1));
        i -= 1;
    }
    None
}

/// Walks down the right edge of the subtree of `span` leaves rooted at `top`
/// and adds the left children met on the way to `start`. Gives the totals and
/// the height of the subtree, or `None` where something the walk needs is not
/// supplied or a total leaves its range.
pub fn check_spine(extras: &Vec<EntryFacts>, top: u32, span: u64, start: Totals) -> (r: Option<
    (Totals, u32),
>)
    requires
        is_pow2(span as int),
        subtree_nodes(span as int) <= top + 1,
        in_range(start.sums()),
    ensures
        match r {
            Some((t, h)) => {
                &&& spine_supplied(extras@, top as int, span as int)
                &&& t.sums() == sums_join(
                    start.sums(),
                    spine_sums(extras@, top as int, span as int),
                )
                &&& in_range(t.sums())
                &&& h == height_of(span as int)
            },
            None => !spine_supplied(extras@, top as int, span as int) || !in_range(
                sums_join(start.sums(), spine_sums(extras@, top as int, span as int)),
            ),
        },
{
    let mut index: u32 = top;
    let mut s: u64 = span;
    let mut acc = start;
    let mut h: u32 = 0;
    proof {
        reveal(is_pow2);
        lemma_height_below_span(span as int);
    }
    while s >= 2
        invariant
            is_pow2(s as int),
            1 <= s <= span,
            subtree_nodes(s as int) <= index + 1,
            index <= top,
            in_range(start.sums()),
            in_range(acc.sums()),
            spine_supplied(extras@, top as int, span as int) == spine_supplied(
                extras@,
                index as int,
                s as int,
            ),
            sums_join(start.sums(), spine_sums(extras@, top as int, span as int)) == sums_join(
                acc.sums(),
                spine_sums(extras@, index as int, s as int),
            ),
            h + height_of(s as int) == height_of(span as int),
            height_of(span as int) < span,
            subtree_nodes(span as int) <= top + 1,
        decreases s,
    {
        proof {
            reveal(is_pow2);
            lemma_spine_sums_positive(extras@, index - 1, s as int / 2);
            lemma_height_below_span(s as int / 2);
        }
        let half: u64 = s / 2;
        let left = match find(extras, index - (s as u32)) {
            Some(e) => e,
            None => {
                return None;
            },
        };
        let right = match find(extras, index - 1) {
            Some(e) => e,
            None => {
                return None;
            },
        };
        let framed = match right.kind {
            EntryKind::Leaf => half == 1,
            EntryKind::Node { left: l, right: r } => half >= 2 && l as u64 == index as u64 - 1
                - half && r == index - 2,
        };
        if !framed {
            return None;
        }
        acc = match acc.with(&left.summary) {
            Some(t) => t,
            None => {
                return None;
            },
        };
        index = index - 1;
        s = half;
        h = h + 1;
    }
    Some((acc, h))
}

} // verus!
