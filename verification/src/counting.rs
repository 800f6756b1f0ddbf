//! Counting peaks: a tree over `n` leaves has one peak for every 1-bit of `n`,
//! so it has few peaks for its length.

use vstd::arithmetic::power2::is_pow2;
use vstd::prelude::*;

use crate::codec::EntryFacts;
use crate::layout::{
    carried, carries, height_of, leaf_span, nodes_before, peak_follows, peak_placed,
    peaks_coherent,
};

verus! {

/// Number of 1-bits of `n`.
pub open spec fn popcount(n: int) -> int
    decreases n,
{
    if n <= 0 {
        0
    } else {
        n % 2 + popcount(n / 2)
    }
}

/// The least `e` with `2^e >= x`.
pub open spec fn ceil_log2(x: int) -> int
    decreases x,
{
    if x <= 1 {
        0
    } else {
        1 + ceil_log2((x + 1) / 2)
    }
}

/// Two to the power `k`.
pub open spec fn two_to(k: int) -> int
    decreases k,
{
    if k <= 0 {
        1
    } else {
        2 * two_to(k - 1)
    }
}

/// The sum of a sequence.
pub open spec fn total(s: Seq<int>) -> int
    decreases s.len(),
{
    if s.len() == 0 {
        0
    } else {
        total(s.drop_last()) + s.last()
    }
}

/// Whether a sequence holds powers of two, each smaller than the one before.
pub open spec fn falling_powers(s: Seq<int>) -> bool {
    &&& forall|j: int| 0 <= j < s.len() ==> is_pow2(#[trigger] s[j])
    &&& forall|j: int| 0 < j < s.len() ==> #[trigger] s[j] < s[j - 1]
}

/// The number of leaves under each peak.
pub open spec fn spans_of(peaks: Seq<EntryFacts>) -> Seq<int> {
    Seq::new(peaks.len(), |j: int| leaf_span(peaks[j].summary))
}

/// The number of leaves under all peaks.
pub open spec fn leaf_count(peaks: Seq<EntryFacts>) -> int {
    total(spans_of(peaks))
}

/// Every element halved.
spec fn halved(s: Seq<int>) -> Seq<int> {
    Seq::new(s.len(), |j: int| s[j] / 2)
}

proof fn lemma_pow2_halves(x: int)
    requires
        is_pow2(x),
    ensures
        x >= 1,
        x >= 2 ==> x % 2 == 0 && is_pow2(x / 2),
{
    reveal(is_pow2);
}

proof fn lemma_last_is_least(s: Seq<int>, j: int)
    requires
        falling_powers(s),
        0 <= j < s.len(),
    ensures
        s[j] >= s.last(),
        j < s.len() - 1 ==> s[j] > s.last(),
    decreases s.len() - j,
{
    if j < s.len() - 1 {
        lemma_last_is_least(s, j + 1);
        assert(s[j + 1] < s[j]);
    }
}

proof fn lemma_total_of_halves(s: Seq<int>)
    requires
        forall|j: int| 0 <= j < s.len() ==> #[trigger] s[j] % 2 == 0,
    ensures
        2 * total(halved(s)) == total(s),
    decreases s.len(),
{
    if s.len() > 0 {
        assert(halved(s).drop_last() =~= halved(s.drop_last()));
        lemma_total_of_halves(s.drop_last());
        assert(s.last() % 2 == 0);
    }
}

proof fn lemma_total_positive(s: Seq<int>)
    requires
        forall|j: int| 0 <= j < s.len() ==> #[trigger] s[j] >= 1,
    ensures
        total(s) >= s.len(),
    decreases s.len(),
{
    if s.len() > 0 {
        lemma_total_positive(s.drop_last());
    }
}

/// What is left of falling powers of two when the lowest bit of their sum is
/// shifted out: the halves, without a last element that was one.
spec fn shifted(s: Seq<int>) -> Seq<int> {
    if s.len() > 0 && s.last() == 1 {
        halved(s.drop_last())
    } else {
        halved(s)
    }
}

proof fn lemma_shifted(s: Seq<int>)
    requires
        falling_powers(s),
        s.len() > 0,
    ensures
        falling_powers(shifted(s)),
        total(shifted(s)) == total(s) / 2,
        total(s) % 2 == (if s.last() == 1 { 1int } else { 0 }),
        shifted(s).len() == (if s.last() == 1 { s.len() - 1 } else { s.len() as int }),
        total(s) >= 1,
{
    let rest = if s.last() == 1 { s.drop_last() } else { s };
    assert forall|j: int| 0 <= j < rest.len() implies #[trigger] rest[j] % 2 == 0 && rest[j] >= 2
        && is_pow2(rest[j] / 2) by {
        lemma_last_is_least(s, j);
        lemma_pow2_halves(s[j]);
        lemma_pow2_halves(s.last());
    }
    lemma_total_of_halves(rest);
    let h = shifted(s);
    assert(h =~= halved(rest));
    assert forall|j: int| 0 <= j < h.len() implies is_pow2(#[trigger] h[j]) by {
        assert(rest[j] % 2 == 0);
    }
    assert forall|j: int| 0 < j < h.len() implies #[trigger] h[j] < h[j - 1] by {
        assert(rest[j] % 2 == 0);
        assert(rest[j - 1] % 2 == 0);
        assert(s[j] < s[j - 1]);
    }
    assert forall|j: int| 0 <= j < s.len() implies #[trigger] s[j] >= 1 by {
        lemma_pow2_halves(s[j]);
    }
    lemma_total_positive(s);
}

/// The sum of falling powers of two has one 1-bit for each of them.
pub proof fn lemma_popcount_of_falling_powers(s: Seq<int>)
    requires
        falling_powers(s),
    ensures
        popcount(total(s)) == s.len(),
    decreases total(s), s.len(),
{
    if s.len() > 0 {
        lemma_shifted(s);
        lemma_popcount_of_falling_powers(shifted(s));
    }
}

/// The sum of `k` falling powers of two is at least `2^k - 1`.
pub proof fn lemma_falling_powers_are_many(s: Seq<int>)
    requires
        falling_powers(s),
    ensures
        total(s) + 1 >= two_to(s.len() as int),
    decreases total(s), s.len(),
{
    if s.len() > 0 {
        lemma_shifted(s);
        lemma_falling_powers_are_many(shifted(s));
    }
}

proof fn lemma_two_to_grows(k: int)
    requires
        k >= 0,
    ensures
        two_to(k) > k,
    decreases k,
{
    if k > 0 {
        lemma_two_to_grows(k - 1);
    }
}

proof fn lemma_log_positive(x: int)
    ensures
        ceil_log2(x) >= 0,
    decreases x,
{
    if x > 1 {
        lemma_log_positive((x + 1) / 2);
    }
}

/// A number above `2^j` has a logarithm above `j`.
pub proof fn lemma_log_above(x: int, j: int)
    requires
        j >= 0,
        x > two_to(j),
    ensures
        ceil_log2(x) >= j + 1,
    decreases j,
{
    lemma_two_to_grows(j);
    lemma_log_positive((x + 1) / 2);
    if j > 0 {
        lemma_log_above((x + 1) / 2, j - 1);
    }
}

proof fn lemma_nodes_and_leaves(peaks: Seq<EntryFacts>, j: int)
    requires
        0 <= j <= peaks.len(),
    ensures
        nodes_before(peaks, j) == 2 * total(spans_of(peaks).take(j)) - j,
    decreases j,
{
    if j > 0 {
        lemma_nodes_and_leaves(peaks, j - 1);
        assert(spans_of(peaks).take(j).drop_last() =~= spans_of(peaks).take(j - 1));
    }
}

/// The peaks of a coherent tree are as many as its number of leaves has
/// 1-bits, and the length of the tree is twice the number of leaves less the
/// number of peaks.
pub proof fn lemma_peaks_are_the_bits(length: u32, peaks: Seq<EntryFacts>)
    requires
        peaks_coherent(length, peaks),
    ensures
        peaks.len() == popcount(leaf_count(peaks)),
        length == 2 * leaf_count(peaks) - peaks.len(),
        falling_powers(spans_of(peaks)),
{
    let s = spans_of(peaks);
    assert forall|j: int| 0 <= j < s.len() implies is_pow2(#[trigger] s[j]) by {
        assert(peak_placed(peaks, j));
    }
    assert forall|j: int| 0 < j < s.len() implies #[trigger] s[j] < s[j - 1] by {
        assert(peak_follows(peaks, j));
    }
    lemma_popcount_of_falling_powers(s);
    lemma_nodes_and_leaves(peaks, peaks.len() as int);
    assert(s.take(peaks.len() as int) =~= s);
}

/// A coherent tree has no more peaks than the logarithm of its length plus
/// one, rounded up.
pub proof fn lemma_peaks_are_few(length: u32, peaks: Seq<EntryFacts>)
    requires
        peaks_coherent(length, peaks),
    ensures
        peaks.len() <= ceil_log2(length + 1),
{
    let k = peaks.len() as int;
    if k > 0 {
        lemma_peaks_are_the_bits(length, peaks);
        lemma_falling_powers_are_many(spans_of(peaks));
        lemma_two_to_grows(k - 1);
        lemma_log_above(length + 1, k - 1);
    }
}

proof fn lemma_two_to_is_a_power(k: int)
    requires
        k >= 0,
    ensures
        is_pow2(two_to(k)),
        two_to(k) >= 1,
    decreases k,
{
    reveal(is_pow2);
    if k > 0 {
        lemma_two_to_is_a_power(k - 1);
    }
}

proof fn lemma_power_above(x: int, i: int)
    requires
        is_pow2(x),
        i >= 0,
        x > two_to(i),
    ensures
        x >= two_to(i + 1),
    decreases i,
{
    reveal(is_pow2);
    lemma_two_to_is_a_power(i);
    if i > 0 {
        lemma_power_above(x / 2, i - 1);
    }
}

/// What the peaks that a subtree of `2^e` leaves merges with look like,
/// counted back from peak `j`: they cover `2^e`, `2^(e+1)` and so on leaves,
/// the peak before them does not go on like that, and together with the
/// subtree they cover as many leaves as one subtree of the next size.
proof fn lemma_carried(peaks: Seq<EntryFacts>, j: int, e: int)
    requires
        0 <= j <= peaks.len(),
        e >= 0,
    ensures
        0 <= carried(peaks, j, two_to(e)) <= j,
        total(spans_of(peaks).take(j)) + two_to(e) == total(
            spans_of(peaks).take(j - carried(peaks, j, two_to(e))),
        ) + two_to(e + carried(peaks, j, two_to(e))),
        j - carried(peaks, j, two_to(e)) >= 1 ==> spans_of(peaks)[j - carried(
            peaks,
            j,
            two_to(e),
        ) - 1] != two_to(e + carried(peaks, j, two_to(e))),
        carried(peaks, j, two_to(e)) >= 1 ==> spans_of(peaks)[j - carried(peaks, j, two_to(e))]
            == two_to(e + carried(peaks, j, two_to(e)) - 1),
    decreases j,
{
    let s = spans_of(peaks);
    if j >= 1 && s[j - 1] == two_to(e) {
        lemma_carried(peaks, j - 1, e + 1);
        assert(s.take(j).drop_last() =~= s.take(j - 1));
        assert(two_to(e + 1) == 2 * two_to(e));
        assert(carried(peaks, j, two_to(e)) == 1 + carried(peaks, j - 1, two_to(e + 1)));
    }
}

/// Appending a leaf keeps the peaks the bits of the leaf count: a coherent
/// tree over `n` leaves, less the peaks that the new leaf carries into, plus
/// the one peak that comes of them, has as many peaks as `n + 1` has 1-bits,
/// and with the leaf and the nodes it completes the tree is twice `n + 1`
/// less that number long.
pub proof fn lemma_append_keeps_the_bits(length: u32, peaks: Seq<EntryFacts>)
    requires
        peaks_coherent(length, peaks),
    ensures
        0 <= carries(peaks) <= peaks.len(),
        peaks.len() - carries(peaks) + 1 == popcount(leaf_count(peaks) + 1),
        length + 1 + carries(peaks) == 2 * (leaf_count(peaks) + 1) - popcount(
            leaf_count(peaks) + 1,
        ),
{
    let s = spans_of(peaks);
    let k = peaks.len() as int;
    let c = carries(peaks);
    lemma_peaks_are_the_bits(length, peaks);
    lemma_carried(peaks, k, 0);
    lemma_two_to_is_a_power(c);
    assert(s.take(k) =~= s);
    let kept = s.take(k - c);
    let grown = kept.push(two_to(c));
    assert(grown.drop_last() =~= kept);
    assert(total(grown) == total(s) + 1);
    assert forall|j: int| 0 <= j < grown.len() implies is_pow2(#[trigger] grown[j]) by {
        if j < k - c {
            assert(grown[j] == s[j]);
        }
    }
    assert forall|j: int| 0 < j < grown.len() implies #[trigger] grown[j] < grown[j - 1] by {
        if j < k - c {
            assert(grown[j] == s[j] && grown[j - 1] == s[j - 1]);
        } else {
            let before = s[k - c - 1];
            assert(grown[j - 1] == before);
            assert(is_pow2(before));
            if c >= 1 {
                assert(s[k - c] < s[k - c - 1]);
                lemma_power_above(before, c - 1);
            } else {
                reveal(is_pow2);
            }
        }
    }
    lemma_popcount_of_falling_powers(grown);
}

/// A sequence with the powers of two below `2^h` after it, largest first.
spec fn with_descent(base: Seq<int>, h: int) -> Seq<int>
    decreases h,
{
    if h <= 0 {
        base
    } else {
        with_descent(base.push(two_to(h - 1)), h - 1)
    }
}

proof fn lemma_descent(base: Seq<int>, h: int)
    requires
        falling_powers(base),
        h >= 0,
        base.len() > 0 ==> base.last() >= two_to(h),
    ensures
        falling_powers(with_descent(base, h)),
        total(with_descent(base, h)) == total(base) + two_to(h) - 1,
        with_descent(base, h).len() == base.len() + h,
    decreases h,
{
    if h > 0 {
        let next = base.push(two_to(h - 1));
        lemma_two_to_is_a_power(h - 1);
        assert(next.drop_last() =~= base);
        assert forall|j: int| 0 <= j < next.len() implies is_pow2(#[trigger] next[j]) by {
            if j < base.len() {
                assert(next[j] == base[j]);
            }
        }
        assert forall|j: int| 0 < j < next.len() implies #[trigger] next[j] < next[j - 1] by {
            if j < base.len() {
                assert(next[j] == base[j] && next[j - 1] == base[j - 1]);
            } else {
                assert(next[j - 1] == base.last());
            }
        }
        lemma_descent(next, h - 1);
    }
}

proof fn lemma_power_of_its_height(x: int)
    requires
        is_pow2(x),
    ensures
        x == two_to(height_of(x)),
        height_of(x) >= 0,
    decreases x,
{
    reveal(is_pow2);
    if x > 1 {
        lemma_power_of_its_height(x / 2);
    }
}

/// Taking the last leaf away keeps the peaks the bits of the leaf count: a
/// coherent tree over `n` leaves, less its last peak, plus one peak for each
/// level of that peak, has as many peaks as `n - 1` has 1-bits, and without
/// the leaf and the nodes above it in the last peak the tree is twice `n - 1`
/// less that number long.
pub proof fn lemma_truncate_keeps_the_bits(length: u32, peaks: Seq<EntryFacts>)
    requires
        peaks_coherent(length, peaks),
        peaks.len() >= 1,
    ensures
        height_of(leaf_span(peaks.last().summary)) >= 0,
        peaks.len() - 1 + height_of(leaf_span(peaks.last().summary)) == popcount(
            leaf_count(peaks) - 1,
        ),
        length - 1 - height_of(leaf_span(peaks.last().summary)) == 2 * (leaf_count(peaks) - 1)
            - popcount(leaf_count(peaks) - 1),
{
    let s = spans_of(peaks);
    let k = peaks.len() as int;
    let h = height_of(leaf_span(peaks.last().summary));
    lemma_peaks_are_the_bits(length, peaks);
    assert(s.last() == leaf_span(peaks.last().summary));
    lemma_power_of_its_height(s.last());
    let base = s.drop_last();
    assert forall|j: int| 0 <= j < base.len() implies is_pow2(#[trigger] base[j]) by {
        assert(base[j] == s[j]);
    }
    assert forall|j: int| 0 < j < base.len() implies #[trigger] base[j] < base[j - 1] by {
        assert(base[j] == s[j] && base[j - 1] == s[j - 1]);
    }
    if base.len() > 0 {
        assert(base.last() == s[k - 2]);
        assert(s[k - 1] < s[k - 2]);
    }
    lemma_descent(base, h);
    lemma_popcount_of_falling_powers(with_descent(base, h));
}

/// Length of the array of a tree over `n` leaves.
pub open spec fn length_of(n: int) -> int {
    2 * n - popcount(n)
}

proof fn lemma_popcount_step(n: int)
    requires
        n >= 0,
    ensures
        0 <= popcount(n),
        popcount(n + 1) <= popcount(n) + 1,
    decreases n,
{
    if n > 0 {
        lemma_popcount_step(n / 2);
    }
    if n % 2 == 1 {
        assert((n + 1) / 2 == n / 2 + 1);
    } else {
        assert((n + 1) / 2 == n / 2);
    }
}

proof fn lemma_length_grows(a: int, b: int)
    requires
        0 <= a < b,
    ensures
        length_of(a) < length_of(b),
    decreases b - a,
{
    lemma_popcount_step(b - 1);
    if a < b - 1 {
        lemma_length_grows(a, b - 1);
    }
}

/// Trees of one length have one number of leaves.
pub proof fn lemma_length_tells_the_leaves(a: int, b: int)
    requires
        0 <= a,
        0 <= b,
        length_of(a) == length_of(b),
    ensures
        a == b,
{
    if a < b {
        lemma_length_grows(a, b);
    }
    if b < a {
        lemma_length_grows(b, a);
    }
}

proof fn lemma_leaves_are_counted(length: u32, peaks: Seq<EntryFacts>)
    requires
        peaks_coherent(length, peaks),
    ensures
        leaf_count(peaks) >= 0,
        length == length_of(leaf_count(peaks)),
{
    lemma_peaks_are_the_bits(length, peaks);
    let s = spans_of(peaks);
    assert forall|j: int| 0 <= j < s.len() implies #[trigger] s[j] >= 1 by {
        lemma_pow2_halves(s[j]);
    }
    lemma_total_positive(s);
}

/// Taking the last leaf away undoes what appending it did to the length: a
/// coherent tree of `length` nodes, grown by a leaf and by the nodes that the
/// leaf completes, and then stripped of its last leaf and of the nodes above
/// it in its last peak, is `length` nodes long again.
pub proof fn lemma_lengths_round_trip(length: u32, peaks: Seq<EntryFacts>, grown: Seq<EntryFacts>)
    requires
        peaks_coherent(length, peaks),
        length + 1 + carries(peaks) <= u32::MAX,
        peaks_coherent((length + 1 + carries(peaks)) as u32, grown),
        grown.len() >= 1,
    ensures
        length + 1 + carries(peaks) - 1 - height_of(leaf_span(grown.last().summary)) == length,
{
    let after = (length + 1 + carries(peaks)) as u32;
    lemma_append_keeps_the_bits(length, peaks);
    lemma_leaves_are_counted(length, peaks);
    lemma_leaves_are_counted(after, grown);
    lemma_length_tells_the_leaves(leaf_count(peaks) + 1, leaf_count(grown));
    lemma_truncate_keeps_the_bits(after, grown);
}

} // verus!
