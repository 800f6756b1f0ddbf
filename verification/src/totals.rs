//! The totals that add up when nodes are combined: transaction counts in 64
//! bits and the total work in 256 bits. Combining fails where a total leaves
//! its range, so the totals of what will be combined are taken first.

use vstd::prelude::*;

use crate::codec::{EntryFacts, NodeSummary};

verus! {

/// The weight of one limb: 2^64.
pub open spec fn limb() -> int {
    0x1_0000_0000_0000_0000
}

/// The number that four limbs stand for, least significant first.
pub open spec fn work_value(w: [u64; 4]) -> int {
    w[0] + limb() * (w[1] + limb() * (w[2] + limb() * w[3]))
}

/// The first number that four limbs cannot hold: 2^256.
pub open spec fn work_limit() -> int {
    limb() * limb() * limb() * limb()
}

/// Three totals as numbers without bounds.
pub struct Sums {
    pub sapling: int,
    pub orchard: int,
    pub work: int,
}

/// No node at all.
pub open spec fn no_sums() -> Sums {
    Sums { sapling: 0, orchard: 0, work: 0 }
}

/// Totals with one more node.
pub open spec fn sums_with(a: Sums, s: NodeSummary) -> Sums {
    Sums {
        sapling: a.sapling + s.sapling_tx,
        orchard: a.orchard + s.orchard_tx,
        work: a.work + work_value(s.work),
    }
}

/// The totals of two sets of nodes together.
pub open spec fn sums_join(a: Sums, b: Sums) -> Sums {
    Sums { sapling: a.sapling + b.sapling, orchard: a.orchard + b.orchard, work: a.work + b.work }
}

/// The totals of the first `j` entries.
pub open spec fn entry_sums(entries: Seq<EntryFacts>, j: int) -> Sums
    decreases j,
{
    if j <= 0 {
        no_sums()
    } else {
        sums_with(entry_sums(entries, j - 1), entries[j - 1].summary)
    }
}

/// Whether three totals are in range: the counts in 64 bits, the work in 256.
pub open spec fn in_range(t: Sums) -> bool {
    &&& 0 <= t.sapling <= u64::MAX
    &&& 0 <= t.orchard <= u64::MAX
    &&& 0 <= t.work < work_limit()
}

/// Running totals, each in range.
#[derive(Clone, Copy, Debug)]
pub struct Totals {
    pub sapling: u64,
    pub orchard: u64,
    pub work: [u64; 4],
}

/// Adds two limbs and a carry; gives the low limb and the carry out.
fn add_limb(a: u64, b: u64, carry: bool) -> (r: (u64, bool))
    ensures
        r.0 + (if r.1 { limb() } else { 0 }) == a + b + (if carry { 1int } else { 0 }),
{
    let c: u64 = if carry { 1 } else { 0 };
    if a <= u64::MAX - b {
        let s: u64 = a + b;
        if s <= u64::MAX - c {
            (s + c, false)
        } else {
            (0, true)
        }
    } else {
        let low: u64 = a - (u64::MAX - b) - 1;
        (low + c, true)
    }
}

/// The sum of two 256-bit numbers, or `None` where it does not fit.
pub fn add_work(a: &[u64; 4], b: &[u64; 4]) -> (r: Option<[u64; 4]>)
    ensures
        match r {
            Some(sum) => work_value(sum) == work_value(*a) + work_value(*b),
            None => work_value(*a) + work_value(*b) >= work_limit(),
        },
{
    let (w0, c0) = add_limb(a[0], b[0], false);
    let (w1, c1) = add_limb(a[1], b[1], c0);
    let (w2, c2) = add_limb(a[2], b[2], c1);
    let (w3, c3) = add_limb(a[3], b[3], c2);
    let sum: [u64; 4] = [w0, w1, w2, w3];
    proof {
        let m = limb();
        let x0 = w0 as int + (if c0 { m } else { 0 });
        let x1 = w1 as int + (if c1 { m } else { 0 });
        let x2 = w2 as int + (if c2 { m } else { 0 });
        let x3 = w3 as int + (if c3 { m } else { 0 });
        assert(work_value(*a) + work_value(*b) == work_value(sum) + (if c3 {
            work_limit()
        } else {
            0
        })) by (nonlinear_arith)
            requires
                m == limb(),
                sum[0] == w0,
                sum[1] == w1,
                sum[2] == w2,
                sum[3] == w3,
                x0 == a[0] + b[0],
                x1 == a[1] + b[1] + (if c0 { 1int } else { 0 }),
                x2 == a[2] + b[2] + (if c1 { 1int } else { 0 }),
                x3 == a[3] + b[3] + (if c2 { 1int } else { 0 }),
                x0 == w0 as int + (if c0 { m } else { 0 }),
                x1 == w1 as int + (if c1 { m } else { 0 }),
                x2 == w2 as int + (if c2 { m } else { 0 }),
                x3 == w3 as int + (if c3 { m } else { 0 }),
        ;
        assert(work_value(sum) >= 0) by (nonlinear_arith)
            requires
                sum[0] >= 0,
                sum[1] >= 0,
                sum[2] >= 0,
                sum[3] >= 0,
        ;
    }
    if c3 {
        None
    } else {
        Some(sum)
    }
}

impl Totals {
    /// These totals as numbers.
    pub open spec fn sums(&self) -> Sums {
        Sums {
            sapling: self.sapling as int,
            orchard: self.orchard as int,
            work: work_value(self.work),
        }
    }

    /// No node at all.
    pub fn zero() -> (t: Totals)
        ensures
            t.sums() == no_sums(),
    {
        Totals { sapling: 0, orchard: 0, work: [0, 0, 0, 0] }
    }

    /// These totals with one more node, or `None` where one of them leaves its
    /// range.
    pub fn with(&self, s: &NodeSummary) -> (r: Option<Totals>)
        ensures
            match r {
                Some(t) => t.sums() == sums_with(self.sums(), *s),
                None => !in_range(sums_with(self.sums(), *s)),
            },
    {
        let sapling = match self.sapling.checked_add(s.sapling_tx) {
            Some(v) => v,
            None => {
                return None;
            },
        };
        let orchard = match self.orchard.checked_add(s.orchard_tx) {
            Some(v) => v,
            None => {
                return None;
            },
        };
        match add_work(&self.work, &s.work) {
            Some(work) => Some(Totals { sapling, orchard, work }),
            None => None,
        }
    }
}

/// Totals never shrink as entries are added.
pub proof fn lemma_sums_grow(entries: Seq<EntryFacts>, i: int, j: int)
    requires
        0 <= i <= j,
    ensures
        0 <= entry_sums(entries, i).sapling <= entry_sums(entries, j).sapling,
        0 <= entry_sums(entries, i).orchard <= entry_sums(entries, j).orchard,
        0 <= entry_sums(entries, i).work <= entry_sums(entries, j).work,
    decreases j,
{
    if j > 0 {
        assert(work_value(entries[j - 1].summary.work) >= 0) by (nonlinear_arith)
            requires
                entries[j - 1].summary.work[0] >= 0,
                entries[j - 1].summary.work[1] >= 0,
                entries[j - 1].summary.work[2] >= 0,
                entries[j - 1].summary.work[3] >= 0,
        ;
        if i < j {
            lemma_sums_grow(entries, i, j - 1);
        } else {
            lemma_sums_grow(entries, i - 1, j - 1);
        }
    }
}

/// Adds the first `upto` entries to `start`, or gives `None` where a total
/// leaves its range on the way.
pub fn add_entries(start: Totals, entries: &Vec<EntryFacts>, upto: usize) -> (r: Option<Totals>)
    requires
        upto <= entries.len(),
        in_range(start.sums()),
    ensures
        match r {
            Some(t) => t.sums() == sums_join(start.sums(), entry_sums(entries@, upto as int))
                && in_range(t.sums()),
            None => !in_range(sums_join(start.sums(), entry_sums(entries@, upto as int))),
        },
{
    let mut acc = start;
    let mut i: usize = 0;
    while i < upto
        invariant
            0 <= i <= upto <= entries.len(),
            in_range(start.sums()),
            in_range(acc.sums()),
            acc.sums() == sums_join(start.sums(), entry_sums(entries@, i as int)),
        decreases upto - i,
    {
        match acc.with(&entries[i].summary) {
            Some(next) => {
                proof {
                    lemma_sums_grow(entries@, 0, i as int + 1);
                }
                acc = next;
            },
            None => {
                proof {
                    lemma_sums_grow(entries@, i as int + 1, upto as int);
                    lemma_sums_grow(entries@, 0, i as int + 1);
                }
                return None;
            },
        }
        i += 1;
    }
    Some(acc)
}

} // verus!
