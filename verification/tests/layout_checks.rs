use mmr_history::codec::{EntryFacts, EntryKind, NodeSummary};
use mmr_history::layout::{check_peaks, check_spine, find, fits, is_power_of_two};
use mmr_history::totals::{add_entries, add_work, Totals};

fn facts(index: u32, kind: EntryKind, start: u64, end: u64) -> EntryFacts {
    EntryFacts {
        index,
        kind,
        summary: NodeSummary {
            start_height: start,
            end_height: end,
            sapling_tx: 1,
            orchard_tx: 2,
            work: [3, 0, 0, 0],
        },
    }
}

fn node(index: u32, left: u32, right: u32, start: u64, end: u64) -> EntryFacts {
    facts(index, EntryKind::Node { left, right }, start, end)
}

fn leaf(index: u32, height: u64) -> EntryFacts {
    facts(index, EntryKind::Leaf, height, height)
}

#[test]
fn powers_of_two() {
    for n in [1u64, 2, 4, 1024, 1 << 40, 1 << 63] {
        assert!(is_power_of_two(n));
    }
    for n in [0u64, 3, 6, 12, 1023, u64::MAX] {
        assert!(!is_power_of_two(n));
    }
}

#[test]
fn an_entry_fits_its_position() {
    assert!(fits(&leaf(0, 5)));
    assert!(fits(&leaf(7, 5)));
    assert!(fits(&node(2, 0, 1, 5, 6)));
    assert!(fits(&node(6, 2, 5, 5, 8)));
    assert!(fits(&node(9, 7, 8, 9, 10)));
}

#[test]
fn an_entry_that_does_not_fit() {
    assert!(!fits(&leaf(0, 0)));
    assert!(!fits(&facts(0, EntryKind::Leaf, 5, 6)));
    assert!(!fits(&facts(0, EntryKind::Leaf, 6, 5)));
    assert!(!fits(&node(2, 0, 1, 5, 5)));
    assert!(!fits(&node(2, 1, 1, 5, 6)));
    assert!(!fits(&node(2, 0, 2, 5, 6)));
    assert!(!fits(&node(1, 0, 0, 5, 6)));
    assert!(!fits(&node(6, 2, 5, 5, 7)));
    assert!(!fits(&node(5, 1, 4, 5, 8)));
}

#[test]
fn peaks_of_seven_leaves() {
    let peaks = vec![node(6, 2, 5, 1, 4), node(9, 7, 8, 5, 6), leaf(10, 7)];
    assert!(check_peaks(11, &peaks));
    assert_eq!(peaks.len() as u32, 7u32.count_ones());
    assert!(!check_peaks(10, &peaks));
    assert!(!check_peaks(12, &peaks));
}

#[test]
fn no_peaks_are_the_peaks_of_nothing() {
    assert!(check_peaks(0, &vec![]));
    assert!(!check_peaks(1, &vec![]));
}

#[test]
fn peaks_out_of_place_or_order() {
    assert!(!check_peaks(11, &vec![node(6, 2, 5, 1, 4), leaf(10, 7)]));
    assert!(!check_peaks(4, &vec![leaf(0, 1), node(3, 1, 2, 2, 3)]));
    assert!(!check_peaks(2, &vec![leaf(0, 1), leaf(1, 2)]));
    assert!(!check_peaks(4, &vec![node(2, 0, 1, 1, 2), leaf(3, 4)]));
    assert!(!check_peaks(4, &vec![node(2, 0, 1, 1, 2), leaf(4, 3)]));
}

#[test]
fn few_peaks_for_the_length() {
    let peaks = vec![node(6, 2, 5, 1, 4), node(9, 7, 8, 5, 6), leaf(10, 7)];
    assert!(check_peaks(11, &peaks));
    let bound = (11u32 + 1).next_power_of_two().trailing_zeros();
    assert_eq!(bound, 4);
    assert!(peaks.len() as u32 <= bound);
    let one = vec![leaf(0, 1)];
    assert!(check_peaks(1, &one));
    assert!(one.len() as u32 <= (1u32 + 1).next_power_of_two().trailing_zeros());
}

#[test]
fn the_last_entry_supplied_for_a_position_counts() {
    let extras = vec![leaf(3, 1), leaf(4, 2), leaf(3, 9)];
    assert_eq!(find(&extras, 3).unwrap().summary.start_height, 9);
    assert_eq!(find(&extras, 4).unwrap().summary.start_height, 2);
    assert!(find(&extras, 5).is_none());
}

#[test]
fn walk_down_the_right_edge_of_four_leaves() {
    let extras = vec![node(2, 0, 1, 1, 2), leaf(3, 3), leaf(4, 4), node(5, 3, 4, 3, 4)];
    let (totals, height) = check_spine(&extras, 6, 4, Totals::zero()).unwrap();
    assert_eq!(height, 2);
    assert_eq!(totals.sapling, 2);
    assert_eq!(totals.orchard, 4);
    assert_eq!(totals.work, [6, 0, 0, 0]);
    let (totals, height) = check_spine(&extras, 6, 1, Totals::zero()).unwrap();
    assert_eq!(height, 0);
    assert_eq!(totals.sapling, 0);
}

#[test]
fn walk_fails_without_a_child_or_with_a_wrong_frame() {
    let no_left = vec![leaf(3, 3), leaf(4, 4), node(5, 3, 4, 3, 4)];
    assert!(check_spine(&no_left, 6, 4, Totals::zero()).is_none());
    let no_right = vec![node(2, 0, 1, 1, 2), leaf(3, 3), leaf(4, 4)];
    assert!(check_spine(&no_right, 6, 4, Totals::zero()).is_none());
    let wrong = vec![node(2, 0, 1, 1, 2), leaf(3, 3), leaf(4, 4), node(5, 2, 4, 3, 4)];
    assert!(check_spine(&wrong, 6, 4, Totals::zero()).is_none());
    let leaf_too_soon = vec![node(2, 0, 1, 1, 2), leaf(3, 3), leaf(4, 4), leaf(5, 4)];
    assert!(check_spine(&leaf_too_soon, 6, 4, Totals::zero()).is_none());
}

#[test]
fn work_adds_with_carry() {
    assert_eq!(add_work(&[1, 2, 3, 4], &[10, 20, 30, 40]), Some([11, 22, 33, 44]));
    assert_eq!(add_work(&[u64::MAX, 0, 0, 0], &[1, 0, 0, 0]), Some([0, 1, 0, 0]));
    assert_eq!(
        add_work(&[u64::MAX, u64::MAX, u64::MAX, 0], &[1, 0, 0, 0]),
        Some([0, 0, 0, 1])
    );
    assert_eq!(
        add_work(&[u64::MAX, u64::MAX, 5, 7], &[u64::MAX, 0, 0, 1]),
        Some([u64::MAX - 1, 0, 6, 8])
    );
    assert_eq!(add_work(&[u64::MAX; 4], &[1, 0, 0, 0]), None);
    assert_eq!(add_work(&[0, 0, 0, 1 << 63], &[0, 0, 0, 1 << 63]), None);
    assert_eq!(add_work(&[u64::MAX; 4], &[0; 4]), Some([u64::MAX; 4]));
}

#[test]
fn totals_stop_at_the_range() {
    let mut big = leaf(0, 1);
    big.summary.sapling_tx = u64::MAX;
    let one = leaf(1, 2);
    assert!(add_entries(Totals::zero(), &vec![big, one], 1).is_some());
    assert!(add_entries(Totals::zero(), &vec![big, one], 2).is_none());
    let mut heavy = leaf(0, 1);
    heavy.summary.work = [0, 0, 0, 1 << 63];
    assert!(add_entries(Totals::zero(), &vec![heavy, heavy], 2).is_none());
    let mut many = leaf(0, 1);
    many.summary.orchard_tx = 1 << 63;
    assert!(add_entries(Totals::zero(), &vec![many, many], 2).is_none());
    let sum = add_entries(Totals::zero(), &vec![one, one, one], 3).unwrap();
    assert_eq!((sum.sapling, sum.orchard, sum.work), (3, 6, [9, 0, 0, 0]));
    assert!(Totals::zero().with(&big.summary).is_some());
}
