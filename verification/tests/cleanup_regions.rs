use modscope::cleanup::odd_window;
use modscope::cleanup::regions::{
    dilate_mask, mark_regions, mask_to_regions, merge_close_regions, region_len, regions_overlap,
    total_region_len, union_masks,
};

fn flags(text: &str) -> Vec<bool> {
    text.chars().map(|c| c == '#').collect()
}

#[test]
fn close_regions_are_merged() {
    let regions = [(0, 3), (5, 8), (11, 12), (11, 11)];
    assert_eq!(merge_close_regions(&regions, 1), vec![(0, 3), (5, 8), (11, 12)]);
    assert_eq!(merge_close_regions(&regions, 2), vec![(0, 8), (11, 12)]);
    assert_eq!(merge_close_regions(&regions, 3), vec![(0, 12)]);
    assert_eq!(merge_close_regions(&[(0, 9), (2, 4), (9, 10)], 0), vec![(0, 10)]);
    assert!(merge_close_regions(&[], 5).is_empty());
    assert_eq!(
        merge_close_regions(&[(1, 2), (usize::MAX - 1, usize::MAX)], usize::MAX),
        vec![(1, usize::MAX)]
    );
}

#[test]
fn merging_twice_changes_nothing() {
    let regions = [(0, 3), (5, 8), (11, 12), (20, 30), (31, 33)];
    for gap in 0..10 {
        let once = merge_close_regions(&regions, gap);
        assert_eq!(merge_close_regions(&once, gap), once);
        assert!(once.windows(2).all(|pair| pair[0].1 + gap < pair[1].0));
    }
}

#[test]
fn runs_and_marks_undo_each_other() {
    let mask = flags("#..##.###....#");
    let runs = mask_to_regions(&mask);
    assert_eq!(runs, vec![(0, 1), (3, 5), (6, 9), (13, 14)]);
    let mut marked = vec![false; mask.len()];
    mark_regions(&mut marked, &runs);
    assert_eq!(marked, mask);
    assert!(mask_to_regions(&[]).is_empty());
    assert!(mask_to_regions(&flags("....")).is_empty());
}

#[test]
fn marks_behind_the_mask_are_left_out() {
    let mut mask = flags("#....");
    mark_regions(&mut mask, &[(3, 9), (7, 8), (2, 1)]);
    assert_eq!(mask, flags("#..##"));
}

#[test]
fn dilation_spreads_to_both_sides() {
    let mut mask = flags("#.....#....");
    dilate_mask(&mut mask, 2);
    assert_eq!(mask, flags("###.#####.."));
    dilate_mask(&mut mask, 0);
    assert_eq!(mask, flags("###.#####.."));
    dilate_mask(&mut mask, usize::MAX);
    assert_eq!(mask, vec![true; 11]);
    let mut silent = vec![false; 5];
    dilate_mask(&mut silent, 3);
    assert_eq!(silent, vec![false; 5]);
}

#[test]
fn masks_are_united() {
    let masks = [flags("#..."), flags("..#"), flags("....#.")];
    assert_eq!(union_masks(&masks, 5), flags("#.#.#"));
    assert_eq!(union_masks(&masks, 2), flags("#."));
    assert_eq!(union_masks(&[], 3), flags("..."));
}

#[test]
fn lengths_are_counted() {
    assert_eq!(region_len((3, 8)), 5);
    assert_eq!(region_len((8, 3)), 0);
    assert_eq!(total_region_len(&[]), 0);
    assert_eq!(total_region_len(&[(0, 3), (5, 8), (9, 9)]), 6);
}

#[test]
fn overlaps_are_shared_samples() {
    assert!(regions_overlap((0, 5), (4, 9)));
    assert!(regions_overlap((4, 9), (0, 5)));
    assert!(regions_overlap((0, 10), (4, 5)));
    assert!(!regions_overlap((0, 5), (5, 9)));
    assert!(!regions_overlap((5, 9), (0, 5)));
}

#[test]
fn windows_are_made_odd() {
    assert_eq!(odd_window(64, 100), 65);
    assert_eq!(odd_window(65, 100), 65);
    assert_eq!(odd_window(100, 100), 99);
    assert_eq!(odd_window(99, 99), 99);
    assert_eq!(odd_window(200, 10), 9);
    assert_eq!(odd_window(200, 11), 11);
    assert_eq!(odd_window(0, 1), 1);
    assert_eq!(odd_window(5, 0), 1);
}
