use cyclic_product::swap_schedule::bubble_sort_swap_schedule;
use cyclic_product::swap_schedule::recursive_permutation_to_2_split_schedule;
use cyclic_product::swap_schedule::BubbleSortSwapSchedule;
use cyclic_product::swap_schedule::RecusriveSplitTwoSchedule;
use cyclic_product::swap_schedule::SwapSchedule;

#[test]
fn test_recursive_2_split_schedule() {
    let mut permutation = vec![1, 3, 8, 4, 2, 5, 0, 7, 6];
    println!(
        "{:?}",
        RecusriveSplitTwoSchedule::permutation_to_swap_schedule(&mut permutation)
    );
}

#[test]
fn test_bubble_sort_schedule_sorts() {
    let mut permutation = vec![3usize, 1, 4, 0, 2];
    let schedule = bubble_sort_swap_schedule(&mut permutation);
    assert_eq!(permutation, vec![0, 1, 2, 3, 4]);
    assert_eq!(schedule.len(), 5 * 4 / 2);
    for (_, idx1, idx2) in &schedule {
        assert_eq!(idx1 + 1, *idx2);
        assert!(*idx2 < 5);
    }
}

#[test]
fn test_bubble_schedule_replays_to_sorted() {
    let original = vec![4usize, 2, 0, 3, 1];
    let mut work = original.clone();
    let schedule = bubble_sort_swap_schedule(&mut work);
    let mut replay = original.clone();
    for (selector, idx1, idx2) in &schedule {
        if *selector {
            replay.swap(*idx1, *idx2);
        }
    }
    assert_eq!(replay, work);
    assert_eq!(replay, vec![0, 1, 2, 3, 4]);
}

#[test]
fn test_split_two_positions_depend_on_length_only() {
    let mut first = vec![1usize, 3, 8, 4, 2, 5, 0, 7, 6];
    let mut second = vec![8usize, 7, 6, 5, 4, 3, 2, 1, 0];
    let schedule_first = recursive_permutation_to_2_split_schedule(&mut first, 0, Vec::new());
    let schedule_second = recursive_permutation_to_2_split_schedule(&mut second, 0, Vec::new());
    let positions_first: Vec<(usize, usize)> =
        schedule_first.iter().map(|t| (t.1, t.2)).collect();
    let positions_second: Vec<(usize, usize)> =
        schedule_second.iter().map(|t| (t.1, t.2)).collect();
    assert_eq!(positions_first, positions_second);
    let fixed = RecusriveSplitTwoSchedule::get_swap_sequence(9);
    assert_eq!(positions_first, fixed);
}

#[test]
fn test_split_two_sorts_permutations() {
    let mut permutation = vec![1usize, 3, 8, 4, 2, 5, 0, 7, 6];
    let _ = RecusriveSplitTwoSchedule::permutation_to_swap_schedule(&mut permutation);
    assert_eq!(permutation, vec![0, 1, 2, 3, 4, 5, 6, 7, 8]);
}

fn scrambled_permutation(n_objects: usize, stride: usize) -> Vec<usize> {
    // A deterministic permutation: a full cycle by a stride coprime to
    // the length, with the tail reversed for good measure.
    let mut permutation: Vec<usize> = (0..n_objects).map(|i| (i * stride) % n_objects).collect();
    permutation[n_objects / 2..].reverse();
    permutation
}

#[test]
fn test_split_two_sorts_longer_permutations() {
    for n_objects in 10..=20usize {
        let stride = if n_objects % 3 == 0 { 7 } else { 3 };
        let mut permutation = scrambled_permutation(n_objects, stride);
        let _ = RecusriveSplitTwoSchedule::permutation_to_swap_schedule(&mut permutation);
        let identity: Vec<usize> = (0..n_objects).collect();
        assert_eq!(permutation, identity);
    }
}

#[test]
fn test_split_two_replay_realizes_permutation() {
    for n_objects in [10usize, 13, 16, 19] {
        let stride = if n_objects % 3 == 0 { 7 } else { 3 };
        let original = scrambled_permutation(n_objects, stride);
        let mut work = original.clone();
        let schedule = RecusriveSplitTwoSchedule::permutation_to_swap_schedule(&mut work);

        // Replaying the selected swaps on the permutation itself sorts it.
        let mut replay = original.clone();
        for (selector, idx1, idx2) in &schedule {
            if *selector {
                replay.swap(*idx1, *idx2);
            }
        }
        assert_eq!(replay, work);
        let identity: Vec<usize> = (0..n_objects).collect();
        assert_eq!(replay, identity);

        // Replaying them on any other values moves the entry at position
        // k to position original[k]: the swaps realize the permutation.
        let values: Vec<usize> = (0..n_objects).map(|i| 1000 + i).collect();
        let mut moved = values.clone();
        for (selector, idx1, idx2) in &schedule {
            if *selector {
                moved.swap(*idx1, *idx2);
            }
        }
        for k in 0..n_objects {
            assert_eq!(moved[original[k]], values[k]);
        }
    }
}

#[test]
fn test_get_swap_sequence_in_range() {
    for n in 0..12usize {
        for (idx1, idx2) in BubbleSortSwapSchedule::get_swap_sequence(n) {
            assert!(idx1 < n && idx2 < n);
        }
        for (idx1, idx2) in RecusriveSplitTwoSchedule::get_swap_sequence(n) {
            assert!(idx1 < n && idx2 < n);
        }
    }
}
