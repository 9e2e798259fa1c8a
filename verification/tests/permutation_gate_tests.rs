use cyclic_product::general_permutation_gate;
use cyclic_product::swap_schedule::bubble_sort_swap_schedule;
use cyclic_product::swap_schedule::DefaultSwapSchedule;
use cyclic_product::swap_schedule::SwapSchedule;
use cyclic_product::PermutationGate;
use cyclic_product::PermutationGateWitnessGenerator;

#[test]
fn test_try_new_rejects_out_of_range_positions() {
    let err = PermutationGate::try_new(3, vec![(0, 1), (0, 5), (9, 9)], true).err().unwrap();
    assert_eq!(err.max_allowed, 3);
    assert_eq!(err.found, (0, 5));
    assert!(PermutationGate::try_new(3, vec![(0, 1), (1, 2)], true).is_ok());
}

#[test]
fn test_wire_layout() {
    let gate = PermutationGate::try_new(4, vec![(0, 1), (2, 3), (1, 2)], false).unwrap();
    for i in 0..4 {
        assert_eq!(gate.input_wire(i), i);
        assert_eq!(gate.output_wire(i), 4 + i);
    }
    for i in 0..3 {
        assert_eq!(gate.selector_wire(i), 8 + i);
        assert_eq!(gate.idx1_wire(i), 11 + i);
        assert_eq!(gate.idx2_wire(i), 14 + i);
    }
}

#[test]
fn test_apply_to_values_plays_selected_swaps() {
    let gate = PermutationGate::try_new(3, vec![(0, 1), (1, 2)], true).unwrap();
    let permuted = gate.apply_to_values(&vec![10, 20, 30], &vec![true, false]);
    assert_eq!(permuted, vec![20, 10, 30]);
    let permuted = gate.apply_to_values(&vec![10, 20, 30], &vec![true, true]);
    assert_eq!(permuted, vec![20, 30, 10]);
}

#[test]
fn test_gate_sorts_with_bubble_selectors() {
    let mut permutation = vec![3usize, 1, 4, 0, 2];
    let schedule = bubble_sort_swap_schedule(&mut permutation);
    let positions: Vec<(usize, usize)> = schedule.iter().map(|t| (t.1, t.2)).collect();
    let selectors: Vec<bool> = schedule.iter().map(|t| t.0).collect();
    let gate = PermutationGate::try_new(5, positions, true).unwrap();
    let values = vec![3u64, 1, 4, 0, 2];
    assert_eq!(gate.apply_to_values(&values, &selectors), vec![0, 1, 2, 3, 4]);
}

#[test]
fn test_gate_sorts_with_split_two_selectors() {
    let mut permutation = vec![6usize, 2, 5, 0, 4, 1, 3, 8, 7];
    let schedule = DefaultSwapSchedule::permutation_to_swap_schedule(&mut permutation);
    let positions: Vec<(usize, usize)> = schedule.iter().map(|t| (t.1, t.2)).collect();
    let selectors: Vec<bool> = schedule.iter().map(|t| t.0).collect();
    let gate = PermutationGate::try_new(9, positions, true).unwrap();
    let values = vec![6u64, 2, 5, 0, 4, 1, 3, 8, 7];
    assert_eq!(
        gate.apply_to_values(&values, &selectors),
        vec![0, 1, 2, 3, 4, 5, 6, 7, 8]
    );
}

#[test]
fn test_gate_sorts_with_split_two_selectors_sixteen_objects() {
    let mut permutation: Vec<usize> = (0..16usize).map(|i| (i * 5) % 16).collect();
    permutation[8..].reverse();
    let values: Vec<u64> = permutation.iter().map(|&v| v as u64).collect();
    let schedule = DefaultSwapSchedule::permutation_to_swap_schedule(&mut permutation);
    let positions: Vec<(usize, usize)> = schedule.iter().map(|t| (t.1, t.2)).collect();
    let selectors: Vec<bool> = schedule.iter().map(|t| t.0).collect();
    let gate = PermutationGate::try_new(16, positions, true).unwrap();
    let sorted: Vec<u64> = (0..16u64).collect();
    assert_eq!(gate.apply_to_values(&values, &selectors), sorted);
}

#[test]
fn test_descriptor_round_trip() {
    let gate = PermutationGate::try_new(5, vec![(0, 4), (1, 3), (2, 4)], true).unwrap();
    let bytes = gate.serialize();
    let back = PermutationGate::deserialize(&bytes).unwrap();
    assert_eq!(back.n_objects(), 5);
    assert_eq!(back.swap_schedule(), vec![(0, 4), (1, 3), (2, 4)]);
    assert_eq!(back.serialize(), bytes);
}

#[test]
fn test_deserialize_rejects_truncated_descriptors() {
    assert!(PermutationGate::deserialize(&vec![]).is_err());
    assert!(PermutationGate::deserialize(&vec![0u8; 16]).is_err());
    let gate = PermutationGate::try_new(2, vec![(0, 1)], false).unwrap();
    let mut bytes = gate.serialize();
    let _ = bytes.pop();
    assert!(PermutationGate::deserialize(&bytes).is_err());
}

#[test]
fn test_witness_generator_dependencies() {
    let gate = PermutationGate::try_new(3, vec![(0, 1), (1, 2)], false).unwrap();
    let generator = PermutationGateWitnessGenerator { row: 7, gate };
    let dependencies = generator.dependencies();
    assert_eq!(
        dependencies,
        vec![(7, 0), (7, 1), (7, 2), (7, 6), (7, 7)]
    );
    assert_eq!(generator.target(4), (7, 4));
    let permuted = generator.run_once(&vec![5, 6, 7], &vec![false, true]);
    assert_eq!(permuted, vec![5, 7, 6]);
}

#[test]
fn test_general_permutation_gate_matches_default_schedule() {
    let gate = general_permutation_gate::<DefaultSwapSchedule>(6, true);
    assert_eq!(gate.n_objects(), 6);
    assert_eq!(gate.swap_schedule(), DefaultSwapSchedule::get_swap_sequence(6));
}
