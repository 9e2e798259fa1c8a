use cyclic_product::inverse_permutation;
use cyclic_product::KnuthL;
use cyclic_product::PermutationsIter;

#[test]
fn test_knuth_l_enumerates_in_lexicographic_order() {
    let mut enumeration = KnuthL::new(3);
    let expected = [
        vec![0usize, 1, 2],
        vec![0, 2, 1],
        vec![1, 0, 2],
        vec![1, 2, 0],
        vec![2, 0, 1],
        vec![2, 1, 0],
    ];
    for permutation in &expected {
        assert_eq!(enumeration.next(), Some(permutation.clone()));
    }
    assert_eq!(enumeration.next(), None);
    assert_eq!(enumeration.next(), None);
}

#[test]
fn test_knuth_l_of_nothing_is_finished() {
    let mut enumeration = KnuthL::new(0);
    assert_eq!(enumeration.next(), None);
}

#[test]
fn test_permutations_iter_yields_all_distinct() {
    let mut iter = PermutationsIter::new(4);
    let mut seen: Vec<Vec<usize>> = Vec::new();
    while let Some(permutation) = iter.next() {
        assert!(!seen.contains(&permutation));
        seen.push(permutation);
    }
    assert_eq!(seen.len(), 24);
}

#[test]
fn test_inverse_permutation() {
    let permutation = vec![2usize, 0, 1];
    let mut output_buffer = vec![0usize; 3];
    inverse_permutation(&permutation, &mut output_buffer);
    assert_eq!(output_buffer, vec![1, 2, 0]);
    let identity = vec![0usize, 1, 2, 3];
    let mut buffer = vec![0usize; 4];
    inverse_permutation(&identity, &mut buffer);
    assert_eq!(buffer, identity);
}

#[test]
fn test_inverse_permutation_into_longer_buffer() {
    let permutation = vec![1usize, 2, 0];
    let mut buffer = vec![9usize; 5];
    inverse_permutation(&permutation, &mut buffer);
    assert_eq!(buffer, vec![2, 0, 1, 9, 9]);
}
