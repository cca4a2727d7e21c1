use adi_gpu_base::zsort;

#[test]
fn near_sort_orders_distances_non_decreasing() {
    let mut order: Vec<u32> = vec![0, 1, 2, 3];
    let dist: Vec<u64> = vec![10, 3, 7, 3];
    zsort(&mut order, &dist, true);
    assert_eq!(order, vec![1, 3, 2, 0]);
    for pair in order.windows(2) {
        assert!(dist[pair[0] as usize] <= dist[pair[1] as usize]);
    }
}

#[test]
fn far_sort_orders_distances_non_increasing() {
    let mut order: Vec<u32> = vec![0, 1, 2, 3];
    let dist: Vec<u64> = vec![10, 3, 7, 3];
    zsort(&mut order, &dist, false);
    assert_eq!(order, vec![0, 2, 1, 3]);
    for pair in order.windows(2) {
        assert!(dist[pair[0] as usize] >= dist[pair[1] as usize]);
    }
}

#[test]
fn sorted_input_is_returned_unchanged() {
    let mut order: Vec<u32> = vec![1, 3, 2, 0];
    let dist: Vec<u64> = vec![10, 3, 7, 3];
    zsort(&mut order, &dist, true);
    assert_eq!(order, vec![1, 3, 2, 0]);
    let mut far: Vec<u32> = vec![0, 2, 1, 3];
    zsort(&mut far, &dist, false);
    assert_eq!(far, vec![0, 2, 1, 3]);
}

#[test]
fn all_equal_distances_keep_input_order() {
    let mut order: Vec<u32> = vec![2, 0, 1];
    let dist: Vec<u64> = vec![4, 4, 4];
    zsort(&mut order, &dist, true);
    assert_eq!(order, vec![2, 0, 1]);
    zsort(&mut order, &dist, false);
    assert_eq!(order, vec![2, 0, 1]);
}

#[test]
fn empty_input_is_a_no_op() {
    let mut order: Vec<u32> = vec![];
    let dist: Vec<u64> = vec![1, 2];
    zsort(&mut order, &dist, true);
    assert!(order.is_empty());
}

#[test]
fn single_element_is_a_no_op() {
    let mut order: Vec<u32> = vec![1];
    let dist: Vec<u64> = vec![9, 2];
    zsort(&mut order, &dist, false);
    assert_eq!(order, vec![1]);
}

#[test]
fn repeated_indices_are_kept() {
    let mut order: Vec<u32> = vec![0, 1, 1, 0];
    let dist: Vec<u64> = vec![8, 2];
    zsort(&mut order, &dist, true);
    assert_eq!(order, vec![1, 1, 0, 0]);
}

#[test]
fn float_bit_patterns_sort_by_distance() {
    // Distances measured as non-negative IEEE-754 values enter the sort as
    // their bit patterns, whose integer order agrees with numeric order.
    let mags: [f32; 4] = [2.5, 0.25, 100.0, 1.0];
    let dist: Vec<u64> = mags.iter().map(|m| m.to_bits() as u64).collect();
    let mut order: Vec<u32> = vec![0, 1, 2, 3];
    zsort(&mut order, &dist, true);
    assert_eq!(order, vec![1, 3, 0, 2]);
    zsort(&mut order, &dist, false);
    assert_eq!(order, vec![2, 0, 3, 1]);
}
