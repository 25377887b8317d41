use juggling_tools::util::combinations;

#[test]
fn test_combinations_basic_values() {
    assert_eq!(combinations(5, 2), 10);
    assert_eq!(combinations(10, 3), 120);
    assert_eq!(combinations(6, 3), 20);
    assert_eq!(combinations(4, 2), 6);
}

#[test]
fn test_combinations_edge_cases() {
    assert_eq!(combinations(5, 0), 1);
    assert_eq!(combinations(5, 5), 1);
    assert_eq!(combinations(3, 5), 0);
}

#[test]
fn test_combinations_symmetry() {
    for n in 0..=10 {
        for k in 0..=n {
            assert_eq!(
                combinations(n, k),
                combinations(n, n - k),
                "C({},{}) != C({},{})",
                n,
                k,
                n,
                n - k
            );
        }
    }
}

#[test]
fn test_combinations_large_values_no_panic() {
    let _ = combinations(64, 32);
}
