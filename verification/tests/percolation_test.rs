use monte_carlo::applications::percolation::Percolation;

#[test]
fn test_no_percolation() {
    let mut percolation = Percolation::new(20);
    for i in 0..19 {
        percolation.open(i, i);
    }
    assert!(!percolation.percolates(), "The system should not percolate");
}

#[test]
fn test_percolation_with_multiple_paths() {
    let mut percolation = Percolation::new(20);
    for i in 0..20 {
        percolation.open(i, 0);
        percolation.open(i, 1);
    }
    assert!(percolation.percolates(), "The system should percolate");
}

#[test]
fn test_open_and_is_open() {
    let mut percolation = Percolation::new(3);
    assert!(!percolation.is_open(1, 2));
    percolation.open(1, 2);
    assert!(percolation.is_open(1, 2));
    assert!(!percolation.is_open(2, 1));
}

#[test]
fn test_single_column_percolates() {
    let mut percolation = Percolation::new(4);
    for i in 0..4 {
        percolation.open(i, 2);
    }
    assert!(percolation.percolates());
}
