use faer::col::colown::Col;

#[test]
fn test_from_vec() {
    // Test with integers
    let vec = vec![1, 2, 3, 4, 5];
    let col = Col::from(vec);

    // Check dimensions
    assert_eq!(col.nrows(), 5);
    assert_eq!(col.ncols(), 1);

    // Check elements
    for i in 0..5 {
        assert_eq!(col[i], i + 1);
    }

    // Test with floating point
    let vec = vec![1.0, 2.5, 3.7, 4.2, 5.9];
    let col = Col::from(vec);

    // Check dimensions
    assert_eq!(col.nrows(), 5);
    assert_eq!(col.ncols(), 1);

    // Check elements
    assert_eq!(col[0], 1.0);
    assert_eq!(col[1], 2.5);
    assert_eq!(col[2], 3.7);
    assert_eq!(col[3], 4.2);
    assert_eq!(col[4], 5.9);
}

#[test]
fn test_empty_vec() {
    let vec: Vec<f64> = vec![];
    let col = Col::from(vec);

    assert_eq!(col.nrows(), 0);
    assert_eq!(col.ncols(), 1);
}

#[test]
fn test_into_vec() {
    let col = Col::from_fn(5, |i| i as f64);
    let vec: Vec<f64> = col.into();

    assert_eq!(vec.len(), 5);
    for i in 0..5 {
        assert_eq!(vec[i], i as f64);
    }
}
