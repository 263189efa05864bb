use sang_md::stats::{autocorrelation_function, outer_product, radial_distribution_function,
    JarzynskiError};

#[test]
fn autocorrelation_sums_lagged_products() {
    let series = vec![1_000_000i64, 2_000_000, 3_000_000];
    // Lag one: 1*2 + 2*3 = 8 in physical units.
    assert_eq!(autocorrelation_function(&series, 1), 8_000_000);
    // Lag zero: 1 + 4 + 9 = 14.
    assert_eq!(autocorrelation_function(&series, 0), 14_000_000);
    // A lag beyond the series is empty.
    assert_eq!(autocorrelation_function(&series, 4), 0);
}

#[test]
fn radial_histogram_counts_each_bin() {
    let distances = vec![0i64, 5, 10, 15, -3, 25];
    let h = radial_distribution_function(&distances, 10, 2);
    assert_eq!(h.len(), 2);
    assert_eq!(h[0], 2);  // 0 and 5
    assert_eq!(h[1], 2);  // 10 and 15; -3 and 25 fall outside
}

#[test]
fn outer_product_fills_every_entry() {
    let a = vec![2i64, -3];
    let b = vec![5i64, 7, 11];
    let r = outer_product(&a, &b, 0);
    assert_eq!(r.len(), 2);
    assert_eq!(r[0], vec![10, 14, 22]);
    assert_eq!(r[1], vec![-15, -21, -33]);
}

#[test]
fn jarzynski_error_kinds_have_fixed_messages() {
    let e = JarzynskiError::EmptyWorkVector;
    assert_eq!(e.kind_message(), "no work values were provided");
    let io = JarzynskiError::Io { path: "pull.1".to_string() };
    assert_eq!(io.kind_message(), "could not read the pull file");
    let cols = JarzynskiError::InvalidColumns { path: "pull.1".to_string(), line: 3 };
    assert_eq!(cols.kind_message(), "a pull row does not have five columns");
    let num = JarzynskiError::InvalidNumber { path: "pull.1".to_string(), line: 9 };
    assert_eq!(num.kind_message(), "a pull row holds an unparsable number");
}
