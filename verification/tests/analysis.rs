use crema::analysis::luminance_percentiles;

#[test]
fn percentiles_of_known_table() {
    // 0..=100 shuffled: the pct-th percentile is pct itself.
    let mut v: Vec<u64> = (0..=100u64).rev().collect();
    let (p5, p10, p50, p95) = luminance_percentiles(&mut v);
    assert_eq!((p5, p10, p50, p95), (5, 10, 50, 95));
    let sorted: Vec<u64> = (0..=100u64).collect();
    assert_eq!(v, sorted);
}

#[test]
fn percentiles_of_single_sample() {
    let mut v: Vec<u64> = vec![42];
    let (p5, p10, p50, p95) = luminance_percentiles(&mut v);
    assert_eq!((p5, p10, p50, p95), (42, 42, 42, 42));
}

#[test]
fn percentiles_on_float_bits() {
    // Non-negative floats order as their bit patterns do.
    let lums = [0.9f64, 0.1, 0.5, 0.3, 0.7];
    let mut bits: Vec<u64> = lums.iter().map(|l| l.to_bits()).collect();
    let (_, _, p50, _) = luminance_percentiles(&mut bits);
    assert_eq!(f64::from_bits(p50), 0.5);
}
