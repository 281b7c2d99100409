use crema::pipeline::{Crop, Exposure, Saturation, ToneCurve, Vibrance, WhiteBalance, TONE_LUT_SIZE};

#[test]
fn lut_size_constant() {
    assert_eq!(TONE_LUT_SIZE, 4096);
}

#[test]
fn monotone_pass_fixes_dips() {
    let mut lut: Vec<u32> = vec![0, 5, 3, 7, 2, 2, 9];
    ToneCurve::enforce_monotone(&mut lut);
    assert_eq!(lut, vec![0, 5, 5, 7, 7, 7, 9]);
}

#[test]
fn monotone_pass_keeps_sorted_input() {
    let sorted: Vec<u32> = vec![0, 1, 1, 4, 9, 100];
    let mut lut = sorted.clone();
    ToneCurve::enforce_monotone(&mut lut);
    assert_eq!(lut, sorted);
}

#[test]
fn monotone_pass_on_empty_and_single() {
    let mut empty: Vec<u32> = Vec::new();
    ToneCurve::enforce_monotone(&mut empty);
    assert!(empty.is_empty());

    let mut one: Vec<u32> = vec![42];
    ToneCurve::enforce_monotone(&mut one);
    assert_eq!(one, vec![42]);
}

#[test]
fn monotone_pass_on_float_lut_bits() {
    // The tone LUT holds values in [0, 1]; non-negative floats order the
    // same way as their bit patterns, so the pass runs on the bits and
    // lands back on a non-decreasing float table.
    let curve: Vec<f32> = vec![0.0, 0.2, 0.15, 0.5, 0.45, 1.0];
    let mut bits: Vec<u32> = curve.iter().map(|v| v.to_bits()).collect();
    ToneCurve::enforce_monotone(&mut bits);
    let fixed: Vec<f32> = bits.iter().map(|b| f32::from_bits(*b)).collect();
    assert_eq!(fixed, vec![0.0, 0.2, 0.2, 0.5, 0.5, 1.0]);
    for pair in fixed.windows(2) {
        assert!(pair[0] <= pair[1]);
    }
}

#[test]
fn stage_names() {
    assert_eq!(WhiteBalance.name(), "white_balance");
    assert_eq!(Exposure.name(), "exposure");
    assert_eq!(ToneCurve.name(), "tone_curve");
    assert_eq!(Vibrance.name(), "vibrance");
    assert_eq!(Saturation.name(), "saturation");
    assert_eq!(Crop.name(), "crop");
}
