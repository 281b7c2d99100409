use crema::histogram::{compute_histogram, HistogramData};

#[test]
fn histogram_from_solid_color() {
    // 2x2 image, all red (255,0,0,255)
    let pixels = vec![
        255, 0, 0, 255, 255, 0, 0, 255, 255, 0, 0, 255, 255, 0, 0, 255,
    ];
    let hist = HistogramData::from_rgba_u8(&pixels);
    assert_eq!(hist.r[255], 4);
    assert_eq!(hist.r[0], 0);
    assert_eq!(hist.g[0], 4);
    assert_eq!(hist.b[0], 4);
    assert_eq!(hist.max_count, 4);
}

#[test]
fn histogram_empty_image() {
    let pixels: Vec<u8> = Vec::new();
    let hist = HistogramData::from_rgba_u8(&pixels);
    assert_eq!(hist.max_count, 1); // clamped to 1 to avoid div-by-zero
}

#[test]
fn histogram_gradient() {
    // 256 pixels, each with incrementing R value
    let mut pixels = Vec::with_capacity(256 * 4);
    for i in 0..=255u8 {
        pixels.extend_from_slice(&[i, 128, 0, 255]);
    }
    let hist = HistogramData::from_rgba_u8(&pixels);
    for i in 0..256 {
        assert_eq!(hist.r[i], 1);
    }
    assert_eq!(hist.g[128], 256);
    assert_eq!(hist.b[0], 256);
}

#[test]
fn histogram_ignores_alpha_and_fragment() {
    // Alpha bytes never land in a bin; a trailing fragment is ignored.
    let pixels = vec![1, 2, 3, 77, 9, 9];
    let hist = compute_histogram(&pixels);
    assert_eq!(hist.r[1], 1);
    assert_eq!(hist.g[2], 1);
    assert_eq!(hist.b[3], 1);
    assert_eq!(hist.r[77], 0);
    assert_eq!(hist.r[9], 0);
    assert_eq!(hist.max_count, 1);
}
