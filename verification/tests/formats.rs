use crema::formats::{is_raw_extension, is_supported_extension};

#[test]
fn extension_detection() {
    assert!(is_supported_extension("CR2"));
    assert!(is_supported_extension("jpg"));
    assert!(is_supported_extension("PNG"));
    assert!(!is_supported_extension("mp4"));
    assert!(is_raw_extension("nef"));
    assert!(!is_raw_extension("jpeg"));
}

#[test]
fn extension_case_folding() {
    assert!(is_raw_extension("DNG"));
    assert!(is_raw_extension("Arw"));
    assert!(is_supported_extension("Jpeg"));
    assert!(is_supported_extension("TIFF"));
    assert!(is_supported_extension("tif"));
}

#[test]
fn extension_rejects_non_matches() {
    assert!(!is_supported_extension(""));
    assert!(!is_supported_extension("jpg "));
    assert!(!is_supported_extension("jpgg"));
    assert!(!is_supported_extension("txt"));
    assert!(!is_raw_extension("png"));
}
