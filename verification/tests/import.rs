use crema::import::ImportResult;

#[test]
fn import_tally_starts_empty() {
    let r = ImportResult::new();
    assert!(r.imported.is_empty());
    assert_eq!(r.skipped, 0);
    assert!(r.errors.is_empty());
}

#[test]
fn import_tally_records_outcomes() {
    let mut r = ImportResult::new();
    r.record_imported(7);
    r.record_skipped();
    r.record_imported(9);
    r.record_error("bad file".to_string());
    r.record_skipped();
    assert_eq!(r.imported, vec![7, 9]);
    assert_eq!(r.skipped, 2);
    assert_eq!(r.errors, vec!["bad file".to_string()]);
}
