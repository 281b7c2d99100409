use crema::dates::{month_name, parse_date, DateFilter};

#[test]
fn parse_date_valid() {
    assert_eq!(parse_date(Some("2026-02-05 14:30:00")), Some((2026, 2, 5)));
    assert_eq!(parse_date(Some("2025-12-31")), Some((2025, 12, 31)));
}

#[test]
fn parse_date_none_and_short() {
    assert_eq!(parse_date(None), None);
    assert_eq!(parse_date(Some("")), None);
    assert_eq!(parse_date(Some("2026")), None);
    assert_eq!(parse_date(Some("2026-02")), None);
}

#[test]
fn parse_date_garbage() {
    assert_eq!(parse_date(Some("not-a-date!!")), None);
    assert_eq!(parse_date(Some("abcd-ef-gh")), None);
}

#[test]
fn parse_date_invalid_range() {
    assert_eq!(parse_date(Some("2026-13-01")), None);
    assert_eq!(parse_date(Some("2026-00-01")), None);
    assert_eq!(parse_date(Some("2026-01-00")), None);
    assert_eq!(parse_date(Some("2026-01-32")), None);
}

#[test]
fn filter_matches_all() {
    assert!(DateFilter::All.matches(Some("2026-02-05 10:00:00")));
    assert!(DateFilter::All.matches(None));
}

#[test]
fn filter_matches_year() {
    assert!(DateFilter::Year(2026).matches(Some("2026-02-05 10:00:00")));
    assert!(!DateFilter::Year(2025).matches(Some("2026-02-05 10:00:00")));
}

#[test]
fn filter_matches_month() {
    assert!(DateFilter::Month(2026, 2).matches(Some("2026-02-05 10:00:00")));
    assert!(!DateFilter::Month(2026, 1).matches(Some("2026-02-05 10:00:00")));
}

#[test]
fn filter_matches_day() {
    assert!(DateFilter::Day(2026, 2, 5).matches(Some("2026-02-05 10:00:00")));
    assert!(!DateFilter::Day(2026, 2, 4).matches(Some("2026-02-05 10:00:00")));
}

#[test]
fn filter_matches_unknown() {
    assert!(!DateFilter::Unknown.matches(Some("2026-02-05 10:00:00")));
    assert!(DateFilter::Unknown.matches(None));
    assert!(DateFilter::Unknown.matches(Some("garbage")));
}

#[test]
fn month_names() {
    assert_eq!(month_name(1), "Jan");
    assert_eq!(month_name(2), "Feb");
    assert_eq!(month_name(12), "Dec");
    assert_eq!(month_name(0), "???");
    assert_eq!(month_name(13), "???");
}

#[test]
fn parse_date_leading_plus_accepted() {
    // Rust's unsigned parsing accepts a leading plus sign in each field.
    assert_eq!(parse_date(Some("+202-6-12-3")), Some((202, 6, 12)));
}

#[test]
fn date_counts_grouping() {
    let dates: Vec<Option<String>> = vec![
        Some("2026-02-05 10:00:00".to_string()),
        Some("2026-02-05 11:00:00".to_string()),
        Some("2026-02-03 09:00:00".to_string()),
        Some("2026-01-15 08:00:00".to_string()),
        Some("2025-06-01 12:00:00".to_string()),
        None,
    ];
    let tally = crema::dates::date_counts(&dates);
    assert_eq!(tally.unknown, 1);
    assert_eq!(tally.days.len(), 4);
    // Strictly ascending by (year, month, day), with exact counts.
    let flat: Vec<(u16, u8, u8, usize)> = tally
        .days
        .iter()
        .map(|e| (e.year, e.month, e.day, e.count))
        .collect();
    assert_eq!(
        flat,
        vec![
            (2025, 6, 1, 1),
            (2026, 1, 15, 1),
            (2026, 2, 3, 1),
            (2026, 2, 5, 2),
        ]
    );
}

#[test]
fn date_counts_empty_and_unparsable() {
    let tally = crema::dates::date_counts(&Vec::new());
    assert!(tally.days.is_empty());
    assert_eq!(tally.unknown, 0);

    let dates: Vec<Option<String>> = vec![Some("garbage".to_string()), None];
    let tally = crema::dates::date_counts(&dates);
    assert!(tally.days.is_empty());
    assert_eq!(tally.unknown, 2);
}

#[test]
fn build_tree_grouping() {
    let dates: Vec<Option<String>> = vec![
        Some("2026-02-05 10:00:00".to_string()),
        Some("2026-02-05 11:00:00".to_string()),
        Some("2026-02-03 09:00:00".to_string()),
        Some("2026-01-15 08:00:00".to_string()),
        Some("2025-06-01 12:00:00".to_string()),
        None,
    ];

    let tree = crema::date_tree::DateTree::build(&dates);
    assert_eq!(tree.total, 6);
    assert_eq!(tree.unknown_count, 1);
    assert_eq!(tree.years.len(), 2);

    // Newest first
    assert_eq!(tree.years[0].year, 2026);
    assert_eq!(tree.years[0].count, 4);
    assert_eq!(tree.years[1].year, 2025);
    assert_eq!(tree.years[1].count, 1);

    // 2026 months
    let months = &tree.years[0].months;
    assert_eq!(months.len(), 2);
    assert_eq!(months[0].month, 1);
    assert_eq!(months[0].count, 1);
    assert_eq!(months[1].month, 2);
    assert_eq!(months[1].count, 3);

    // Feb days
    let days = &months[1].days;
    assert_eq!(days.len(), 2);
    assert_eq!(days[0].day, 3);
    assert_eq!(days[0].count, 1);
    assert_eq!(days[1].day, 5);
    assert_eq!(days[1].count, 2);
}

#[test]
fn build_tree_empty() {
    let tree = crema::date_tree::DateTree::build(&Vec::new());
    assert_eq!(tree.total, 0);
    assert_eq!(tree.unknown_count, 0);
    assert!(tree.years.is_empty());
}
