use medicine::{
    build_report, dosage_label, dosage_totals, entry_from_input, list_entries, select_entries, window_entries, DoseEntry, ListMode, Stamp,
};

fn stamp(year: i16, month: i8, day: i8, hour: i8, minute: i8, second: i8, nanosecond: i32) -> Stamp {
    Stamp { year, month, day, hour, minute, second, nanosecond }
}

fn entry(name: &str, dosage: u32, time_taken: Stamp) -> DoseEntry {
    DoseEntry { name: name.to_string(), dosage, time_taken }
}

fn total_of(totals: &[medicine::Total], name: &str) -> Option<u64> {
    totals.iter().find(|t| t.name == name).map(|t| t.amount)
}

#[test]
fn mode_tokens() {
    assert_eq!(ListMode::All.token(), "all");
    assert_eq!(ListMode::TwentyFourHours.token(), "24h");
}

#[test]
fn dosage_labels() {
    assert_eq!(dosage_label(2), "2x");
    assert_eq!(dosage_label(0), "0x");
    assert_eq!(dosage_label(120), "120x");
}

#[test]
fn last_day_excludes_older_entries() {
    let now = stamp(2024, 6, 19, 15, 0, 0, 0);
    let entries = vec![
        entry("A", 1, stamp(2024, 6, 17, 15, 0, 0, 0)),
        entry("B", 1, stamp(2024, 6, 19, 9, 0, 0, 0)),
        entry("C", 1, stamp(2024, 6, 18, 14, 59, 0, 0)),
    ];
    let shown = select_entries(&entries, ListMode::TwentyFourHours, &now);
    let names: Vec<&str> = shown.iter().map(|e| e.name.as_str()).collect();
    assert_eq!(names, vec!["B"]);
    let all = select_entries(&entries, ListMode::All, &now);
    assert_eq!(all.len(), 3);
}

#[test]
fn listing_is_oldest_first() {
    let now = stamp(2024, 6, 19, 15, 0, 0, 0);
    let entries = vec![
        entry("C", 1, stamp(2024, 6, 19, 12, 0, 0, 0)),
        entry("A", 1, stamp(2023, 1, 1, 0, 0, 0, 0)),
        entry("B", 1, stamp(2024, 6, 19, 9, 30, 0, 0)),
        entry("D", 1, stamp(2024, 6, 19, 9, 30, 0, 0)),
    ];
    let shown = select_entries(&entries, ListMode::All, &now);
    for w in shown.windows(2) {
        assert!(w[0].time_taken.is_not_after(&w[1].time_taken));
    }
    assert_eq!(shown[0].name, "A");
    assert_eq!(shown[3].name, "C");
}

#[test]
fn boundary_of_the_last_day_is_inclusive() {
    let now = stamp(2024, 3, 1, 12, 0, 0, 0);
    let entries = vec![
        entry("inside", 1, stamp(2024, 2, 29, 12, 0, 0, 0)),
        entry("outside", 1, stamp(2024, 2, 29, 11, 59, 59, 999_999_999)),
        entry("later", 1, stamp(2024, 2, 29, 12, 0, 0, 1)),
    ];
    let shown = select_entries(&entries, ListMode::TwentyFourHours, &now);
    let names: Vec<&str> = shown.iter().map(|e| e.name.as_str()).collect();
    assert_eq!(names, vec!["inside", "later"]);
}

#[test]
fn totals_follow_the_window() {
    let now = stamp(2024, 6, 19, 15, 0, 0, 0);
    let entries = vec![
        entry("Aspirin", 5, stamp(2024, 6, 10, 8, 0, 0, 0)),
        entry("Aspirin", 2, stamp(2024, 6, 19, 8, 0, 0, 0)),
        entry("aspirin", 1, stamp(2024, 6, 19, 9, 0, 0, 0)),
        entry("Ibuprofen", 3, stamp(2024, 6, 19, 10, 0, 0, 0)),
        entry("Aspirin", 4, stamp(2024, 6, 19, 11, 0, 0, 0)),
    ];
    let day = build_report(&entries, ListMode::TwentyFourHours, &now).unwrap();
    assert_eq!(day.totals.len(), 3);
    assert_eq!(total_of(&day.totals, "Aspirin"), Some(6));
    assert_eq!(total_of(&day.totals, "aspirin"), Some(1));
    assert_eq!(total_of(&day.totals, "Ibuprofen"), Some(3));
    let all = build_report(&entries, ListMode::All, &now).unwrap();
    assert_eq!(total_of(&all.totals, "Aspirin"), Some(11));
}

#[test]
fn totals_in_order_of_first_appearance() {
    let t = stamp(2024, 6, 19, 8, 0, 0, 0);
    let entries = vec![entry("B", 1, t), entry("A", 2, t), entry("B", 3, t)];
    let totals = dosage_totals(&entries);
    assert_eq!(totals.len(), 2);
    assert_eq!((totals[0].name.as_str(), totals[0].amount), ("B", 4));
    assert_eq!((totals[1].name.as_str(), totals[1].amount), ("A", 2));
    assert!(dosage_totals(&Vec::new()).is_empty());
}

#[test]
fn added_entry_appears_in_full_listing() {
    let now = stamp(2024, 6, 19, 15, 27, 10, 0);
    let e = entry_from_input("Aspirin".to_string(), Some(2), Some("08:00"), now).unwrap();
    let report = build_report(&vec![e], ListMode::All, &now).unwrap();
    assert_eq!(report.rows.len(), 1);
    assert_eq!(report.rows[0].name, "Aspirin");
    assert_eq!(report.rows[0].dosage, "2x");
    assert_eq!(report.rows[0].time_taken, "2024-06-19 at 08:00");
    assert_eq!(report.rows[0].since, "7h 27m ago");
    assert_eq!(report.totals.len(), 1);
    assert_eq!(report.totals[0].name, "Aspirin");
    assert_eq!(report.totals[0].amount.to_string(), "2");
}

#[test]
fn defaulted_and_explicit_doses_add_up() {
    let now = stamp(2024, 6, 19, 15, 27, 10, 0);
    let first = entry_from_input("Ibuprofen".to_string(), None, None, now).unwrap();
    let second = entry_from_input("Ibuprofen".to_string(), Some(1), None, now).unwrap();
    let report = build_report(&vec![first, second], ListMode::All, &now).unwrap();
    assert_eq!(report.rows.len(), 2);
    assert_eq!(report.totals.len(), 1);
    assert_eq!(report.totals[0].name, "Ibuprofen");
    assert_eq!(report.totals[0].amount, 2);
}

#[test]
fn empty_last_day_gives_empty_tables() {
    let now = stamp(2024, 6, 19, 15, 0, 0, 0);
    let report = build_report(&Vec::new(), ListMode::TwentyFourHours, &now).unwrap();
    assert!(report.rows.is_empty());
    assert!(report.totals.is_empty());
    let old = vec![entry("Aspirin", 1, stamp(2024, 6, 1, 8, 0, 0, 0))];
    let report = build_report(&old, ListMode::TwentyFourHours, &now).unwrap();
    assert!(report.rows.is_empty());
    assert!(report.totals.is_empty());
}

#[test]
fn times_are_rounded_to_the_minute() {
    let now = stamp(2024, 6, 19, 15, 27, 29, 999_999_999);
    let entries = vec![entry("Aspirin", 1, stamp(2024, 6, 19, 13, 11, 30, 0))];
    let report = build_report(&entries, ListMode::All, &now).unwrap();
    assert_eq!(report.rows[0].time_taken, "2024-06-19 at 13:12");
    assert_eq!(report.rows[0].since, "2h 15m ago");
}

#[test]
fn rounding_past_the_last_minute_is_an_error() {
    let now = stamp(2024, 6, 19, 15, 0, 0, 0);
    let entries = vec![entry("Aspirin", 1, stamp(9999, 12, 31, 23, 59, 45, 0))];
    assert!(build_report(&entries, ListMode::All, &now).is_err());
}

#[test]
fn rounding_carries_into_the_next_year() {
    let now = stamp(2025, 1, 1, 2, 0, 0, 0);
    let entries = vec![entry("Aspirin", 1, stamp(2024, 12, 31, 23, 59, 45, 0))];
    let report = build_report(&entries, ListMode::TwentyFourHours, &now).unwrap();
    assert_eq!(report.rows[0].time_taken, "2025-01-01 at 00:00");
    assert_eq!(report.rows[0].since, "2h ago");
}

#[test]
fn last_day_window_crosses_a_month() {
    let now = stamp(2024, 5, 1, 6, 0, 0, 0);
    let entries = vec![
        entry("late", 2, stamp(2024, 4, 30, 7, 0, 0, 0)),
        entry("early", 3, stamp(2024, 4, 30, 5, 0, 0, 0)),
    ];
    let report = build_report(&entries, ListMode::TwentyFourHours, &now).unwrap();
    assert_eq!(report.rows.len(), 1);
    assert_eq!(report.rows[0].name, "late");
    assert_eq!(report.rows[0].dosage, "2x");
    assert_eq!(total_of(&report.totals, "late"), Some(2));
    assert_eq!(total_of(&report.totals, "early"), None);
}

#[test]
fn listing_at_the_current_time() {
    let entries = vec![entry("Aspirin", 2, stamp(2001, 1, 1, 8, 0, 0, 0))];
    let all = list_entries(&entries, ListMode::All).unwrap();
    assert_eq!(all.rows.len(), 1);
    assert_eq!(all.rows[0].time_taken, "2001-01-01 at 08:00");
    assert!(all.rows[0].since.ends_with("ago"));
    let day = list_entries(&entries, ListMode::TwentyFourHours).unwrap();
    assert!(day.rows.is_empty());
}

#[test]
fn negative_years_are_shown_with_a_sign() {
    let now = stamp(2024, 6, 19, 15, 0, 0, 0);
    let entries = vec![entry("Aspirin", 1, stamp(-1, 6, 15, 8, 0, 0, 0))];
    let report = build_report(&entries, ListMode::All, &now).unwrap();
    assert_eq!(report.rows[0].time_taken, "-0001-06-15 at 08:00");
}

#[test]
fn now_past_the_last_minute_is_an_error() {
    let now = stamp(9999, 12, 31, 23, 59, 45, 0);
    assert!(build_report(&Vec::new(), ListMode::All, &now).is_err());
}

#[test]
fn window_keeps_the_stored_order() {
    let now = stamp(2024, 6, 19, 15, 0, 0, 0);
    let entries = vec![
        entry("C", 1, stamp(2024, 6, 19, 12, 0, 0, 0)),
        entry("old", 1, stamp(2024, 6, 1, 12, 0, 0, 0)),
        entry("A", 1, stamp(2024, 6, 19, 9, 0, 0, 0)),
    ];
    let w = window_entries(&entries, ListMode::TwentyFourHours, &now);
    let names: Vec<&str> = w.iter().map(|e| e.name.as_str()).collect();
    assert_eq!(names, vec!["C", "A"]);
}
