use curriculum::{parse_year_month, CVDuration, CVEntry, CalendarDate, Category, EntryDescription};

fn date(s: &str) -> Option<CalendarDate> {
    Some(parse_year_month(s).expect("a valid date"))
}

fn strings(items: &[&str]) -> Vec<String> {
    items.iter().map(|s| s.to_string()).collect()
}

fn ci_description() -> EntryDescription {
    EntryDescription {
        context: "some super context".to_string(),
        ci: strings(&["git", "gitlab"]),
        ..Default::default()
    }
}

fn dated(beginning: Option<&str>, end: Option<&str>) -> CVEntry {
    CVEntry {
        beginning: beginning.and_then(date),
        end: end.and_then(date),
        city: Some("Brussels".to_string()),
        description: Some(ci_description()),
        ..Default::default()
    }
}

#[test]
fn entry_extract_skills() {
    let entry = dated(Some("2023-11"), None);
    let skills = entry.extract_skills();
    assert!(skills.iter().any(|(c, _)| *c == Category::CiCd));
}

#[test]
fn entry_extract_skills_in_order() {
    let entry = CVEntry {
        description: Some(EntryDescription {
            other: strings(&["jira"]),
            programming: strings(&["rust", "c"]),
            ..Default::default()
        }),
        ..Default::default()
    };
    let skills = entry.extract_skills();
    assert_eq!(skills.len(), 2);
    assert_eq!(skills[0].0, Category::ProgrammingLanguages);
    assert_eq!(skills[0].1, strings(&["rust", "c"]));
    assert_eq!(skills[1].0, Category::Other);
}

#[test]
fn entry_without_description_has_no_skills() {
    let entry = CVEntry::default();
    assert!(entry.extract_skills().is_empty());
}

#[test]
fn entry_duration() {
    let entry = dated(Some("2023-10"), Some("2023-12"));
    assert_eq!(entry.cv_duration(), Some(CVDuration { year: 0, month: 2 }));
}

#[test]
fn entry_duration_long() {
    let entry = dated(Some("2013-10"), Some("2023-12"));
    assert_eq!(entry.cv_duration(), Some(CVDuration { year: 10, month: 2 }));
}

#[test]
fn entry_duration_null() {
    let entry = dated(Some("2023-10"), Some("2023-10"));
    assert_eq!(entry.cv_duration(), Some(CVDuration { year: 0, month: 0 }));
}

#[test]
fn entry_duration_none() {
    let entry = dated(None, None);
    assert_eq!(entry.cv_duration(), None);
    assert_eq!(entry.duration(), None);
}

#[test]
fn entry_duration_noend() {
    let entry = dated(Some("2023-10"), None);
    let duration = entry.cv_duration().unwrap();
    assert!(duration.month + duration.year > 0);
}

#[test]
fn entry_duration_days() {
    let entry = dated(Some("2023-10"), Some("2023-12"));
    assert_eq!(entry.duration(), Some(61));
    let leap = dated(Some("2024-02"), Some("2024-03"));
    assert_eq!(leap.duration(), Some(29));
}

#[test]
fn entry_duration_at_ongoing() {
    let entry = dated(Some("2023-10"), None);
    let today = CalendarDate::new(2024, 10, 1).unwrap();
    assert_eq!(entry.duration_at(&today), Some(366));
    assert_eq!(entry.cv_duration_at(&today), Some(CVDuration { year: 1, month: 0 }));
}

#[test]
fn end_before_beginning_counts_as_zero() {
    let entry = dated(Some("2023-12"), Some("2023-10"));
    assert_eq!(entry.duration(), Some(-61));
    assert_eq!(entry.cv_duration(), Some(CVDuration { year: 0, month: 0 }));
}

#[test]
fn parse_year_month_examples() {
    assert_eq!(parse_year_month("2023-10"), CalendarDate::new(2023, 10, 1));
    assert_eq!(parse_year_month("1977-07-01"), CalendarDate::new(1977, 7, 1));
    assert_eq!(parse_year_month("2023"), None);
    assert_eq!(parse_year_month("2023-13"), None);
    assert_eq!(parse_year_month("2023-00"), None);
    assert_eq!(parse_year_month("20x3-10"), None);
    assert_eq!(parse_year_month("-10"), None);
    assert_eq!(parse_year_month("2023-"), None);
}

#[test]
fn calendar_date_new_checks_days() {
    assert!(CalendarDate::new(2024, 2, 29).is_some());
    assert!(CalendarDate::new(2023, 2, 29).is_none());
    assert!(CalendarDate::new(1900, 2, 29).is_none());
    assert!(CalendarDate::new(2000, 2, 29).is_some());
    assert!(CalendarDate::new(2023, 4, 31).is_none());
    assert!(CalendarDate::new(2023, 0, 1).is_none());
}

#[test]
fn day_numbers() {
    assert_eq!(CalendarDate::new(1, 1, 1).unwrap().day_number(), 1);
    assert_eq!(CalendarDate::new(1970, 1, 1).unwrap().day_number(), 719_163);
    assert_eq!(CalendarDate::new(0, 1, 1).unwrap().day_number(), -365);
}

#[test]
fn year_text_examples() {
    assert_eq!(CalendarDate::new(2023, 5, 1).unwrap().year_text(), "2023");
    assert_eq!(CalendarDate::new(7, 5, 1).unwrap().year_text(), "0007");
    assert_eq!(CalendarDate::new(12345, 5, 1).unwrap().year_text(), "+12345");
}
