use meal_planning::date::{date_range_from, parse_date, parse_date_range, Date, DateRangeError};

#[test]
fn date_new_accepts_only_days_that_exist() {
    assert!(Date::new(2024, 2, 29).is_some());
    assert!(Date::new(2023, 2, 29).is_none());
    assert!(Date::new(1900, 2, 29).is_none());
    assert!(Date::new(2000, 2, 29).is_some());
    assert!(Date::new(2024, 4, 31).is_none());
    assert!(Date::new(2024, 4, 30).is_some());
    assert!(Date::new(2024, 12, 31).is_some());
    assert!(Date::new(2024, 13, 1).is_none());
    assert!(Date::new(2024, 0, 1).is_none());
    assert!(Date::new(2024, 1, 0).is_none());
    assert!(Date::new(-4, 2, 29).is_some());
    assert!(Date::new(-1, 2, 29).is_none());
}

#[test]
fn date_order_is_by_year_month_day() {
    let a = Date::new(2024, 7, 1).unwrap();
    let b = Date::new(2024, 7, 2).unwrap();
    let c = Date::new(2024, 8, 1).unwrap();
    let d = Date::new(2025, 1, 1).unwrap();
    assert!(a.is_before(&b));
    assert!(b.is_before(&c));
    assert!(c.is_before(&d));
    assert!(!b.is_before(&a));
    assert!(!a.is_before(&a));
    assert!(!d.is_before(&c));
}

#[test]
fn date_range_is_closed() {
    let start = Date::new(2024, 7, 1).unwrap();
    let end = Date::new(2024, 7, 14).unwrap();
    assert!(start.is_within(&start, &end));
    assert!(end.is_within(&start, &end));
    assert!(Date::new(2024, 7, 7).unwrap().is_within(&start, &end));
    assert!(!Date::new(2024, 6, 30).unwrap().is_within(&start, &end));
    assert!(!Date::new(2024, 7, 15).unwrap().is_within(&start, &end));
}

#[test]
fn parse_date_reads_year_month_day() {
    assert_eq!(parse_date("2024-07-01"), Date::new(2024, 7, 1));
    assert_eq!(parse_date("2015-09-05"), Some(Date { year: 2015, month: 9, day: 5 }));
    assert_eq!(parse_date("2024-02-30"), None);
    assert_eq!(parse_date("01.07.2024"), None);
    assert_eq!(parse_date(""), None);
    assert_eq!(parse_date("2024-07"), None);
}

#[test]
fn parse_date_agrees_with_the_calendar() {
    for text in ["2024-02-29", "2023-12-31", "1999-01-01"] {
        let d = parse_date(text).unwrap();
        assert_eq!(Date::new(d.year, d.month, d.day), Some(d));
    }
}

#[test]
fn date_range_reports_the_first_text_that_is_no_date() {
    let a = Date::new(2024, 7, 1).unwrap();
    let b = Date::new(2024, 7, 14).unwrap();
    assert_eq!(parse_date_range("2024-07-01", "2024-07-14"), Ok((a, b)));
    assert_eq!(parse_date_range("soon", "2024-07-14"), Err(DateRangeError::InvalidStart));
    assert_eq!(parse_date_range("2024-07-01", "later"), Err(DateRangeError::InvalidEnd));
    assert_eq!(parse_date_range("soon", "later"), Err(DateRangeError::InvalidStart));
    assert_eq!(date_range_from(Some(a), Some(b)), Ok((a, b)));
    assert_eq!(date_range_from(None, Some(b)), Err(DateRangeError::InvalidStart));
    assert_eq!(date_range_from(Some(a), None), Err(DateRangeError::InvalidEnd));
}
