use f1_stalker::domain::season_calendar::CalendarDate;
use f1_stalker::domain::time_format::{ce_day_label, ce_day_text, date_range_text, format_meeting_date_range};

fn date(year: i32, month: u32, day: u32) -> CalendarDate {
    CalendarDate { year, month, day }
}

#[test]
fn date_range_text_pads_days_and_names_months() {
    assert_eq!(date_range_text(date(2025, 3, 7), date(2025, 3, 9)), "07 Mar – 09 Mar 2025");
    assert_eq!(date_range_text(date(2024, 11, 29), date(2024, 12, 1)), "29 Nov – 01 Dec 2024");
}

#[test]
fn date_range_text_writes_years_as_chrono_does() {
    assert_eq!(date_range_text(date(999, 1, 1), date(999, 1, 2)), "01 Jan – 02 Jan 0999");
    assert_eq!(date_range_text(date(10000, 6, 1), date(10000, 6, 2)), "01 Jun – 02 Jun +10000");
    assert_eq!(date_range_text(date(-1, 2, 3), date(-1, 2, 4)), "03 Feb – 04 Feb -0001");
}

#[test]
fn meeting_date_range_reads_the_texts() {
    let text = format_meeting_date_range("2025-07-04T12:00:00+00:00", "2025-07-06T12:00:00+00:00", 0);
    assert!(text.ends_with(" Jul 2025"), "{text}");
    assert!(text.contains(" Jul – "), "{text}");
}

#[test]
fn meeting_date_range_uses_now_for_unreadable_texts() {
    // 1970-01-01 at noon UTC: the 1st or the 2nd of January 1970 in any time zone.
    let text = format_meeting_date_range("soon", "later", 43_200_000);
    assert!(text.starts_with("0") && text.ends_with(" Jan 1970"), "{text}");
    assert_eq!(text.len(), "01 Jan – 01 Jan 1970".len());
}

#[test]
fn days_from_the_common_era_read_as_dates() {
    // 2026-03-08 is day 739_683 counted from 0001-01-01 (day 1), a Sunday.
    assert_eq!(ce_day_text(739_683), "2026-03-08");
    assert_eq!(ce_day_label(739_683), "Sun 08 Mar");
    assert_eq!(ce_day_text(1), "0001-01-01");
    assert_eq!(ce_day_label(719_163), "Thu 01 Jan");
    assert_eq!(ce_day_text(i32::MAX), "");
}
