use garbage_bot::calendar::{
    date_from_string, events_from_ics, extract_events, CalProperty, CalendarError, Date,
    ParseDateError,
};

fn prop(name: &str, value: Option<&str>) -> CalProperty {
    CalProperty { name: name.to_owned(), value: value.map(|v| v.to_owned()) }
}

#[test]
fn it_parses_dates_successfully() {
    let date = date_from_string("19910131").unwrap();
    assert_eq!(date.year, 1991);
    assert_eq!(date.month, 1);
    assert_eq!(date.day, 31);
}

#[test]
fn it_errors_if_the_input_string_has_invalid_length() {
    assert_eq!(
        date_from_string("202301010"),
        Err(ParseDateError::InvalidLength(9))
    );
    assert_eq!(date_from_string("2013"), Err(ParseDateError::InvalidLength(4)));
}

#[test]
fn it_rejects_non_numeric_dates() {
    assert_eq!(date_from_string("2023ab01"), Err(ParseDateError::NothingParsed()));
}

#[test]
fn it_rejects_days_that_do_not_exist() {
    assert_eq!(date_from_string("20230231"), Err(ParseDateError::NothingParsed()));
    assert_eq!(date_from_string("20231301"), Err(ParseDateError::NothingParsed()));
}

#[test]
fn it_knows_leap_years() {
    assert_eq!(
        date_from_string("20240229"),
        Ok(Date { year: 2024, month: 2, day: 29 })
    );
    assert_eq!(date_from_string("20230229"), Err(ParseDateError::NothingParsed()));
    assert_eq!(date_from_string("19000229"), Err(ParseDateError::NothingParsed()));
    assert_eq!(
        date_from_string("20000229"),
        Ok(Date { year: 2000, month: 2, day: 29 })
    );
}

#[test]
fn extract_keeps_only_complete_entries() {
    let complete = vec![
        prop("UID", Some("abc-1")),
        prop("SUMMARY", Some("pickup day")),
        prop("DTSTART", Some("20240131")),
    ];
    let missing_name = vec![prop("UID", Some("abc-2")), prop("DTSTART", Some("20240201"))];
    let bad_date = vec![
        prop("UID", Some("abc-3")),
        prop("SUMMARY", Some("broken")),
        prop("DTSTART", Some("2024-01-31")),
    ];
    let events = extract_events(&vec![complete, missing_name, bad_date]);
    assert_eq!(events.len(), 1);
    assert_eq!(events[0].uid, "abc-1");
    assert_eq!(events[0].name, "pickup day");
    assert_eq!(events[0].date, Date { year: 2024, month: 1, day: 31 });
}

#[test]
fn extract_lets_the_last_occurrence_win() {
    let entry = vec![
        prop("UID", Some("first")),
        prop("SUMMARY", Some("one")),
        prop("DTSTART", Some("20240101")),
        prop("UID", Some("second")),
        prop("DTSTART", Some("20240202")),
    ];
    let events = extract_events(&vec![entry]);
    assert_eq!(events.len(), 1);
    assert_eq!(events[0].uid, "second");
    assert_eq!(events[0].date, Date { year: 2024, month: 2, day: 2 });
}

#[test]
fn a_later_unparsable_date_resets_the_entry() {
    let entry = vec![
        prop("UID", Some("abc")),
        prop("SUMMARY", Some("x")),
        prop("DTSTART", Some("20240101")),
        prop("DTSTART", Some("garbage!")),
    ];
    let events = extract_events(&vec![entry]);
    assert_eq!(events.len(), 0);
}

#[test]
fn events_come_out_of_a_real_calendar_document() {
    let text = "BEGIN:VCALENDAR\nBEGIN:VEVENT\nUID:abc-1\nSUMMARY:Pickup\nDTSTART:20240131\nEND:VEVENT\nBEGIN:VEVENT\nUID:abc-2\nSUMMARY:No date here\nEND:VEVENT\nEND:VCALENDAR\n";
    let events = events_from_ics(text).unwrap();
    assert_eq!(events.len(), 1);
    assert_eq!(events[0].uid, "abc-1");
    assert_eq!(events[0].name, "Pickup");
    assert_eq!(events[0].date, Date { year: 2024, month: 1, day: 31 });
}

#[test]
fn a_document_that_is_no_calendar_is_a_parse_error() {
    let r = events_from_ics("hello, world");
    assert!(matches!(r, Err(CalendarError::ParseError())));
}
