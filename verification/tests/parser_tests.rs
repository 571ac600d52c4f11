use sync_engine::error::SyncError;
use sync_engine::parser::{
    event_from_properties, events_from_calendars, parse_ics, parse_timestamp, IcsCalendar,
    IcsEvent, IcsProperty,
};

#[test]
fn test_parse_ics() {
    let ics_content = r#"
BEGIN:VCALENDAR
VERSION:2.0
PRODID:-//Test//EN
BEGIN:VEVENT
UID:test123
DTSTART:20240101T120000Z
DTEND:20240101T140000Z
SUMMARY:Test Reservation
END:VEVENT
END:VCALENDAR
"#;

    let events = parse_ics(ics_content).unwrap();
    assert_eq!(events.len(), 1);
    assert_eq!(events[0].uid, "test123");
    assert_eq!(events[0].summary, Some("Test Reservation".to_string()));
    assert!(!events[0].is_cancelled);
}

#[test]
fn test_parse_ics_cancelled_event() {
    let ics_content = r#"
BEGIN:VCALENDAR
VERSION:2.0
PRODID:-//Test//EN
BEGIN:VEVENT
UID:test456
DTSTART:20240101T120000Z
DTEND:20240101T140000Z
SUMMARY:Cancelled Reservation
STATUS:CANCELLED
END:VEVENT
END:VCALENDAR
"#;

    let events = parse_ics(ics_content).unwrap();
    assert_eq!(events.len(), 1);
    assert!(events[0].is_cancelled);
}

#[test]
fn test_parse_ics_all_day_event() {
    let ics_content = r#"
BEGIN:VCALENDAR
VERSION:2.0
PRODID:-//Test//EN
BEGIN:VEVENT
UID:test789
DTSTART:20240105
DTEND:20240107
SUMMARY:All-day stay
END:VEVENT
END:VCALENDAR
"#;

    let events = parse_ics(ics_content).unwrap();
    assert_eq!(events.len(), 1);
    assert!(events[0].start_date < events[0].end_date);
    assert!(!events[0].is_cancelled);
}

fn prop(name: &str, value: Option<&str>) -> IcsProperty {
    IcsProperty { name: name.to_string(), value: value.map(|v| v.to_string()) }
}

#[test]
fn parse_ics_utc_times_are_exact() {
    let ics = "BEGIN:VCALENDAR\nBEGIN:VEVENT\nUID:a\nDTSTART:20240101T120000Z\nDTEND:20240101T140000Z\nEND:VEVENT\nEND:VCALENDAR\n";
    let events = parse_ics(ics).unwrap();
    assert_eq!(events.len(), 1);
    assert_eq!(events[0].start_date, 1704110400);
    assert_eq!(events[0].end_date, 1704117600);
    assert_eq!(events[0].summary, None);
}

#[test]
fn parse_ics_all_day_dates_are_midnights() {
    let ics = "BEGIN:VCALENDAR\nBEGIN:VEVENT\nUID:b\nDTSTART:20240105\nDTEND:20240107\nEND:VEVENT\nEND:VCALENDAR\n";
    let events = parse_ics(ics).unwrap();
    assert_eq!(events[0].start_date, 1704412800);
    assert_eq!(events[0].end_date, 1704585600);
}

#[test]
fn parse_ics_missing_header_is_an_ical_error() {
    match parse_ics("BEGIN:VEVENT\nUID:x\nEND:VEVENT\n") {
        Err(SyncError::Ical(msg)) => assert_eq!(msg, "Error parseando ICS: MissingHeader"),
        other => panic!("unexpected outcome: {:?}", other),
    }
}

#[test]
fn parse_ics_empty_feed_has_no_events() {
    assert_eq!(parse_ics("").unwrap().len(), 0);
}

#[test]
fn parse_ics_drops_events_without_uid_or_with_bad_span() {
    let ics = "BEGIN:VCALENDAR\n\
BEGIN:VEVENT\nDTSTART:20240101T120000Z\nDTEND:20240101T140000Z\nEND:VEVENT\n\
BEGIN:VEVENT\nUID:late\nDTSTART:20240102T120000Z\nDTEND:20240101T140000Z\nEND:VEVENT\n\
BEGIN:VEVENT\nUID:same\nDTSTART:20240102T120000Z\nDTEND:20240102T120000Z\nEND:VEVENT\n\
BEGIN:VEVENT\nUID:bad\nDTSTART:tomorrow\nDTEND:20240101T140000Z\nEND:VEVENT\n\
BEGIN:VEVENT\nUID:ok\nDTSTART:20240103\nDTEND:20240104\nEND:VEVENT\n\
END:VCALENDAR\n";
    let events = parse_ics(ics).unwrap();
    assert_eq!(events.len(), 1);
    assert_eq!(events[0].uid, "ok");
}

#[test]
fn parse_ics_keeps_events_of_every_calendar_in_order() {
    let ics = "BEGIN:VCALENDAR\nBEGIN:VEVENT\nUID:one\nDTSTART:20240101\nDTEND:20240102\nEND:VEVENT\nEND:VCALENDAR\n\
BEGIN:VCALENDAR\nBEGIN:VEVENT\nUID:two\nDTSTART:20240103\nDTEND:20240104\nSTATUS: cancelled \nEND:VEVENT\nEND:VCALENDAR\n";
    let events = parse_ics(ics).unwrap();
    assert_eq!(events.len(), 2);
    assert_eq!(events[0].uid, "one");
    assert!(!events[0].is_cancelled);
    assert_eq!(events[1].uid, "two");
    assert!(events[1].is_cancelled);
}

#[test]
fn parse_timestamp_accepts_each_form() {
    assert_eq!(parse_timestamp("20240101T120000Z"), Some(1704110400));
    assert_eq!(parse_timestamp("  \"20240101T120000Z\"  "), Some(1704110400));
    assert_eq!(parse_timestamp("20240105"), Some(1704412800));
    assert_eq!(parse_timestamp("20240101T120000"), Some(1704110400));
    assert_eq!(parse_timestamp("2024-01-01 12:00:00"), Some(1704110400));
    assert_eq!(parse_timestamp("2024-13-01 12:00:00"), None);
    assert_eq!(parse_timestamp("soon"), None);
    assert_eq!(parse_timestamp(""), None);
}

#[test]
fn event_from_properties_later_values_override() {
    let props = vec![
        prop("UID", Some("first")),
        prop("DTSTART", Some("20240101")),
        prop("DTEND", Some("20240103")),
        prop("UID", Some("second")),
        prop("DTEND", None),
        prop("SUMMARY", Some("Stay")),
        prop("STATUS", Some("CONFIRMED")),
        prop("X-OTHER", Some("ignored")),
    ];
    let e = event_from_properties(&props).unwrap();
    assert_eq!(e.uid, "second");
    assert_eq!(e.start_date, 1704067200);
    assert_eq!(e.end_date, 1704240000);
    assert_eq!(e.summary, Some("Stay".to_string()));
    assert!(!e.is_cancelled);
}

#[test]
fn event_from_properties_uid_without_value_clears_it() {
    let props = vec![
        prop("UID", Some("x")),
        prop("DTSTART", Some("20240101")),
        prop("DTEND", Some("20240103")),
        prop("UID", None),
    ];
    assert!(event_from_properties(&props).is_none());
}

#[test]
fn event_from_properties_names_are_case_sensitive() {
    let props = vec![
        prop("uid", Some("x")),
        prop("DTSTART", Some("20240101")),
        prop("DTEND", Some("20240103")),
    ];
    assert!(event_from_properties(&props).is_none());
}

#[test]
fn event_from_properties_cancelled_status_sticks() {
    let props = vec![
        prop("UID", Some("x")),
        prop("STATUS", Some(" Cancelled\t")),
        prop("STATUS", Some("CONFIRMED")),
        prop("DTSTART", Some("20240101")),
        prop("DTEND", Some("20240103")),
    ];
    assert!(event_from_properties(&props).unwrap().is_cancelled);
}

#[test]
fn events_from_calendars_flattens_in_order() {
    let ev = |uid: &str| IcsEvent {
        properties: vec![
            prop("UID", Some(uid)),
            prop("DTSTART", Some("20240101")),
            prop("DTEND", Some("20240102")),
        ],
    };
    let cals = vec![
        IcsCalendar { events: vec![ev("a"), IcsEvent { properties: vec![] }, ev("b")] },
        IcsCalendar { events: vec![] },
        IcsCalendar { events: vec![ev("c")] },
    ];
    let out = events_from_calendars(&cals);
    let uids: Vec<&str> = out.iter().map(|e| e.uid.as_str()).collect();
    assert_eq!(uids, vec!["a", "b", "c"]);
}
