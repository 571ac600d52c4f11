use sync_engine::config::{enabled_channels, ChannelConfig};
use sync_engine::db::reservation_for_event;
use sync_engine::error::SyncError;
use sync_engine::parser::CalendarEvent;
use sync_engine::scheduler::{
    interval_seconds, is_aggressive_interval, retention_cutoff, total_conflicts, RETENTION_DAYS,
};
use sync_engine::sync::SyncReport;
use sync_engine::text::{
    eq_ignore_ascii_case, push_decimal, same_text, text_before, trim_set, TrimSet,
};

#[test]
fn trim_set_whitespace_and_quotes() {
    assert_eq!(trim_set(" \t\u{3000}abc d\n\u{a0}", TrimSet::Whitespace), "abc d");
    assert_eq!(trim_set("\"\"x\"y\"\"", TrimSet::Quote), "x\"y");
    assert_eq!(trim_set("\"\"\"", TrimSet::Quote), "");
    assert_eq!(trim_set("   ", TrimSet::Whitespace), "");
    assert_eq!(trim_set("\u{200b}a", TrimSet::Whitespace), "\u{200b}a");
}

#[test]
fn text_comparisons() {
    assert!(same_text("abc", "abc"));
    assert!(!same_text("abc", "abd"));
    assert!(eq_ignore_ascii_case("CanCelled", "CANCELLED"));
    assert!(!eq_ignore_ascii_case("cancelled!", "CANCELLED"));
    assert!(!eq_ignore_ascii_case("é", "É"));
    assert!(text_before("ab", "abc"));
    assert!(text_before("Z", "a"));
    assert!(!text_before("abc", "abc"));
    assert!(!text_before("b", "a"));
}

#[test]
fn push_decimal_writes_digits() {
    let mut s = String::from("n=");
    push_decimal(&mut s, 0);
    push_decimal(&mut s, 9);
    push_decimal(&mut s, 1045);
    assert_eq!(s, "n=091045");
    let mut t = String::new();
    push_decimal(&mut t, usize::MAX);
    assert_eq!(t, usize::MAX.to_string());
}

#[test]
fn enabled_channels_filters_in_order() {
    let ch = |n: &str, u: &str, e: bool| ChannelConfig {
        name: n.to_string(),
        ics_url: u.to_string(),
        enabled: e,
    };
    let chans = vec![ch("a", "ua", true), ch("b", "ub", false), ch("c", "uc", true)];
    assert_eq!(
        enabled_channels(&chans),
        vec![("a".to_string(), "ua".to_string()), ("c".to_string(), "uc".to_string())]
    );
    assert!(enabled_channels(&vec![ch("b", "ub", false)]).is_empty());
}

#[test]
fn scheduler_rules() {
    assert!(is_aggressive_interval(1));
    assert!(is_aggressive_interval(14));
    assert!(!is_aggressive_interval(15));
    assert_eq!(interval_seconds(15), 900);
    assert_eq!(RETENTION_DAYS, 90);
    assert_eq!(retention_cutoff(1704067200, RETENTION_DAYS), 1696291200);
    let rep = |c: usize| SyncReport {
        channel_name: "x".to_string(),
        events_synced: 5,
        cancelled_removed: 0,
        conflicts_found: c,
    };
    assert_eq!(total_conflicts(&vec![rep(1), rep(0), rep(4)]), 5);
    assert_eq!(total_conflicts(&vec![]), 0);
}

#[test]
fn error_messages() {
    assert_eq!(
        SyncError::Database("locked".to_string()).message(),
        "Error de base de datos: locked"
    );
    assert_eq!(SyncError::Http("502".to_string()).message(), "Error HTTP: 502");
    assert_eq!(SyncError::Ical("x".to_string()).message(), "Error parseando ICS: x");
    assert_eq!(SyncError::Config("y".to_string()).message(), "Error de configuración: y");
    assert_eq!(SyncError::Conflict("z".to_string()).message(), "Conflicto detectado: z");
    assert_eq!(SyncError::Chrono("t".to_string()).message(), "Error de timestamp: t");
    assert_eq!(SyncError::Io("disk".to_string()).message(), "Error de I/O: disk");
}

#[test]
fn reservation_for_event_copies_event() {
    let e = CalendarEvent {
        uid: "u".to_string(),
        start_date: 10,
        end_date: 20,
        summary: Some("s".to_string()),
        is_cancelled: false,
    };
    let r = reservation_for_event(3, &e, 99);
    assert_eq!(r.id, 0);
    assert_eq!(r.channel_id, 3);
    assert_eq!(r.external_uid, "u");
    assert_eq!((r.start_date, r.end_date), (10, 20));
    assert_eq!(r.summary, Some("s".to_string()));
    assert_eq!(r.created_at, 99);
}
