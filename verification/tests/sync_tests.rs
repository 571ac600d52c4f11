use sync_engine::error::SyncError;
use sync_engine::parser::CalendarEvent;
use sync_engine::sync::{
    collect_reports, conflict_details, has_active_uid, insert_sorted, split_events,
    uids_to_remove, ChannelSync, SyncAction, SyncReport, SyncStage,
};

fn event(uid: &str, start: i64, end: i64, cancelled: bool) -> CalendarEvent {
    CalendarEvent {
        uid: uid.to_string(),
        start_date: start,
        end_date: end,
        summary: None,
        is_cancelled: cancelled,
    }
}

fn strings(v: &[&str]) -> Vec<String> {
    v.iter().map(|s| s.to_string()).collect()
}

#[test]
fn split_events_separates_cancelled_uids() {
    let events = vec![
        event("a", 1, 2, false),
        event("b", 3, 4, true),
        event("c", 5, 6, false),
        event("b", 7, 8, true),
    ];
    let (active, cancelled) = split_events(&events);
    let uids: Vec<&str> = active.iter().map(|e| e.uid.as_str()).collect();
    assert_eq!(uids, vec!["a", "c"]);
    assert_eq!(cancelled, strings(&["b", "b"]));
}

#[test]
fn uids_to_remove_is_sorted_union_without_duplicates() {
    let cancelled = strings(&["zeta", "alpha", "zeta"]);
    let active = vec![event("keep", 1, 2, false), event("alpha", 1, 2, false)];
    let stored = strings(&["keep", "gone", "beta", "gone"]);
    let r = uids_to_remove(&cancelled, &active, &stored);
    assert_eq!(r, strings(&["alpha", "beta", "gone", "zeta"]));
}

#[test]
fn uids_to_remove_nothing_when_feed_matches_store() {
    let active = vec![event("a", 1, 2, false), event("b", 1, 2, false)];
    let r = uids_to_remove(&vec![], &active, &strings(&["b", "a"]));
    assert!(r.is_empty());
}

#[test]
fn insert_sorted_orders_by_code_point_and_skips_duplicates() {
    let mut v: Vec<String> = Vec::new();
    for s in ["b", "B", "ab", "a", "b", "é", ""] {
        insert_sorted(&mut v, s.to_string());
    }
    assert_eq!(v, strings(&["", "B", "a", "ab", "b", "é"]));
}

#[test]
fn has_active_uid_finds_exact_uid() {
    let active = vec![event("abc", 1, 2, false)];
    assert!(has_active_uid(&active, "abc"));
    assert!(!has_active_uid(&active, "ab"));
}

#[test]
fn conflict_details_text() {
    assert_eq!(
        conflict_details("u1", "airbnb", 12),
        "Conflicto: u1 en airbnb -> Overlap con 12 reserva(s)"
    );
    assert_eq!(
        conflict_details("", "x", 0),
        "Conflicto:  en x -> Overlap con 0 reserva(s)"
    );
}

const FEED: &str = "BEGIN:VCALENDAR\n\
BEGIN:VEVENT\nUID:stay-1\nDTSTART:20240101\nDTEND:20240103\nEND:VEVENT\n\
BEGIN:VEVENT\nUID:stay-2\nDTSTART:20240105\nDTEND:20240107\nEND:VEVENT\n\
BEGIN:VEVENT\nUID:stay-3\nDTSTART:20240110\nDTEND:20240112\nSTATUS:CANCELLED\nEND:VEVENT\n\
END:VCALENDAR\n";

#[test]
fn channel_sync_full_run() {
    let (mut s, a) = ChannelSync::start("airbnb".to_string(), "https://feed".to_string());
    match a {
        SyncAction::GetOrCreateChannel { name, url } => {
            assert_eq!(name, "airbnb");
            assert_eq!(url, "https://feed");
        }
        _ => panic!("expected channel lookup"),
    }
    match s.on_channel(7) {
        SyncAction::FetchFeed { url } => assert_eq!(url, "https://feed"),
        _ => panic!("expected fetch"),
    }
    match s.on_feed(FEED) {
        SyncAction::LoadStoredUids { channel_id } => assert_eq!(channel_id, 7),
        _ => panic!("expected stored uids"),
    }
    match s.on_stored_uids(strings(&["stay-1", "old"])) {
        SyncAction::DeleteUids { channel_id, uids } => {
            assert_eq!(channel_id, 7);
            assert_eq!(uids, strings(&["old", "stay-3"]));
        }
        _ => panic!("expected deletion"),
    }
    match s.on_removed(2) {
        SyncAction::CheckOverlaps { start, end, exclude_channel } => {
            assert_eq!((start, end, exclude_channel), (1704067200, 1704240000, 7));
        }
        _ => panic!("expected overlap check"),
    }
    match s.on_overlaps(0) {
        SyncAction::InsertReservation { channel_id, event } => {
            assert_eq!(channel_id, 7);
            assert_eq!(event.uid, "stay-1");
        }
        _ => panic!("expected insert"),
    }
    match s.on_inserted() {
        SyncAction::CheckOverlaps { start, .. } => assert_eq!(start, 1704412800),
        _ => panic!("expected overlap check"),
    }
    match s.on_overlaps(3) {
        SyncAction::LogConflict { details } => {
            assert_eq!(details, "Conflicto: stay-2 en airbnb -> Overlap con 3 reserva(s)")
        }
        _ => panic!("expected conflict log"),
    }
    assert_eq!(s.current_stage(), SyncStage::ConflictLog);
    match s.on_conflict_logged() {
        SyncAction::InsertReservation { event, .. } => assert_eq!(event.uid, "stay-2"),
        _ => panic!("expected insert"),
    }
    match s.on_inserted() {
        SyncAction::UpdateSyncTime { channel_id } => assert_eq!(channel_id, 7),
        _ => panic!("expected sync time"),
    }
    match s.on_sync_time_updated() {
        SyncAction::Finish(report) => {
            assert_eq!(report.channel_name, "airbnb");
            assert_eq!(report.events_synced, 2);
            assert_eq!(report.cancelled_removed, 2);
            assert_eq!(report.conflicts_found, 1);
        }
        _ => panic!("expected finish"),
    }
    assert_eq!(s.current_stage(), SyncStage::Finished);
}

#[test]
fn channel_sync_without_removals_or_events() {
    let (mut s, _) = ChannelSync::start("vrbo".to_string(), "u".to_string());
    s.on_channel(1);
    s.on_feed("");
    match s.on_stored_uids(vec![]) {
        SyncAction::UpdateSyncTime { channel_id } => assert_eq!(channel_id, 1),
        _ => panic!("expected sync time"),
    }
    match s.on_sync_time_updated() {
        SyncAction::Finish(report) => {
            assert_eq!(report.events_synced, 0);
            assert_eq!(report.cancelled_removed, 0);
            assert_eq!(report.conflicts_found, 0);
        }
        _ => panic!("expected finish"),
    }
}

#[test]
fn channel_sync_unreadable_feed_fails() {
    let (mut s, _) = ChannelSync::start("booking".to_string(), "u".to_string());
    s.on_channel(1);
    match s.on_feed("not a calendar") {
        SyncAction::Fail(SyncError::Ical(msg)) => assert!(msg.starts_with("Error parseando ICS: ")),
        _ => panic!("expected failure"),
    }
    assert_eq!(s.current_stage(), SyncStage::Failed);
}

fn report(name: &str, conflicts: usize) -> SyncReport {
    SyncReport {
        channel_name: name.to_string(),
        events_synced: 1,
        cancelled_removed: 0,
        conflicts_found: conflicts,
    }
}

#[test]
fn collect_reports_keeps_successes_in_order() {
    let outcomes = vec![
        Ok(report("a", 0)),
        Err(SyncError::Http("timeout".to_string())),
        Ok(report("b", 2)),
    ];
    let r = collect_reports(&outcomes);
    let names: Vec<&str> = r.iter().map(|x| x.channel_name.as_str()).collect();
    assert_eq!(names, vec!["a", "b"]);
    assert_eq!(r[1].conflicts_found, 2);
}
