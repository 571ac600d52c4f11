//! Stored reservations.
use vstd::prelude::*;
use crate::parser::{opt_text, CalendarEvent};

verus! {

/// A reservation as the store holds it; `created_at` is a Unix time in seconds.
#[derive(Debug, Clone)]
pub struct Reservation {
    pub id: i64,
    pub channel_id: i64,
    pub external_uid: String,
    pub start_date: i64,
    pub end_date: i64,
    pub summary: Option<String>,
    pub created_at: i64,
}

/// The reservation that stores `event` for a channel. The store assigns the id,
/// so the new reservation carries id 0.
pub fn reservation_for_event(channel_id: i64, event: &CalendarEvent, created_at: i64) -> (r:
    Reservation)
    ensures
        r.id == 0,
        r.channel_id == channel_id,
        r.external_uid@ == event.uid@,
        r.start_date == event.start_date,
        r.end_date == event.end_date,
        opt_text(r.summary) == opt_text(event.summary),
        r.created_at == created_at,
{
    Reservation {
        id: 0,
        channel_id,
        external_uid: event.uid.clone(),
        start_date: event.start_date,
        end_date: event.end_date,
        summary: match &event.summary {
            Some(s) => Some(s.clone()),
            None => None,
        },
        created_at,
    }
}

} // verus!
