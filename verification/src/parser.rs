//! Reading reservation events out of an ICS (iCalendar) feed.
use vstd::prelude::*;
use vstd::string::*;
use crate::civil::{
    compact_date_seconds, compact_datetime_seconds, dashed_datetime_seconds, eight_digits_then_more,
    is_compact_date, is_compact_datetime, is_dashed_datetime, is_digit, year_then_non_digit,
};
use crate::error::SyncError;
use crate::text::{ascii_caseless_eq, eq_ignore_ascii_case, same_text, strip_both, trim_set, TrimSet};

verus! {

/// One property line of a calendar component: its name and optional value.
pub struct IcsProperty {
    pub name: String,
    pub value: Option<String>,
}

pub struct IcsPropertyView {
    pub name: Seq<char>,
    pub value: Option<Seq<char>>,
}

pub open spec fn opt_text(o: Option<String>) -> Option<Seq<char>> {
    match o {
        Some(s) => Some(s@),
        None => None,
    }
}

impl View for IcsProperty {
    type V = IcsPropertyView;

    open spec fn view(&self) -> IcsPropertyView {
        IcsPropertyView { name: self.name@, value: opt_text(self.value) }
    }
}

/// A `VEVENT` component, as the list of its properties in feed order.
pub struct IcsEvent {
    pub properties: Vec<IcsProperty>,
}

impl View for IcsEvent {
    type V = Seq<IcsPropertyView>;

    open spec fn view(&self) -> Seq<IcsPropertyView> {
        self.properties@.map_values(|p: IcsProperty| p@)
    }
}

/// A `VCALENDAR` object, as the list of its events in feed order.
pub struct IcsCalendar {
    pub events: Vec<IcsEvent>,
}

impl View for IcsCalendar {
    type V = Seq<Seq<IcsPropertyView>>;

    open spec fn view(&self) -> Seq<Seq<IcsPropertyView>> {
        self.events@.map_values(|e: IcsEvent| e@)
    }
}

pub open spec fn calendars_view(r: Result<Vec<IcsCalendar>, String>) -> Result<
    Seq<Seq<Seq<IcsPropertyView>>>,
    Seq<char>,
> {
    match r {
        Ok(v) => Ok(v@.map_values(|c: IcsCalendar| c@)),
        Err(e) => Err(e@),
    }
}

/// What the `ical` crate's `IcalParser` reads from a feed: the calendars with the
/// properties of their events, or the `Debug` text of the first parser error.
pub uninterp spec fn ical_calendars(content: Seq<char>) -> Result<
    Seq<Seq<Seq<IcsPropertyView>>>,
    Seq<char>,
>;

/// Runs `ical::IcalParser` over the feed and keeps, of each calendar, the name
/// and value of every property of every event. The contract only names the
/// outcome (`ical_calendars`): which texts the parser accepts and how it unfolds
/// lines is left to the crate.
#[verifier::external_body]
fn read_calendars(content: &str) -> (r: Result<Vec<IcsCalendar>, String>)
    ensures
        calendars_view(r) == ical_calendars(content@),
{
    let parsed: Result<Vec<ical::parser::ical::component::IcalCalendar>, ical::parser::ParserError> =
        ical::IcalParser::new(content.as_bytes()).collect();
    match parsed {
        Ok(cals) => Ok(cals.into_iter().map(|c| IcsCalendar {
            events: c.events.into_iter().map(|e| IcsEvent {
                properties: e.properties.into_iter().map(|p| IcsProperty { name: p.name, value: p.value }).collect(),
            }).collect(),
        }).collect()),
        Err(e) => Err(format!("{:?}", e)),
    }
}

/// What `chrono::NaiveDateTime::parse_from_str(value, format)` followed by
/// `.and_utc().timestamp()` gives: the Unix time of the date and time read, or
/// `None` where chrono refuses the text.
pub uninterp spec fn chrono_datetime_seconds(value: Seq<char>, format: Seq<char>) -> Option<i64>;

/// What `chrono::NaiveDate::parse_from_str(value, format)` at midnight
/// (`.and_hms_opt(0, 0, 0)`), then `.and_utc().timestamp()` gives.
pub uninterp spec fn chrono_date_midnight_seconds(value: Seq<char>, format: Seq<char>) -> Option<i64>;

/// Parses a date and time with chrono and takes its Unix time in UTC. The
/// contract names the outcome; chrono's format language is not restated, but
/// for the compact format `%Y%m%dT%H%M%S` it states what chrono's source shows:
/// `%Y` reads four digits, `%m`, `%d`, `%H`, `%M`, `%S` two each, and
/// `timestamp` counts the seconds from 1970-01-01 00:00:00 UTC, so a valid
/// `YYYYMMDDTHHMMSS` text gives the Unix time of that date and time, and a text
/// whose four year digits are not followed by a digit is refused. Likewise, for
/// `%Y-%m-%d %H:%M:%S`, a valid `YYYY-MM-DD HH:MM:SS` text gives its Unix time.
#[verifier::external_body]
fn datetime_seconds(value: &str, format: &str) -> (r: Option<i64>)
    ensures
        r == chrono_datetime_seconds(value@, format@),
        format@ == "%Y%m%dT%H%M%S"@ && is_compact_datetime(value@) ==> r is Some && r->0
            == compact_datetime_seconds(value@),
        format@ == "%Y%m%dT%H%M%S"@ && year_then_non_digit(value@) ==> r is None,
        format@ == "%Y-%m-%d %H:%M:%S"@ && is_dashed_datetime(value@) ==> r is Some && r->0
            == dashed_datetime_seconds(value@),
{
    match chrono::NaiveDateTime::parse_from_str(value, format) {
        Ok(dt) => Some(dt.and_utc().timestamp()),
        Err(_) => None,
    }
}

/// Parses a date with chrono and takes the Unix time of its midnight in UTC.
/// Besides naming the outcome, the contract states what chrono's `timestamp`
/// shows for a time of 00:00:00: a whole number of days; and, for the compact
/// format `%Y%m%d` (four digits of year, two of month, two of day), that a
/// valid `YYYYMMDD` text gives the midnight that starts that date, while a text
/// with more after its eight digits (chrono refuses input left over), or whose
/// four year digits are not followed by a digit, is refused.
#[verifier::external_body]
fn date_midnight_seconds(value: &str, format: &str) -> (r: Option<i64>)
    ensures
        r == chrono_date_midnight_seconds(value@, format@),
        r matches Some(t) ==> t % 86400 == 0,
        format@ == "%Y%m%d"@ && is_compact_date(value@) ==> r is Some && r->0
            == compact_date_seconds(value@),
        format@ == "%Y%m%d"@ && eight_digits_then_more(value@) ==> r is None,
        format@ == "%Y%m%d"@ && year_then_non_digit(value@) ==> r is None,
{
    match chrono::NaiveDate::parse_from_str(value, format) {
        Ok(d) => match d.and_hms_opt(0, 0, 0) {
            Some(dt) => Some(dt.and_utc().timestamp()),
            None => None,
        },
        Err(_) => None,
    }
}

/// The Unix time that a `DTSTART` / `DTEND` value denotes: the value is trimmed of
/// whitespace and of surrounding quotes, then read as a UTC date-time with a
/// trailing `Z`, an all-day date, a compact date-time, or a date-time with
/// separators, the first that chrono accepts.
/// A `DTSTART` / `DTEND` value without surrounding whitespace and quotes.
pub open spec fn trimmed_value(raw: Seq<char>) -> Seq<char> {
    strip_both(strip_both(raw, TrimSet::Whitespace), TrimSet::Quote)
}

pub open spec fn timestamp_of(raw: Seq<char>) -> Option<i64> {
    let v = trimmed_value(raw);
    let utc = if v.len() > 0 && v.last() == 'Z' {
        chrono_datetime_seconds(v.drop_last(), "%Y%m%dT%H%M%S"@)
    } else {
        None
    };
    if utc is Some {
        utc
    } else if chrono_date_midnight_seconds(v, "%Y%m%d"@) is Some {
        chrono_date_midnight_seconds(v, "%Y%m%d"@)
    } else if chrono_datetime_seconds(v, "%Y%m%dT%H%M%S"@) is Some {
        chrono_datetime_seconds(v, "%Y%m%dT%H%M%S"@)
    } else {
        chrono_datetime_seconds(v, "%Y-%m-%d %H:%M:%S"@)
    }
}

/// Reads the Unix time of a `DTSTART` / `DTEND` value; `None` where no accepted
/// form matches.
///
/// A UTC date-time `YYYYMMDDTHHMMSSZ`, a compact `YYYYMMDDTHHMMSS` and a
/// `YYYY-MM-DD HH:MM:SS` give the Unix time of that date and time (as UTC); an
/// all-day date `YYYYMMDD` gives the midnight that starts it.
pub fn parse_timestamp(value: &str) -> (r: Option<i64>)
    ensures
        r == timestamp_of(value@),
        ({
            let v = trimmed_value(value@);
            v.len() > 0 && v.last() == 'Z' && is_compact_datetime(v.drop_last())
        }) ==> (r matches Some(t) && t == compact_datetime_seconds(trimmed_value(value@).drop_last())),
        is_compact_date(trimmed_value(value@)) ==> (r matches Some(t) && t == compact_date_seconds(
            trimmed_value(value@),
        )),
        is_compact_datetime(trimmed_value(value@)) ==> (r matches Some(t) && t
            == compact_datetime_seconds(trimmed_value(value@))),
        is_dashed_datetime(trimmed_value(value@)) ==> (r matches Some(t) && t
            == dashed_datetime_seconds(trimmed_value(value@))),
{
    let v = trim_set(trim_set(value, TrimSet::Whitespace), TrimSet::Quote);
    let n = v.unicode_len();
    assert(is_compact_date(v@) ==> is_digit(v@[7]));
    assert(is_compact_datetime(v@) ==> is_digit(v@[14]) && eight_digits_then_more(v@));
    assert(is_dashed_datetime(v@) ==> is_digit(v@[18]) && year_then_non_digit(v@));
    if n > 0 && v.get_char(n - 1) == 'Z' {
        let stripped = v.substring_char(0, n - 1);
        assert(stripped@ =~= v@.drop_last());
        let utc = datetime_seconds(stripped, "%Y%m%dT%H%M%S");
        if utc.is_some() {
            return utc;
        }
    }
    let day = date_midnight_seconds(v, "%Y%m%d");
    if day.is_some() {
        return day;
    }
    let compact = datetime_seconds(v, "%Y%m%dT%H%M%S");
    if compact.is_some() {
        return compact;
    }
    datetime_seconds(v, "%Y-%m-%d %H:%M:%S")
}


/// A reservation read from a feed. Cancelled events are kept and marked, so
/// that the caller can remove the reservation they stand for.
#[derive(Debug, Clone)]
pub struct CalendarEvent {
    pub uid: String,
    pub start_date: i64,
    pub end_date: i64,
    pub summary: Option<String>,
    pub is_cancelled: bool,
}

pub struct CalendarEventView {
    pub uid: Seq<char>,
    pub start_date: i64,
    pub end_date: i64,
    pub summary: Option<Seq<char>>,
    pub is_cancelled: bool,
}

impl View for CalendarEvent {
    type V = CalendarEventView;

    open spec fn view(&self) -> CalendarEventView {
        CalendarEventView {
            uid: self.uid@,
            start_date: self.start_date,
            end_date: self.end_date,
            summary: opt_text(self.summary),
            is_cancelled: self.is_cancelled,
        }
    }
}

pub open spec fn events_view(s: Seq<CalendarEvent>) -> Seq<CalendarEventView> {
    s.map_values(|e: CalendarEvent| e@)
}

/// What the properties of an event have said so far.
pub struct EventDraftView {
    pub uid: Option<Seq<char>>,
    pub start: Option<i64>,
    pub end: Option<i64>,
    pub summary: Option<Seq<char>>,
    pub cancelled: bool,
}

/// A `STATUS` value that marks the event as cancelled.
pub open spec fn is_cancelled_status(value: Seq<char>) -> bool {
    ascii_caseless_eq(strip_both(value, TrimSet::Whitespace), "CANCELLED"@)
}

/// The effect of one property on the draft: `UID` and `SUMMARY` take the
/// property's value, `DTSTART` / `DTEND` with a value take the time it denotes,
/// a cancelling `STATUS` marks the event; other properties change nothing.
pub open spec fn apply_property(d: EventDraftView, p: IcsPropertyView) -> EventDraftView {
    if p.name == "UID"@ {
        EventDraftView { uid: p.value, ..d }
    } else if p.name == "DTSTART"@ {
        match p.value {
            Some(v) => EventDraftView { start: timestamp_of(v), ..d },
            None => d,
        }
    } else if p.name == "DTEND"@ {
        match p.value {
            Some(v) => EventDraftView { end: timestamp_of(v), ..d },
            None => d,
        }
    } else if p.name == "SUMMARY"@ {
        EventDraftView { summary: p.value, ..d }
    } else if p.name == "STATUS"@ {
        match p.value {
            Some(v) => if is_cancelled_status(v) {
                EventDraftView { cancelled: true, ..d }
            } else {
                d
            },
            None => d,
        }
    } else {
        d
    }
}

/// The draft after reading `props` in order, starting from nothing known.
pub open spec fn draft_after(props: Seq<IcsPropertyView>) -> EventDraftView
    decreases props.len(),
{
    if props.len() == 0 {
        EventDraftView { uid: None, start: None, end: None, summary: None, cancelled: false }
    } else {
        apply_property(draft_after(props.drop_last()), props.last())
    }
}

/// The event that a component's properties describe: present exactly when it has
/// a UID, a start and an end, and starts before it ends.
pub open spec fn event_of(props: Seq<IcsPropertyView>) -> Option<CalendarEventView> {
    let d = draft_after(props);
    if d.uid is Some && d.start is Some && d.end is Some && d.start->0 < d.end->0 {
        Some(
            CalendarEventView {
                uid: d.uid->0,
                start_date: d.start->0,
                end_date: d.end->0,
                summary: d.summary,
                is_cancelled: d.cancelled,
            },
        )
    } else {
        None
    }
}

/// The events described by a list of components, in order.
pub open spec fn events_of_components(comps: Seq<Seq<IcsPropertyView>>) -> Seq<CalendarEventView>
    decreases comps.len(),
{
    if comps.len() == 0 {
        Seq::empty()
    } else {
        let rest = events_of_components(comps.drop_last());
        match event_of(comps.last()) {
            Some(e) => rest.push(e),
            None => rest,
        }
    }
}

/// The events of all calendars of a feed, in order.
pub open spec fn events_of_calendars(cals: Seq<Seq<Seq<IcsPropertyView>>>) -> Seq<CalendarEventView>
    decreases cals.len(),
{
    if cals.len() == 0 {
        Seq::empty()
    } else {
        events_of_calendars(cals.drop_last()) + events_of_components(cals.last())
    }
}

fn copy_opt_text(o: &Option<String>) -> (r: Option<String>)
    ensures
        opt_text(r) == opt_text(*o),
{
    match o {
        Some(s) => Some(s.clone()),
        None => None,
    }
}

/// Reads the event that a component's properties describe; later properties of
/// the same name override earlier ones.
pub fn event_from_properties(props: &Vec<IcsProperty>) -> (r: Option<CalendarEvent>)
    ensures
        match r {
            Some(e) => event_of(props@.map_values(|p: IcsProperty| p@)) == Some(e@),
            None => event_of(props@.map_values(|p: IcsProperty| p@)) is None,
        },
{
    let ghost pv = props@.map_values(|p: IcsProperty| p@);
    let mut uid: Option<String> = None;
    let mut start: Option<i64> = None;
    let mut end: Option<i64> = None;
    let mut summary: Option<String> = None;
    let mut cancelled = false;
    let n = props.len();
    let mut i: usize = 0;
    assert(pv.take(0) =~= Seq::<IcsPropertyView>::empty());
    while i < n
        invariant
            n == props@.len(),
            pv == props@.map_values(|p: IcsProperty| p@),
            i <= n,
            draft_after(pv.take(i as int)) == (EventDraftView {
                uid: opt_text(uid),
                start,
                end,
                summary: opt_text(summary),
                cancelled,
            }),
        decreases n - i,
    {
        let p = &props[i];
        assert(pv.take(i + 1).drop_last() =~= pv.take(i as int));
        assert(pv.take(i + 1).last() == p@);
        let name = p.name.as_str();
        if same_text(name, "UID") {
            uid = copy_opt_text(&p.value);
        } else if same_text(name, "DTSTART") {
            match &p.value {
                Some(v) => {
                    start = parse_timestamp(v.as_str());
                },
                None => {},
            }
        } else if same_text(name, "DTEND") {
            match &p.value {
                Some(v) => {
                    end = parse_timestamp(v.as_str());
                },
                None => {},
            }
        } else if same_text(name, "SUMMARY") {
            summary = copy_opt_text(&p.value);
        } else if same_text(name, "STATUS") {
            match &p.value {
                Some(v) => {
                    if eq_ignore_ascii_case(trim_set(v.as_str(), TrimSet::Whitespace), "CANCELLED") {
                        cancelled = true;
                    }
                },
                None => {},
            }
        }
        i = i + 1;
    }
    assert(pv.take(n as int) =~= pv);
    match (uid, start, end) {
        (Some(u), Some(s), Some(e)) => {
            if s < e {
                Some(CalendarEvent { uid: u, start_date: s, end_date: e, summary, is_cancelled: cancelled })
            } else {
                None
            }
        },
        _ => None,
    }
}


/// Collects, in feed order, the events of every calendar that carry a UID and a
/// valid time span.
pub fn events_from_calendars(cals: &Vec<IcsCalendar>) -> (r: Vec<CalendarEvent>)
    ensures
        events_view(r@) == events_of_calendars(cals@.map_values(|c: IcsCalendar| c@)),
{
    let ghost cv = cals@.map_values(|c: IcsCalendar| c@);
    let mut out: Vec<CalendarEvent> = Vec::new();
    let n = cals.len();
    let mut ci: usize = 0;
    assert(cv.take(0) =~= Seq::<Seq<Seq<IcsPropertyView>>>::empty());
    assert(events_view(out@) =~= Seq::<CalendarEventView>::empty());
    while ci < n
        invariant
            n == cals@.len(),
            cv == cals@.map_values(|c: IcsCalendar| c@),
            ci <= n,
            events_view(out@) == events_of_calendars(cv.take(ci as int)),
        decreases n - ci,
    {
        let cal = &cals[ci];
        let ghost ev = cal@;
        let ghost before = events_view(out@);
        let m = cal.events.len();
        let mut ei: usize = 0;
        assert(ev.take(0) =~= Seq::<Seq<IcsPropertyView>>::empty());
        assert(before + events_of_components(ev.take(0)) =~= before);
        while ei < m
            invariant
                m == cal.events@.len(),
                ev == cal@,
                ev == cal.events@.map_values(|e: IcsEvent| e@),
                ei <= m,
                events_view(out@) == before + events_of_components(ev.take(ei as int)),
            decreases m - ei,
        {
            let found = event_from_properties(&cal.events[ei].properties);
            assert(ev.take(ei + 1).drop_last() =~= ev.take(ei as int));
            assert(ev.take(ei + 1).last() == cal.events@[ei as int]@);
            match found {
                Some(e) => {
                    let ghost old_out = out@;
                    out.push(e);
                    assert(events_view(out@) =~= events_view(old_out).push(e@));
                    assert(events_view(out@) =~= before + events_of_components(ev.take(ei + 1)));
                },
                None => {},
            }
            ei = ei + 1;
        }
        assert(ev.take(m as int) =~= ev);
        assert(cv.take(ci + 1).drop_last() =~= cv.take(ci as int));
        assert(cv.take(ci + 1).last() == ev);
        ci = ci + 1;
    }
    assert(cv.take(n as int) =~= cv);
    out
}

/// The events of an ICS feed, cancelled ones included, or the parser's error.
pub fn parse_ics(content: &str) -> (r: Result<Vec<CalendarEvent>, SyncError>)
    ensures
        match ical_calendars(content@) {
            Ok(cals) => r matches Ok(evs) && events_view(evs@) == events_of_calendars(cals),
            Err(msg) => r matches Err(SyncError::Ical(text)) && text@ == "Error parseando ICS: "@
                + msg,
        },
{
    match read_calendars(content) {
        Ok(cals) => Ok(events_from_calendars(&cals)),
        Err(msg) => {
            let mut text = String::from_str("Error parseando ICS: ");
            text.append(msg.as_str());
            Err(SyncError::Ical(text))
        },
    }
}


proof fn lemma_component_events_valid(comps: Seq<Seq<IcsPropertyView>>)
    ensures
        forall|i: int|
            0 <= i < events_of_components(comps).len() ==> (#[trigger] events_of_components(
                comps,
            )[i]).start_date < events_of_components(comps)[i].end_date,
    decreases comps.len(),
{
    if comps.len() > 0 {
        lemma_component_events_valid(comps.drop_last());
    }
}

/// Every event read from a feed has a UID and starts before it ends; events
/// without them are left out, cancelled or not.
pub proof fn lemma_feed_events_have_valid_span(cals: Seq<Seq<Seq<IcsPropertyView>>>)
    ensures
        forall|i: int|
            0 <= i < events_of_calendars(cals).len() ==> (#[trigger] events_of_calendars(
                cals,
            )[i]).start_date < events_of_calendars(cals)[i].end_date,
    decreases cals.len(),
{
    if cals.len() > 0 {
        lemma_feed_events_have_valid_span(cals.drop_last());
        lemma_component_events_valid(cals.last());
        let a = events_of_calendars(cals.drop_last());
        let b = events_of_components(cals.last());
        assert forall|i: int| 0 <= i < (a + b).len() implies (#[trigger] (a + b)[i]).start_date < (a
            + b)[i].end_date by {
            if i < a.len() {
                assert((a + b)[i] == a[i]);
            } else {
                assert((a + b)[i] == b[i - a.len()]);
            }
        }
    }
}


/// The value of the last property named `name` that carries a value.
pub open spec fn last_value_of(props: Seq<IcsPropertyView>, name: Seq<char>) -> Option<Seq<char>>
    decreases props.len(),
{
    if props.len() == 0 {
        None
    } else if props.last().name == name && props.last().value is Some {
        props.last().value
    } else {
        last_value_of(props.drop_last(), name)
    }
}

/// The last property named `name`, if there is one.
pub open spec fn last_named(props: Seq<IcsPropertyView>, name: Seq<char>) -> Option<IcsPropertyView>
    decreases props.len(),
{
    if props.len() == 0 {
        None
    } else if props.last().name == name {
        Some(props.last())
    } else {
        last_named(props.drop_last(), name)
    }
}

/// A `STATUS` property whose value cancels the event.
pub open spec fn cancels(p: IcsPropertyView) -> bool {
    &&& p.name == "STATUS"@
    &&& (p.value matches Some(v) && is_cancelled_status(v))
}

/// What each field of an event is, property by property: the start is the time
/// of the last `DTSTART` that has a value and the end that of the last `DTEND`
/// that has a value (each independently of the other and of where the other
/// stands); the UID and the summary are the values of the last `UID` and
/// `SUMMARY`; the event is cancelled when any `STATUS` cancels it.
pub proof fn lemma_draft_fields(props: Seq<IcsPropertyView>)
    ensures
        draft_after(props).start == (match last_value_of(props, "DTSTART"@) {
            Some(v) => timestamp_of(v),
            None => None,
        }),
        draft_after(props).end == (match last_value_of(props, "DTEND"@) {
            Some(v) => timestamp_of(v),
            None => None,
        }),
        draft_after(props).uid == (match last_named(props, "UID"@) {
            Some(p) => p.value,
            None => None,
        }),
        draft_after(props).summary == (match last_named(props, "SUMMARY"@) {
            Some(p) => p.value,
            None => None,
        }),
        draft_after(props).cancelled == (exists|i: int| 0 <= i < props.len() && cancels(#[trigger] props[i])),
    decreases props.len(),
{
    lemma_property_names_distinct();
    if props.len() > 0 {
        let rest = props.drop_last();
        lemma_draft_fields(rest);
        if exists|i: int| 0 <= i < rest.len() && cancels(#[trigger] rest[i]) {
            let i = choose|i: int| 0 <= i < rest.len() && cancels(#[trigger] rest[i]);
            assert(props[i] == rest[i]);
        }
        if exists|i: int| 0 <= i < props.len() && cancels(#[trigger] props[i]) {
            let i = choose|i: int| 0 <= i < props.len() && cancels(#[trigger] props[i]);
            if i < props.len() - 1 {
                assert(rest[i] == props[i]);
            }
        }
        if cancels(props.last()) {
            assert(cancels(props[props.len() - 1]));
        }
    }
}

/// A cancelling `STATUS` marks the event and drops nothing: the component
/// describes an event exactly when it did without that property, with the same
/// UID, times and summary, now marked cancelled.
pub proof fn lemma_cancel_keeps_event(props: Seq<IcsPropertyView>, p: IcsPropertyView)
    requires
        cancels(p),
    ensures
        event_of(props.push(p)) is Some <==> event_of(props) is Some,
        event_of(props.push(p)) matches Some(e) ==> {
            &&& e.is_cancelled
            &&& e.uid == event_of(props)->0.uid
            &&& e.start_date == event_of(props)->0.start_date
            &&& e.end_date == event_of(props)->0.end_date
            &&& e.summary == event_of(props)->0.summary
        },
{
    lemma_property_names_distinct();
    assert(props.push(p).drop_last() =~= props);
    assert(props.push(p).last() == p);
}

/// The five property names that an event reads are distinct texts.
proof fn lemma_property_names_distinct()
    ensures
        "UID"@ != "DTSTART"@,
        "UID"@ != "DTEND"@,
        "UID"@ != "SUMMARY"@,
        "UID"@ != "STATUS"@,
        "DTSTART"@ != "DTEND"@,
        "DTSTART"@ != "SUMMARY"@,
        "DTSTART"@ != "STATUS"@,
        "DTEND"@ != "SUMMARY"@,
        "DTEND"@ != "STATUS"@,
        "SUMMARY"@ != "STATUS"@,
{
    reveal_strlit("UID");
    reveal_strlit("DTSTART");
    reveal_strlit("DTEND");
    reveal_strlit("SUMMARY");
    reveal_strlit("STATUS");
    assert("UID"@[0] != "DTSTART"@[0]);
    assert("UID"@[0] != "DTEND"@[0]);
    assert("UID"@[0] != "SUMMARY"@[0]);
    assert("UID"@[1] != "STATUS"@[1]);
    assert("DTSTART"@[2] != "DTEND"@[2]);
    assert("DTSTART"@[0] != "SUMMARY"@[0]);
    assert("DTSTART"@[0] != "STATUS"@[0]);
    assert("DTEND"@[0] != "SUMMARY"@[0]);
    assert("DTEND"@[0] != "STATUS"@[0]);
    assert("SUMMARY"@[1] != "STATUS"@[1]);
}

proof fn lemma_apply_commutes(d: EventDraftView, a: IcsPropertyView, b: IcsPropertyView)
    requires
        a.name != b.name,
    ensures
        apply_property(apply_property(d, a), b) == apply_property(apply_property(d, b), a),
{
    lemma_property_names_distinct();
}

/// The order of two neighbouring properties of different names does not matter:
/// an event reads the same whether, say, `DTEND` comes before or after `DTSTART`.
pub proof fn lemma_property_order(
    pre: Seq<IcsPropertyView>,
    a: IcsPropertyView,
    b: IcsPropertyView,
    post: Seq<IcsPropertyView>,
)
    requires
        a.name != b.name,
    ensures
        draft_after(pre + seq![a, b] + post) == draft_after(pre + seq![b, a] + post),
        event_of(pre + seq![a, b] + post) == event_of(pre + seq![b, a] + post),
    decreases post.len(),
{
    let s1 = pre + seq![a, b] + post;
    let s2 = pre + seq![b, a] + post;
    if post.len() == 0 {
        assert(s1.drop_last() =~= pre.push(a));
        assert(s2.drop_last() =~= pre.push(b));
        assert(s1.last() == b);
        assert(s2.last() == a);
        assert(pre.push(a).drop_last() =~= pre);
        assert(pre.push(b).drop_last() =~= pre);
        assert(pre.push(a).last() == a);
        assert(pre.push(b).last() == b);
        lemma_apply_commutes(draft_after(pre), a, b);
        assert(draft_after(s1) == apply_property(draft_after(pre.push(a)), b));
        assert(draft_after(pre.push(a)) == apply_property(draft_after(pre), a));
        assert(draft_after(s1) == apply_property(apply_property(draft_after(pre), a), b));
        assert(draft_after(s2) == apply_property(draft_after(pre.push(b)), a));
        assert(draft_after(pre.push(b)) == apply_property(draft_after(pre), b));
        assert(draft_after(s2) == apply_property(apply_property(draft_after(pre), b), a));
    } else {
        lemma_property_order(pre, a, b, post.drop_last());
        assert(s1.drop_last() =~= pre + seq![a, b] + post.drop_last());
        assert(s2.drop_last() =~= pre + seq![b, a] + post.drop_last());
        assert(s1.last() == post.last());
        assert(s2.last() == post.last());
    }
}

} // verus!
