//! Reconciling a channel's feed with its stored reservations.
use vstd::prelude::*;
use vstd::string::*;
use crate::error::SyncError;
use crate::parser::{
    events_of_calendars, events_view, ical_calendars, opt_text, parse_ics, CalendarEvent,
    CalendarEventView,
};
use crate::text::{
    decimal_text, lemma_text_less_total, lemma_text_less_transitive, push_decimal, same_text,
    text_before, text_less,
};

verus! {

/// The outcome of synchronising one channel. Finding overlaps is the normal
/// work of a run and is counted here, not reported as an error.
#[derive(Debug)]
pub struct SyncReport {
    pub channel_name: String,
    pub events_synced: usize,
    pub cancelled_removed: usize,
    pub conflicts_found: usize,
}

pub struct SyncReportView {
    pub channel_name: Seq<char>,
    pub events_synced: usize,
    pub cancelled_removed: usize,
    pub conflicts_found: usize,
}

impl View for SyncReport {
    type V = SyncReportView;

    open spec fn view(&self) -> SyncReportView {
        SyncReportView {
            channel_name: self.channel_name@,
            events_synced: self.events_synced,
            cancelled_removed: self.cancelled_removed,
            conflicts_found: self.conflicts_found,
        }
    }
}

impl SyncReport {
    /// A copy of the report.
    pub fn duplicate(&self) -> (r: SyncReport)
        ensures
            r@ == self@,
    {
        SyncReport {
            channel_name: self.channel_name.clone(),
            events_synced: self.events_synced,
            cancelled_removed: self.cancelled_removed,
            conflicts_found: self.conflicts_found,
        }
    }
}

pub open spec fn texts_view(s: Seq<String>) -> Seq<Seq<char>> {
    s.map_values(|t: String| t@)
}

/// The events that are not cancelled, in feed order.
pub open spec fn active_events(s: Seq<CalendarEventView>) -> Seq<CalendarEventView>
    decreases s.len(),
{
    if s.len() == 0 {
        Seq::empty()
    } else if s.last().is_cancelled {
        active_events(s.drop_last())
    } else {
        active_events(s.drop_last()).push(s.last())
    }
}

/// The UIDs of the cancelled events, in feed order.
pub open spec fn cancelled_uids(s: Seq<CalendarEventView>) -> Seq<Seq<char>>
    decreases s.len(),
{
    if s.len() == 0 {
        Seq::empty()
    } else if s.last().is_cancelled {
        cancelled_uids(s.drop_last()).push(s.last().uid)
    } else {
        cancelled_uids(s.drop_last())
    }
}

pub open spec fn uids_of(s: Seq<CalendarEventView>) -> Seq<Seq<char>> {
    s.map_values(|e: CalendarEventView| e.uid)
}

/// A stored reservation must go when its event was cancelled explicitly, or when
/// it is stored for the channel but the feed no longer lists it as active.
pub open spec fn should_remove(
    cancelled: Seq<Seq<char>>,
    active: Seq<CalendarEventView>,
    stored: Seq<Seq<char>>,
    uid: Seq<char>,
) -> bool {
    cancelled.contains(uid) || (stored.contains(uid) && !uids_of(active).contains(uid))
}

/// Reconciliation: an explicitly cancelled UID goes; a stored UID that the feed
/// no longer lists as active goes; a UID that an active event still carries
/// stays unless the feed also cancels it explicitly.
pub proof fn lemma_reconciliation(
    cancelled: Seq<Seq<char>>,
    active: Seq<CalendarEventView>,
    stored: Seq<Seq<char>>,
    uid: Seq<char>,
)
    ensures
        cancelled.contains(uid) ==> should_remove(cancelled, active, stored, uid),
        stored.contains(uid) && !uids_of(active).contains(uid) ==> should_remove(
            cancelled,
            active,
            stored,
            uid,
        ),
        uids_of(active).contains(uid) && !cancelled.contains(uid) ==> !should_remove(
            cancelled,
            active,
            stored,
            uid,
        ),
        !cancelled.contains(uid) && !stored.contains(uid) ==> !should_remove(
            cancelled,
            active,
            stored,
            uid,
        ),
{
}

/// Sorted in the code-point order of texts, with no text twice.
pub open spec fn strictly_ascending(s: Seq<Seq<char>>) -> bool {
    forall|i: int, j: int| 0 <= i < j < s.len() ==> text_less(#[trigger] s[i], #[trigger] s[j])
}

fn copy_event(e: &CalendarEvent) -> (r: CalendarEvent)
    ensures
        r@ == e@,
{
    CalendarEvent {
        uid: e.uid.clone(),
        start_date: e.start_date,
        end_date: e.end_date,
        summary: match &e.summary {
            Some(s) => Some(s.clone()),
            None => None,
        },
        is_cancelled: e.is_cancelled,
    }
}

/// Separates the events that stay active from the UIDs of the cancelled ones.
pub fn split_events(events: &Vec<CalendarEvent>) -> (r: (Vec<CalendarEvent>, Vec<String>))
    ensures
        events_view(r.0@) == active_events(events_view(events@)),
        texts_view(r.1@) == cancelled_uids(events_view(events@)),
{
    let ghost ev = events_view(events@);
    let mut active: Vec<CalendarEvent> = Vec::new();
    let mut cancelled: Vec<String> = Vec::new();
    let n = events.len();
    let mut i: usize = 0;
    assert(ev.take(0) =~= Seq::<CalendarEventView>::empty());
    assert(events_view(active@) =~= Seq::<CalendarEventView>::empty());
    assert(texts_view(cancelled@) =~= Seq::<Seq<char>>::empty());
    while i < n
        invariant
            n == events@.len(),
            ev == events_view(events@),
            i <= n,
            events_view(active@) == active_events(ev.take(i as int)),
            texts_view(cancelled@) == cancelled_uids(ev.take(i as int)),
        decreases n - i,
    {
        let e = &events[i];
        assert(ev.take(i + 1).drop_last() =~= ev.take(i as int));
        assert(ev.take(i + 1).last() == e@);
        if e.is_cancelled {
            let ghost old_c = cancelled@;
            cancelled.push(e.uid.clone());
            assert(texts_view(cancelled@) =~= texts_view(old_c).push(e.uid@));
        } else {
            let ghost old_a = active@;
            active.push(copy_event(e));
            assert(events_view(active@) =~= events_view(old_a).push(e@));
        }
        i = i + 1;
    }
    assert(ev.take(n as int) =~= ev);
    (active, cancelled)
}

/// Whether an active event carries the given UID.
pub fn has_active_uid(active: &Vec<CalendarEvent>, uid: &str) -> (r: bool)
    ensures
        r == uids_of(events_view(active@)).contains(uid@),
{
    let ghost us = uids_of(events_view(active@));
    let n = active.len();
    let mut i: usize = 0;
    while i < n
        invariant
            n == active@.len(),
            us == uids_of(events_view(active@)),
            i <= n,
            forall|k: int| 0 <= k < i ==> us[k] != uid@,
        decreases n - i,
    {
        if same_text(active[i].uid.as_str(), uid) {
            assert(us[i as int] == uid@);
            return true;
        }
        i = i + 1;
    }
    false
}

/// Inserting `x` at its place keeps a strictly ascending sequence so.
proof fn lemma_insert_ascending(s: Seq<Seq<char>>, p: int, x: Seq<char>)
    requires
        strictly_ascending(s),
        0 <= p <= s.len(),
        forall|k: int| 0 <= k < p ==> text_less(#[trigger] s[k], x),
        p < s.len() ==> text_less(x, s[p]),
    ensures
        strictly_ascending(s.insert(p, x)),
{
    let t = s.insert(p, x);
    assert forall|i: int, j: int| 0 <= i < j < t.len() implies text_less(
        #[trigger] t[i],
        #[trigger] t[j],
    ) by {
        if j < p {
            assert(t[i] == s[i] && t[j] == s[j]);
        } else if j == p {
            assert(t[i] == s[i]);
        } else if i < p {
            assert(t[i] == s[i] && t[j] == s[j - 1]);
        } else if i == p {
            assert(t[j] == s[j - 1]);
            if j - 1 > p {
                lemma_text_less_transitive(x, s[p], s[j - 1]);
            }
        } else {
            assert(t[i] == s[i - 1] && t[j] == s[j - 1]);
        }
    }
}

/// Adds `x` to a strictly ascending list of texts, at its place, unless it is
/// already there.
pub fn insert_sorted(v: &mut Vec<String>, x: String)
    requires
        strictly_ascending(texts_view(old(v)@)),
    ensures
        strictly_ascending(texts_view(final(v)@)),
        forall|u: Seq<char>|
            texts_view(final(v)@).contains(u) <==> (texts_view(old(v)@).contains(u) || u == x@),
{
    let ghost xv = x@;
    let ghost old_t = texts_view(v@);
    let n = v.len();
    let mut p: usize = 0;
    while p < n
        invariant
            n == v@.len(),
            old_t == texts_view(v@),
            xv == x@,
            p <= n,
            forall|k: int| 0 <= k < p ==> text_less(#[trigger] old_t[k], xv),
        ensures
            p <= n,
            forall|k: int| 0 <= k < p ==> text_less(#[trigger] old_t[k], xv),
            p < n ==> !text_less(old_t[p as int], xv),
        decreases n - p,
    {
        let before = text_before(v[p].as_str(), x.as_str());
        assert(old_t[p as int] == v@[p as int]@);
        if !before {
            break;
        }
        p = p + 1;
    }
    if p < n && same_text(v[p].as_str(), x.as_str()) {
        assert(old_t[p as int] == v@[p as int]@);
        assert(old_t[p as int] == xv);
        assert(old_t.contains(xv));
        return;
    }
    proof {
        if p < n {
            assert(old_t[p as int] == v@[p as int]@);
            lemma_text_less_total(old_t[p as int], xv);
        }
        lemma_insert_ascending(old_t, p as int, xv);
    }
    v.insert(p, x);
    assert(texts_view(v@) =~= old_t.insert(p as int, xv));
    assert forall|u: Seq<char>|
        texts_view(v@).contains(u) <==> (old_t.contains(u) || u == xv) by {
        let t = texts_view(v@);
        if t.contains(u) {
            let k = choose|k: int| 0 <= k < t.len() && t[k] == u;
            if k < p {
                assert(old_t[k] == u);
            } else if k > p {
                assert(old_t[k - 1] == u);
            }
        }
        if old_t.contains(u) {
            let k = choose|k: int| 0 <= k < old_t.len() && old_t[k] == u;
            if k < p {
                assert(t[k] == u);
            } else {
                assert(t[k + 1] == u);
            }
        }
        if u == xv {
            assert(t[p as int] == u);
        }
    }
    assert(forall|u: Seq<char>|
        texts_view(v@).contains(u) <==> (texts_view(old(v)@).contains(u) || u == x@));
    assert(strictly_ascending(texts_view(v@)));
}


/// The UIDs whose reservations go: every explicitly cancelled UID, and every
/// stored UID that no active event of the feed carries; sorted, each once.
#[verifier::spinoff_prover]
pub fn uids_to_remove(cancelled: &Vec<String>, active: &Vec<CalendarEvent>, stored: &Vec<String>) -> (r:
    Vec<String>)
    ensures
        strictly_ascending(texts_view(r@)),
        forall|u: Seq<char>|
            texts_view(r@).contains(u) <==> should_remove(
                texts_view(cancelled@),
                events_view(active@),
                texts_view(stored@),
                u,
            ),
{
    let ghost cv = texts_view(cancelled@);
    let ghost sv = texts_view(stored@);
    let ghost av = events_view(active@);
    let mut out: Vec<String> = Vec::new();
    assert(texts_view(out@) =~= Seq::<Seq<char>>::empty());
    let n = cancelled.len();
    let mut i: usize = 0;
    while i < n
        invariant
            n == cancelled@.len(),
            cv == texts_view(cancelled@),
            i <= n,
            strictly_ascending(texts_view(out@)),
            forall|u: Seq<char>| texts_view(out@).contains(u) <==> cv.take(i as int).contains(u),
        decreases n - i,
    {
        let ghost before = texts_view(out@);
        insert_sorted(&mut out, cancelled[i].clone());
        let ghost t0 = cv.take(i as int);
        let ghost t1 = cv.take(i + 1);
        assert(t1 =~= t0.push(cv[i as int]));
        assert forall|u: Seq<char>| texts_view(out@).contains(u) <==> t1.contains(u) by {
            if t0.contains(u) {
                let k = choose|k: int| 0 <= k < t0.len() && t0[k] == u;
                assert(t1[k] == u);
            }
            if u == cv[i as int] {
                assert(t1[i as int] == u);
            }
        }
        i = i + 1;
    }
    assert(cv.take(n as int) =~= cv);
    let m = stored.len();
    let mut j: usize = 0;
    while j < m
        invariant
            m == stored@.len(),
            sv == texts_view(stored@),
            cv == texts_view(cancelled@),
            av == events_view(active@),
            j <= m,
            strictly_ascending(texts_view(out@)),
            forall|u: Seq<char>|
                texts_view(out@).contains(u) <==> (cv.contains(u) || (sv.take(j as int).contains(u)
                    && !uids_of(av).contains(u))),
        decreases m - j,
    {
        let ghost before = texts_view(out@);
        let keep = has_active_uid(active, stored[j].as_str());
        assert(sv[j as int] == stored@[j as int]@);
        if !keep {
            insert_sorted(&mut out, stored[j].clone());
        }
        let ghost t0 = sv.take(j as int);
        let ghost t1 = sv.take(j + 1);
        assert(t1 =~= t0.push(sv[j as int]));
        assert forall|u: Seq<char>|
            texts_view(out@).contains(u) <==> (cv.contains(u) || (t1.contains(u) && !uids_of(
                av,
            ).contains(u))) by {
            if t0.contains(u) {
                let k = choose|k: int| 0 <= k < t0.len() && t0[k] == u;
                assert(t1[k] == u);
            }
            if u == sv[j as int] {
                assert(t1[j as int] == u);
            }
            if t1.contains(u) {
                let k = choose|k: int| 0 <= k < t1.len() && t1[k] == u;
                if k < j {
                    assert(t0[k] == u);
                } else {
                    assert(u == sv[j as int]);
                }
            }
        }
        j = j + 1;
    }
    assert(sv.take(m as int) =~= sv);
    assert(forall|u: Seq<char>|
        texts_view(out@).contains(u) <==> should_remove(cv, av, sv, u));
    out
}


/// The text logged for an event that overlaps stored reservations of other
/// channels.
pub open spec fn conflict_text(uid: Seq<char>, channel_name: Seq<char>, overlaps: nat) -> Seq<
    char,
> {
    "Conflicto: "@ + uid + " en "@ + channel_name + " -> Overlap con "@ + decimal_text(overlaps)
        + " reserva(s)"@
}

/// Describes a conflict: which event of which channel overlaps how many stored
/// reservations.
pub fn conflict_details(uid: &str, channel_name: &str, overlaps: usize) -> (r: String)
    ensures
        r@ == conflict_text(uid@, channel_name@, overlaps as nat),
{
    let mut r = String::from_str("Conflicto: ");
    r.append(uid);
    r.append(" en ");
    r.append(channel_name);
    r.append(" -> Overlap con ");
    push_decimal(&mut r, overlaps);
    r.append(" reserva(s)");
    r
}

/// How many of the counts are positive.
pub open spec fn count_positive(s: Seq<usize>) -> nat
    decreases s.len(),
{
    if s.len() == 0 {
        0
    } else {
        count_positive(s.drop_last()) + if s.last() > 0 {
            1nat
        } else {
            0nat
        }
    }
}

proof fn lemma_count_positive_bound(s: Seq<usize>)
    ensures
        count_positive(s) <= s.len(),
    decreases s.len(),
{
    if s.len() > 0 {
        lemma_count_positive_bound(s.drop_last());
    }
}

/// Where a channel's synchronisation stands: what it waits for next.
#[derive(Clone, Copy, PartialEq, Eq, Structural, Debug)]
pub enum SyncStage {
    /// Waits for the channel's id in the store.
    Channel,
    /// Waits for the text of the channel's feed.
    Feed,
    /// Waits for the UIDs stored as active for the channel.
    StoredUids,
    /// Waits for the number of reservations removed.
    Removal,
    /// Waits for how many stored reservations overlap the current event.
    Overlaps,
    /// Waits until the current event's conflict is logged.
    ConflictLog,
    /// Waits until the current event is stored.
    Insert,
    /// Waits until the channel's synchronisation time is recorded.
    SyncTime,
    /// Done: the report was handed out.
    Finished,
    /// Stopped on an error.
    Failed,
}

/// The work that the caller performs next, and whose outcome it hands back.
pub enum SyncAction {
    GetOrCreateChannel { name: String, url: String },
    FetchFeed { url: String },
    LoadStoredUids { channel_id: i64 },
    DeleteUids { channel_id: i64, uids: Vec<String> },
    CheckOverlaps { start: i64, end: i64, exclude_channel: i64 },
    LogConflict { details: String },
    InsertReservation { channel_id: i64, event: CalendarEvent },
    UpdateSyncTime { channel_id: i64 },
    Finish(SyncReport),
    Fail(SyncError),
}

/// The decisions of one channel's synchronisation: the caller performs each
/// action (store, network) and hands the outcome to the matching `on_*` method.
pub struct ChannelSync {
    channel_name: String,
    url: String,
    channel_id: i64,
    active: Vec<CalendarEvent>,
    cancelled: Vec<String>,
    next: usize,
    report: SyncReport,
    stage: SyncStage,
    overlaps: Ghost<Seq<usize>>,
}

impl ChannelSync {
    pub closed spec fn stage(&self) -> SyncStage {
        self.stage
    }

    pub closed spec fn channel_name(&self) -> Seq<char> {
        self.channel_name@
    }

    pub closed spec fn url(&self) -> Seq<char> {
        self.url@
    }

    pub closed spec fn channel_id(&self) -> i64 {
        self.channel_id
    }

    /// The feed's events that are not cancelled, in feed order.
    pub closed spec fn active(&self) -> Seq<CalendarEventView> {
        events_view(self.active@)
    }

    /// The UIDs of the feed's cancelled events.
    pub closed spec fn cancelled(&self) -> Seq<Seq<char>> {
        texts_view(self.cancelled@)
    }

    /// The index of the active event being processed.
    pub closed spec fn next(&self) -> nat {
        self.next as nat
    }

    pub closed spec fn report(&self) -> SyncReportView {
        self.report@
    }

    /// How many stored reservations overlapped each active event checked so far.
    pub closed spec fn overlap_counts(&self) -> Seq<usize> {
        self.overlaps@
    }

    /// The state is consistent: the report counts what the stages did.
    pub closed spec fn wf(&self) -> bool {
        let n = self.active@.len();
        let k = self.overlaps@.len();
        &&& self.report.channel_name@ == self.channel_name@
        &&& self.next <= n
        &&& self.report.events_synced == self.next
        &&& self.report.conflicts_found == count_positive(self.overlaps@)
        &&& match self.stage {
            SyncStage::Channel | SyncStage::Feed | SyncStage::StoredUids | SyncStage::Removal => {
                &&& self.next == 0
                &&& k == 0
            },
            SyncStage::Overlaps => self.next < n && k == self.next,
            SyncStage::ConflictLog => self.next < n && k == self.next + 1
                && self.overlaps@.last() > 0,
            SyncStage::Insert => self.next < n && k == self.next + 1,
            SyncStage::SyncTime | SyncStage::Finished => self.next == n && k == n,
            SyncStage::Failed => true,
        }
    }

    /// The stage the synchronisation is in.
    pub fn current_stage(&self) -> (r: SyncStage)
        ensures
            r == self.stage(),
    {
        self.stage
    }

    /// After the removals (or when nothing was to be removed): either the
    /// overlap check of the next active event, or recording the sync time.
    pub open spec fn advanced(&self, a: SyncAction) -> bool {
        if self.next() < self.active().len() {
            &&& self.stage() == SyncStage::Overlaps
            &&& a matches SyncAction::CheckOverlaps { start, end, exclude_channel }
            &&& start == self.active()[self.next() as int].start_date
            &&& end == self.active()[self.next() as int].end_date
            &&& exclude_channel == self.channel_id()
        } else {
            &&& self.stage() == SyncStage::SyncTime
            &&& a matches SyncAction::UpdateSyncTime { channel_id }
            &&& channel_id == self.channel_id()
        }
    }

    fn advance(&mut self) -> (a: SyncAction)
        requires
            old(self).next <= old(self).active@.len(),
            old(self).next < old(self).active@.len() ==> old(self).overlaps@.len()
                == old(self).next,
            old(self).next == old(self).active@.len() ==> old(self).overlaps@.len()
                == old(self).next,
            old(self).report.channel_name@ == old(self).channel_name@,
            old(self).report.events_synced == old(self).next,
            old(self).report.conflicts_found == count_positive(old(self).overlaps@),
        ensures
            final(self).wf(),
            final(self).advanced(a),
            final(self).channel_name == old(self).channel_name,
            final(self).url == old(self).url,
            final(self).channel_id == old(self).channel_id,
            final(self).active == old(self).active,
            final(self).cancelled == old(self).cancelled,
            final(self).next == old(self).next,
            final(self).report == old(self).report,
            final(self).overlaps == old(self).overlaps,
    {
        if self.next < self.active.len() {
            self.stage = SyncStage::Overlaps;
            let e = &self.active[self.next];
            SyncAction::CheckOverlaps {
                start: e.start_date,
                end: e.end_date,
                exclude_channel: self.channel_id,
            }
        } else {
            self.stage = SyncStage::SyncTime;
            SyncAction::UpdateSyncTime { channel_id: self.channel_id }
        }
    }

    /// Both states belong to the same run: same channel, same feed events.
    pub open spec fn same_run(&self, other: &ChannelSync) -> bool {
        &&& self.channel_name() == other.channel_name()
        &&& self.url() == other.url()
        &&& self.active() == other.active()
        &&& self.cancelled() == other.cancelled()
    }

    /// The store gave the channel's id: the feed is fetched next.
    pub fn on_channel(&mut self, channel_id: i64) -> (a: SyncAction)
        requires
            old(self).wf(),
            old(self).stage() == SyncStage::Channel,
        ensures
            final(self).wf(),
            final(self).same_run(old(self)),
            final(self).stage() == SyncStage::Feed,
            final(self).channel_id() == channel_id,
            final(self).next() == old(self).next(),
            final(self).report() == old(self).report(),
            final(self).overlap_counts() == old(self).overlap_counts(),
            a matches SyncAction::FetchFeed { url } && url@ == old(self).url(),
    {
        self.channel_id = channel_id;
        self.stage = SyncStage::Feed;
        SyncAction::FetchFeed { url: self.url.clone() }
    }

    /// The feed's text arrived: its events are read; cancelled ones are set
    /// apart, and the UIDs stored for the channel are loaded next. A feed that
    /// cannot be read ends the run with the parser's error.
    pub fn on_feed(&mut self, content: &str) -> (a: SyncAction)
        requires
            old(self).wf(),
            old(self).stage() == SyncStage::Feed,
        ensures
            final(self).wf(),
            final(self).channel_name() == old(self).channel_name(),
            final(self).url() == old(self).url(),
            final(self).channel_id() == old(self).channel_id(),
            final(self).next() == old(self).next(),
            final(self).report() == old(self).report(),
            final(self).overlap_counts() == old(self).overlap_counts(),
            match ical_calendars(content@) {
                Ok(cals) => {
                    &&& final(self).stage() == SyncStage::StoredUids
                    &&& final(self).active() == active_events(events_of_calendars(cals))
                    &&& final(self).cancelled() == cancelled_uids(events_of_calendars(cals))
                    &&& a matches SyncAction::LoadStoredUids { channel_id }
                    &&& channel_id == old(self).channel_id()
                },
                Err(msg) => {
                    &&& final(self).stage() == SyncStage::Failed
                    &&& a matches SyncAction::Fail(SyncError::Ical(t))
                    &&& t@ == "Error parseando ICS: "@ + msg
                },
            },
    {
        match parse_ics(content) {
            Ok(events) => {
                let (active, cancelled) = split_events(&events);
                self.active = active;
                self.cancelled = cancelled;
                self.stage = SyncStage::StoredUids;
                SyncAction::LoadStoredUids { channel_id: self.channel_id }
            },
            Err(e) => {
                self.stage = SyncStage::Failed;
                SyncAction::Fail(e)
            },
        }
    }

    /// The UIDs stored as active for the channel arrived: the reservations that
    /// must go are deleted next, or, when there are none, the events are
    /// processed.
    pub fn on_stored_uids(&mut self, stored: Vec<String>) -> (a: SyncAction)
        requires
            old(self).wf(),
            old(self).stage() == SyncStage::StoredUids,
        ensures
            final(self).wf(),
            final(self).same_run(old(self)),
            final(self).channel_id() == old(self).channel_id(),
            final(self).next() == old(self).next(),
            final(self).report() == old(self).report(),
            final(self).overlap_counts() == old(self).overlap_counts(),
            ({
                &&& final(self).stage() == SyncStage::Removal
                &&& a matches SyncAction::DeleteUids { channel_id, uids }
                &&& channel_id == old(self).channel_id()
                &&& uids@.len() > 0
                &&& strictly_ascending(texts_view(uids@))
                &&& forall|u: Seq<char>|
                    texts_view(uids@).contains(u) <==> should_remove(
                        old(self).cancelled(),
                        old(self).active(),
                        texts_view(stored@),
                        u,
                    )
            }) || ({
                &&& final(self).advanced(a)
                &&& forall|u: Seq<char>|
                    !should_remove(old(self).cancelled(), old(self).active(), texts_view(stored@), u)
            }),
    {
        let uids = uids_to_remove(&self.cancelled, &self.active, &stored);
        if uids.len() > 0 {
            self.stage = SyncStage::Removal;
            SyncAction::DeleteUids { channel_id: self.channel_id, uids }
        } else {
            assert forall|u: Seq<char>|
                !should_remove(self.cancelled(), self.active(), texts_view(stored@), u) by {
                if should_remove(self.cancelled(), self.active(), texts_view(stored@), u) {
                    assert(texts_view(uids@).contains(u));
                }
            }
            self.advance()
        }
    }

    /// The store removed `removed` reservations; the events are processed next.
    pub fn on_removed(&mut self, removed: u64) -> (a: SyncAction)
        requires
            old(self).wf(),
            old(self).stage() == SyncStage::Removal,
        ensures
            final(self).wf(),
            final(self).same_run(old(self)),
            final(self).channel_id() == old(self).channel_id(),
            final(self).next() == old(self).next(),
            final(self).report() == (SyncReportView {
                cancelled_removed: removed as usize,
                ..old(self).report()
            }),
            final(self).overlap_counts() == old(self).overlap_counts(),
            final(self).advanced(a),
    {
        self.report.cancelled_removed = removed as usize;
        self.advance()
    }

    /// The store found `found` reservations of other channels that overlap the
    /// current event. An overlap is a conflict to count and log, not an error;
    /// either way the event is stored.
    pub fn on_overlaps(&mut self, found: usize) -> (a: SyncAction)
        requires
            old(self).wf(),
            old(self).stage() == SyncStage::Overlaps,
        ensures
            final(self).wf(),
            final(self).same_run(old(self)),
            final(self).channel_id() == old(self).channel_id(),
            final(self).next() == old(self).next(),
            final(self).overlap_counts() == old(self).overlap_counts().push(found),
            found > 0 ==> {
                &&& final(self).stage() == SyncStage::ConflictLog
                &&& final(self).report() == (SyncReportView {
                    conflicts_found: (old(self).report().conflicts_found + 1) as usize,
                    ..old(self).report()
                })
                &&& a matches SyncAction::LogConflict { details }
                &&& details@ == conflict_text(
                    old(self).active()[old(self).next() as int].uid,
                    old(self).channel_name(),
                    found as nat,
                )
            },
            found == 0 ==> {
                &&& final(self).stage() == SyncStage::Insert
                &&& final(self).report() == old(self).report()
                &&& a matches SyncAction::InsertReservation { channel_id, event }
                &&& channel_id == old(self).channel_id()
                &&& event@ == old(self).active()[old(self).next() as int]
            },
    {
        proof {
            lemma_count_positive_bound(self.overlaps@);
        }
        let n = self.active.len();
        let ghost before = self.overlaps@;
        self.overlaps = Ghost(self.overlaps@.push(found));
        assert(self.overlaps@.drop_last() =~= before);
        if found > 0 {
            self.report.conflicts_found = self.report.conflicts_found + 1;
            self.stage = SyncStage::ConflictLog;
            let details = conflict_details(
                self.active[self.next].uid.as_str(),
                self.channel_name.as_str(),
                found,
            );
            SyncAction::LogConflict { details }
        } else {
            self.stage = SyncStage::Insert;
            SyncAction::InsertReservation {
                channel_id: self.channel_id,
                event: copy_event(&self.active[self.next]),
            }
        }
    }

    /// The conflict was logged; the event is stored next.
    pub fn on_conflict_logged(&mut self) -> (a: SyncAction)
        requires
            old(self).wf(),
            old(self).stage() == SyncStage::ConflictLog,
        ensures
            final(self).wf(),
            final(self).same_run(old(self)),
            final(self).channel_id() == old(self).channel_id(),
            final(self).next() == old(self).next(),
            final(self).report() == old(self).report(),
            final(self).overlap_counts() == old(self).overlap_counts(),
            final(self).stage() == SyncStage::Insert,
            a matches SyncAction::InsertReservation { channel_id, event },
            a matches SyncAction::InsertReservation { channel_id, event } ==> channel_id
                == old(self).channel_id() && event@ == old(self).active()[old(self).next() as int],
    {
        self.stage = SyncStage::Insert;
        SyncAction::InsertReservation {
            channel_id: self.channel_id,
            event: copy_event(&self.active[self.next]),
        }
    }

    /// The event was stored: it counts as synchronised, and the next event (or
    /// the recording of the sync time) follows.
    pub fn on_inserted(&mut self) -> (a: SyncAction)
        requires
            old(self).wf(),
            old(self).stage() == SyncStage::Insert,
        ensures
            final(self).wf(),
            final(self).same_run(old(self)),
            final(self).channel_id() == old(self).channel_id(),
            final(self).next() == old(self).next() + 1,
            final(self).report() == (SyncReportView {
                events_synced: (old(self).report().events_synced + 1) as usize,
                ..old(self).report()
            }),
            final(self).overlap_counts() == old(self).overlap_counts(),
            final(self).advanced(a),
    {
        let n = self.active.len();
        assert(self.next < n);
        self.next = self.next + 1;
        self.report.events_synced = self.report.events_synced + 1;
        self.advance()
    }

    /// The sync time was recorded: the run ends with its report.
    pub fn on_sync_time_updated(&mut self) -> (a: SyncAction)
        requires
            old(self).wf(),
            old(self).stage() == SyncStage::SyncTime,
        ensures
            final(self).wf(),
            final(self).same_run(old(self)),
            final(self).channel_id() == old(self).channel_id(),
            final(self).next() == old(self).next(),
            final(self).report() == old(self).report(),
            final(self).overlap_counts() == old(self).overlap_counts(),
            final(self).stage() == SyncStage::Finished,
            a matches SyncAction::Finish(report),
            a matches SyncAction::Finish(report) ==> report@ == old(self).report(),
    {
        self.stage = SyncStage::Finished;
        SyncAction::Finish(self.report.duplicate())
    }

    /// Begins the synchronisation of a channel: its id is looked up (or created)
    /// first.
    pub fn start(channel_name: String, url: String) -> (r: (ChannelSync, SyncAction))
        ensures
            r.0.wf(),
            r.0.stage() == SyncStage::Channel,
            r.0.channel_name() == channel_name@,
            r.0.url() == url@,
            r.0.next() == 0,
            r.0.active().len() == 0,
            r.0.cancelled().len() == 0,
            r.0.overlap_counts().len() == 0,
            r.0.report() == (SyncReportView {
                channel_name: channel_name@,
                events_synced: 0,
                cancelled_removed: 0,
                conflicts_found: 0,
            }),
            r.1 matches SyncAction::GetOrCreateChannel { name: n, url: u } && n@ == channel_name@
                && u@ == url@,
    {
        let report = SyncReport {
            channel_name: channel_name.clone(),
            events_synced: 0,
            cancelled_removed: 0,
            conflicts_found: 0,
        };
        let action = SyncAction::GetOrCreateChannel { name: channel_name.clone(), url: url.clone() };
        (
            ChannelSync {
                channel_name,
                url,
                channel_id: 0,
                active: Vec::new(),
                cancelled: Vec::new(),
                next: 0,
                report,
                stage: SyncStage::Channel,
                overlaps: Ghost(Seq::empty()),
            },
            action,
        )
    }
}


/// At the end of a run, every active event of the feed counts as synchronised,
/// and the conflicts counted are exactly the events whose overlap check found
/// stored reservations; so there are never more conflicts than events.
pub proof fn lemma_finished_report(s: &ChannelSync)
    requires
        s.wf(),
        s.stage() == SyncStage::Finished,
    ensures
        s.report().events_synced == s.active().len(),
        s.overlap_counts().len() == s.active().len(),
        s.report().conflicts_found == count_positive(s.overlap_counts()),
        s.report().conflicts_found <= s.report().events_synced,
{
    lemma_count_positive_bound(s.overlaps@);
}

/// Two strictly ascending lists of texts with the same texts are the same list:
/// the removal list is fixed by the texts it holds.
pub proof fn lemma_ascending_unique(a: Seq<Seq<char>>, b: Seq<Seq<char>>)
    requires
        strictly_ascending(a),
        strictly_ascending(b),
        forall|u: Seq<char>| a.contains(u) <==> b.contains(u),
    ensures
        a == b,
    decreases a.len(),
{
    if a.len() == 0 {
        if b.len() > 0 {
            assert(b.contains(b[0]));
        }
        assert(a =~= b);
    } else if b.len() == 0 {
        assert(a.contains(a[0]));
    } else {
        let x = a.last();
        let y = b.last();
        assert(a.contains(x));
        assert(b.contains(y));
        let i = choose|i: int| 0 <= i < b.len() && b[i] == x;
        let j = choose|j: int| 0 <= j < a.len() && a[j] == y;
        if x != y {
            if i < b.len() - 1 {
                assert(text_less(b[i], y));
            }
            if j < a.len() - 1 {
                assert(text_less(a[j], x));
            }
            crate::text::lemma_text_less_irreflexive(x);
            if i < b.len() - 1 && j < a.len() - 1 {
                lemma_text_less_transitive(x, y, x);
            }
        }
        let a2 = a.drop_last();
        let b2 = b.drop_last();
        assert forall|u: Seq<char>| a2.contains(u) <==> b2.contains(u) by {
            if a2.contains(u) {
                let k = choose|k: int| 0 <= k < a2.len() && a2[k] == u;
                assert(text_less(a[k], x));
                crate::text::lemma_text_less_irreflexive(u);
                assert(b.contains(u));
                let m = choose|m: int| 0 <= m < b.len() && b[m] == u;
                if m == b.len() - 1 {
                    assert(u == y);
                }
                assert(b2[m] == u);
            }
            if b2.contains(u) {
                let k = choose|k: int| 0 <= k < b2.len() && b2[k] == u;
                assert(text_less(b[k], y));
                crate::text::lemma_text_less_irreflexive(u);
                assert(a.contains(u));
                let m = choose|m: int| 0 <= m < a.len() && a[m] == u;
                if m == a.len() - 1 {
                    assert(u == x);
                }
                assert(a2[m] == u);
            }
        }
        lemma_ascending_unique(a2, b2);
        assert(a =~= a2.push(x));
        assert(b =~= b2.push(y));
    }
}

pub open spec fn ok_reports(outcomes: Seq<Result<SyncReport, SyncError>>) -> Seq<SyncReportView>
    decreases outcomes.len(),
{
    if outcomes.len() == 0 {
        Seq::empty()
    } else {
        let rest = ok_reports(outcomes.drop_last());
        match outcomes.last() {
            Ok(r) => rest.push(r@),
            Err(_) => rest,
        }
    }
}

/// The reports of the channels that synchronised, in the order of the channels;
/// channels that failed are left out.
pub fn collect_reports(outcomes: &Vec<Result<SyncReport, SyncError>>) -> (r: Vec<SyncReport>)
    ensures
        r@.map_values(|x: SyncReport| x@) == ok_reports(outcomes@),
{
    let mut out: Vec<SyncReport> = Vec::new();
    let n = outcomes.len();
    let mut i: usize = 0;
    assert(outcomes@.take(0) =~= Seq::<Result<SyncReport, SyncError>>::empty());
    assert(out@.map_values(|x: SyncReport| x@) =~= Seq::<SyncReportView>::empty());
    while i < n
        invariant
            n == outcomes@.len(),
            i <= n,
            out@.map_values(|x: SyncReport| x@) == ok_reports(outcomes@.take(i as int)),
        decreases n - i,
    {
        assert(outcomes@.take(i + 1).drop_last() =~= outcomes@.take(i as int));
        assert(outcomes@.take(i + 1).last() == outcomes@[i as int]);
        match &outcomes[i] {
            Ok(rep) => {
                let ghost old_out = out@;
                out.push(rep.duplicate());
                assert(out@.map_values(|x: SyncReport| x@) =~= old_out.map_values(
                    |x: SyncReport| x@,
                ).push(rep@));
            },
            Err(_) => {},
        }
        i = i + 1;
    }
    assert(outcomes@.take(n as int) =~= outcomes@);
    out
}


/// How many outcomes are successes.
pub open spec fn count_ok(outcomes: Seq<Result<SyncReport, SyncError>>) -> nat
    decreases outcomes.len(),
{
    if outcomes.len() == 0 {
        0
    } else {
        count_ok(outcomes.drop_last()) + if outcomes.last() is Ok {
            1nat
        } else {
            0nat
        }
    }
}

/// The reports kept are the successful channels' own reports, unchanged, each
/// once, in order: there are as many as successes, and the success preceded by
/// `k` successes gives the `k`-th report.
pub proof fn lemma_ok_reports(outcomes: Seq<Result<SyncReport, SyncError>>)
    ensures
        ok_reports(outcomes).len() == count_ok(outcomes),
        forall|i: int|
            0 <= i < outcomes.len() && (#[trigger] outcomes[i]) is Ok ==> {
                &&& count_ok(outcomes.take(i)) < count_ok(outcomes)
                &&& ok_reports(outcomes)[count_ok(outcomes.take(i)) as int] == outcomes[i]->Ok_0@
            },
    decreases outcomes.len(),
{
    if outcomes.len() > 0 {
        let rest = outcomes.drop_last();
        let n = outcomes.len() - 1;
        lemma_ok_reports(rest);
        assert forall|i: int|
            0 <= i < outcomes.len() && (#[trigger] outcomes[i]) is Ok implies {
                &&& count_ok(outcomes.take(i)) < count_ok(outcomes)
                &&& ok_reports(outcomes)[count_ok(outcomes.take(i)) as int] == outcomes[i]->Ok_0@
            } by {
            if i < n {
                assert(outcomes.take(i) =~= rest.take(i));
                assert(rest[i] == outcomes[i]);
            } else {
                assert(outcomes.take(i) =~= rest);
            }
        }
    }
}


/// Splitting a feed partitions it: every event is either active (kept whole)
/// or cancelled (its UID kept), none is lost or invented, and no active event
/// is a cancelled one.
pub proof fn lemma_split_partition(s: Seq<CalendarEventView>)
    ensures
        active_events(s).len() + cancelled_uids(s).len() == s.len(),
        forall|i: int| 0 <= i < active_events(s).len() ==> !(#[trigger] active_events(s)[i]).is_cancelled,
        forall|i: int|
            0 <= i < s.len() && !(#[trigger] s[i]).is_cancelled ==> active_events(s).contains(s[i]),
        forall|i: int|
            0 <= i < s.len() && (#[trigger] s[i]).is_cancelled ==> cancelled_uids(s).contains(s[i].uid),
    decreases s.len(),
{
    if s.len() > 0 {
        let rest = s.drop_last();
        let n = s.len() - 1;
        lemma_split_partition(rest);
        let a = active_events(s);
        let c = cancelled_uids(s);
        assert forall|i: int| 0 <= i < s.len() && !(#[trigger] s[i]).is_cancelled implies a.contains(s[i]) by {
            if i < n {
                assert(rest[i] == s[i]);
                let k = choose|k: int| 0 <= k < active_events(rest).len() && active_events(rest)[k] == s[i];
                assert(a[k] == s[i]);
            } else {
                assert(a[a.len() - 1] == s[i]);
            }
        }
        assert forall|i: int| 0 <= i < s.len() && (#[trigger] s[i]).is_cancelled implies c.contains(s[i].uid) by {
            if i < n {
                assert(rest[i] == s[i]);
                let k = choose|k: int| 0 <= k < cancelled_uids(rest).len() && cancelled_uids(rest)[k] == s[i].uid;
                assert(c[k] == s[i].uid);
            } else {
                assert(c[c.len() - 1] == s[i].uid);
            }
        }
        assert forall|i: int| 0 <= i < a.len() implies !(#[trigger] a[i]).is_cancelled by {
            if i < active_events(rest).len() {
                assert(a[i] == active_events(rest)[i]);
            }
        }
    }
}

} // verus!
