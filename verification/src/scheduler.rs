//! The rules of the periodic synchronisation.
use vstd::prelude::*;
use crate::sync::{SyncReport, SyncReportView};

verus! {

/// The shortest interval, in minutes, that third-party ICS feeds tolerate
/// without rate limiting.
pub const MIN_RECOMMENDED_INTERVAL_MINUTES: u64 = 15;

/// How many days stored reservations are kept.
pub const RETENTION_DAYS: i64 = 90;

/// Whether an interval is shorter than the feeds tolerate; such an interval is
/// accepted, with a warning.
pub fn is_aggressive_interval(minutes: u64) -> (r: bool)
    ensures
        r == (minutes < MIN_RECOMMENDED_INTERVAL_MINUTES),
{
    minutes < MIN_RECOMMENDED_INTERVAL_MINUTES
}

/// The period between runs, in seconds.
pub fn interval_seconds(minutes: u64) -> (r: u64)
    requires
        minutes * 60 <= u64::MAX,
    ensures
        r == minutes * 60,
{
    minutes * 60
}

/// The end date before which a stored reservation is old enough to be deleted:
/// `days` whole days before `now` (Unix times in seconds).
pub fn retention_cutoff(now: i64, days: i64) -> (r: i64)
    requires
        0 <= days,
        days * 86400 <= i64::MAX,
        now - days * 86400 >= i64::MIN,
    ensures
        r == now - days * 86400,
{
    now - days * 86400
}

/// The sum of the conflicts of the reports.
pub open spec fn conflicts_sum(reports: Seq<SyncReportView>) -> nat
    decreases reports.len(),
{
    if reports.len() == 0 {
        0
    } else {
        conflicts_sum(reports.drop_last()) + reports.last().conflicts_found as nat
    }
}

proof fn lemma_conflicts_sum_prefix(reports: Seq<SyncReportView>, i: int)
    requires
        0 <= i <= reports.len(),
    ensures
        conflicts_sum(reports.take(i)) <= conflicts_sum(reports),
    decreases reports.len() - i,
{
    if i < reports.len() {
        lemma_conflicts_sum_prefix(reports, i + 1);
        assert(reports.take(i + 1).drop_last() =~= reports.take(i));
    } else {
        assert(reports.take(i) =~= reports);
    }
}

/// The conflicts found over all channels of a run.
pub fn total_conflicts(reports: &Vec<SyncReport>) -> (r: usize)
    requires
        conflicts_sum(reports@.map_values(|x: SyncReport| x@)) <= usize::MAX,
    ensures
        r == conflicts_sum(reports@.map_values(|x: SyncReport| x@)),
{
    let ghost rv = reports@.map_values(|x: SyncReport| x@);
    let mut total: usize = 0;
    let n = reports.len();
    let mut i: usize = 0;
    assert(rv.take(0) =~= Seq::<SyncReportView>::empty());
    while i < n
        invariant
            n == reports@.len(),
            rv == reports@.map_values(|x: SyncReport| x@),
            conflicts_sum(rv) <= usize::MAX,
            i <= n,
            total == conflicts_sum(rv.take(i as int)),
        decreases n - i,
    {
        assert(rv.take(i + 1).drop_last() =~= rv.take(i as int));
        assert(rv.take(i + 1).last() == reports@[i as int]@);
        proof {
            lemma_conflicts_sum_prefix(rv, i + 1);
        }
        total = total + reports[i].conflicts_found;
        i = i + 1;
    }
    assert(rv.take(n as int) =~= rv);
    total
}


/// One report contributes exactly the conflicts it found, and totals add up
/// over consecutive groups of reports.
pub proof fn lemma_conflicts_sum_adds(a: Seq<SyncReportView>, b: Seq<SyncReportView>, r: SyncReportView)
    ensures
        conflicts_sum(seq![r]) == r.conflicts_found,
        conflicts_sum(a + b) == conflicts_sum(a) + conflicts_sum(b),
    decreases b.len(),
{
    assert(seq![r].drop_last() =~= Seq::<SyncReportView>::empty());
    assert(conflicts_sum(Seq::<SyncReportView>::empty()) == 0);
    assert(seq![r].last() == r);
    if b.len() == 0 {
        assert(a + b =~= a);
    } else {
        lemma_conflicts_sum_adds(a, b.drop_last(), r);
        assert((a + b).drop_last() =~= a + b.drop_last());
        assert((a + b).last() == b.last());
    }
}

/// The total depends on the conflicts found alone: reports that agree on their
/// conflicts give the same total, whatever they say of synced or removed events.
pub proof fn lemma_conflicts_sum_only_conflicts(a: Seq<SyncReportView>, b: Seq<SyncReportView>)
    requires
        a.len() == b.len(),
        forall|i: int| 0 <= i < a.len() ==> (#[trigger] a[i]).conflicts_found == b[i].conflicts_found,
    ensures
        conflicts_sum(a) == conflicts_sum(b),
    decreases a.len(),
{
    if a.len() > 0 {
        let a2 = a.drop_last();
        let b2 = b.drop_last();
        assert forall|i: int| 0 <= i < a2.len() implies (#[trigger] a2[i]).conflicts_found
            == b2[i].conflicts_found by {
            assert(a2[i] == a[i]);
            assert(b2[i] == b[i]);
        }
        lemma_conflicts_sum_only_conflicts(a2, b2);
        assert(a.last() == a[a.len() - 1]);
    }
}

} // verus!
