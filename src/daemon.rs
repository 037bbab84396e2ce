//! The decisions of one tick of the polling loop: whether the current log is
//! archived before the new sample is appended, and what is appended.
use crate::log::{format_sample, log_of, sample_line};
use crate::week::{local_time, same_week, should_archive, LocalTime};
use vstd::prelude::*;

verus! {

/// What one tick does, in this order: archive the current log when `archive`
/// holds, then append `line` to the current log.
pub struct TickPlan {
    pub archive: bool,
    pub line: Vec<u8>,
}

/// The current log and the archive after a tick: archiving moves the current
/// log over the archive (replacing it whole) and leaves the current log empty;
/// the line is then appended to the current log.
pub open spec fn after_tick(current: Seq<u8>, archive: Seq<u8>, archive_first: bool, line: Seq<u8>) -> (
    Seq<u8>,
    Seq<u8>,
) {
    if archive_first {
        (line, current)
    } else {
        (current + line, archive)
    }
}

/// Plans the tick that records a sample at `now`, the last sample having been
/// recorded at `last`.
pub fn plan_tick(now: LocalTime, last: LocalTime) -> (r: TickPlan)
    ensures
        r.archive == !same_week(now, last),
        r.line@ == sample_line(now.millis as int),
{
    let archive = should_archive(now, last);
    TickPlan { archive, line: format_sample(now.millis) }
}

/// Plans the tick that records a sample at the instant `now`, the last sample
/// having been recorded at the instant `last`, both read in the machine's local
/// time zone. None where either instant cannot be read as a local date.
pub fn next_tick(now: i64, last: i64) -> (r: Option<TickPlan>)
    ensures
        r matches Some(p) ==> exists|n: LocalTime, l: LocalTime|
            n.millis == now && l.millis == last && -86_400 < n.offset_secs < 86_400 && -86_400
                < l.offset_secs < 86_400 && p.archive == !same_week(n, l) && p.line@
                == sample_line(now as int),
{
    match (local_time(now), local_time(last)) {
        (Some(n), Some(l)) => Some(plan_tick(n, l)),
        _ => None,
    }
}

/// When a tick crosses into a new week, the current log afterwards holds just
/// the new sample, and the archive holds the prior week's samples in their
/// original order.
pub proof fn lemma_archive_then_fresh_append(
    prior: Seq<i64>,
    archive: Seq<u8>,
    now: LocalTime,
    last: LocalTime,
)
    requires
        !same_week(now, last),
    ensures
        after_tick(log_of(prior), archive, !same_week(now, last), sample_line(now.millis as int))
            == (log_of(seq![now.millis]), log_of(prior)),
{
    assert(seq![now.millis].drop_last() =~= Seq::<i64>::empty());
    assert(seq![now.millis].last() == now.millis);
    assert(log_of(Seq::<i64>::empty()) == Seq::<u8>::empty());
    assert(Seq::<u8>::empty() + sample_line(now.millis as int) =~= sample_line(now.millis as int));
    assert(log_of(seq![now.millis]) == sample_line(now.millis as int));
}

/// A tick within the week only appends: the archive is left as it was and
/// the new sample follows the current log's samples.
pub proof fn lemma_tick_within_week_only_appends(
    prior: Seq<i64>,
    archive: Seq<u8>,
    now: LocalTime,
    last: LocalTime,
)
    requires
        same_week(now, last),
    ensures
        after_tick(log_of(prior), archive, !same_week(now, last), sample_line(now.millis as int))
            == (log_of(prior.push(now.millis)), archive),
{
    assert(prior.push(now.millis).drop_last() =~= prior);
}

} // verus!
