//! Rate limiting, for warnings a per-frame path would otherwise repeat thousands of times a
//! second.

use std::sync::atomic::{AtomicU64, Ordering};

use vstd::prelude::*;

verus! {

/// An event is due at `now_ns`: none has fired yet, or the last one is at least the interval ago.
/// Zero stands for never.
pub open spec fn due(last_ns: u64, now_ns: u64, interval_ns: u64) -> bool {
    last_ns == 0 || (if now_ns >= last_ns {
        now_ns - last_ns
    } else {
        0
    }) >= interval_ns
}

/// Whether an event is due.
pub fn is_due(last_ns: u64, now_ns: u64, interval_ns: u64) -> (r: bool)
    ensures
        r == due(last_ns, now_ns, interval_ns),
{
    last_ns == 0 || now_ns.saturating_sub(last_ns) >= interval_ns
}

/// The time that a firing is recorded under. Zero means never fired, so the very first event must
/// not land on it.
pub open spec fn recorded(now_ns: u64) -> u64 {
    if now_ns == 0 {
        1
    } else {
        now_ns
    }
}

/// Whether an event may fire at `now_ns`, the time since the start, and if so records that it
/// did: if it is due and no one else has recorded another in between.
pub fn check_and_record(last_ns: &AtomicU64, interval_ns: u64, now_ns: u64) -> (r: bool)
    ensures
        exists|last: u64| #[trigger]
            call_ensures(AtomicU64::load, (last_ns, Ordering::Relaxed), last) && if due(
                last,
                recorded(now_ns),
                interval_ns,
            ) {
                exists|outcome: Result<u64, u64>| #[trigger]
                    call_ensures(
                        AtomicU64::compare_exchange,
                        (
                            last_ns,
                            last,
                            recorded(now_ns),
                            Ordering::Relaxed,
                            Ordering::Relaxed,
                        ),
                        outcome,
                    ) && r == (outcome is Ok)
            } else {
                !r
            },
{
    let stamp: u64 = if now_ns == 0 {
        1
    } else {
        now_ns
    };
    let last: u64 = last_ns.load(Ordering::Relaxed);
    if !is_due(last, stamp, interval_ns) {
        return false;
    }
    let outcome = last_ns.compare_exchange(last, stamp, Ordering::Relaxed, Ordering::Relaxed);
    outcome.is_ok()
}

/// Law: an event that fired does not fire again before the interval has passed, and then it may.
pub proof fn law_throttles_within_the_interval(fired_ns: u64, now_ns: u64, interval_ns: u64)
    requires
        fired_ns <= now_ns,
    ensures
        due(recorded(fired_ns), recorded(now_ns), interval_ns) <==> recorded(now_ns) - recorded(
            fired_ns,
        ) >= interval_ns,
        due(0, recorded(now_ns), interval_ns),
{
}

/// One try at firing, by whichever thread: the value it loaded, the time it would record, and
/// whether its exchange succeeded.
pub struct Attempt {
    pub loaded: u64,
    pub stamp: u64,
    pub fired: bool,
}

/// The values that a shared cell takes as tries come to their exchange one after the other: a try
/// that is due records its time if the cell still holds what it loaded.
pub open spec fn recorded_in_turn(
    values: Seq<u64>,
    attempts: Seq<Attempt>,
    interval_ns: u64,
) -> bool {
    &&& values.len() == attempts.len() + 1
    &&& forall|i: int| 0 <= i < attempts.len() ==> came_to_exchange(
        values[i],
        #[trigger] attempts[i],
        interval_ns,
        values[i + 1],
    )
}

/// See [`recorded_in_turn`]: one try.
pub open spec fn came_to_exchange(held: u64, a: Attempt, interval_ns: u64, then: u64) -> bool {
    &&& a.stamp > 0
    &&& a.fired <==> due(a.loaded, a.stamp, interval_ns) && a.loaded == held
    &&& then == if a.fired {
        a.stamp
    } else {
        held
    }
}

/// A cell that has been recorded in never goes back.
proof fn lemma_cell_goes_on(
    values: Seq<u64>,
    attempts: Seq<Attempt>,
    interval_ns: u64,
    i: int,
    j: int,
)
    requires
        interval_ns > 0,
        recorded_in_turn(values, attempts, interval_ns),
        0 <= i <= j < values.len(),
    ensures
        values[i] <= values[j],
    decreases j - i,
{
    if i < j {
        lemma_cell_goes_on(values, attempts, interval_ns, i, j - 1);
        assert(came_to_exchange(values[j - 1], attempts[j - 1], interval_ns, values[j]));
    }
}

/// Law: however tries of different threads interleave, those that fire are at least the interval
/// apart in recorded time, and of the tries that loaded the same value at most one fires.
pub proof fn law_firings_are_an_interval_apart(
    values: Seq<u64>,
    attempts: Seq<Attempt>,
    interval_ns: u64,
    i: int,
    j: int,
)
    requires
        interval_ns > 0,
        recorded_in_turn(values, attempts, interval_ns),
        0 <= i < j < attempts.len(),
        attempts[i].fired,
        attempts[j].fired,
    ensures
        attempts[j].stamp - attempts[i].stamp >= interval_ns,
        attempts[i].loaded != attempts[j].loaded,
{
    assert(came_to_exchange(values[i], attempts[i], interval_ns, values[i + 1]));
    assert(came_to_exchange(values[j], attempts[j], interval_ns, values[j + 1]));
    lemma_cell_goes_on(values, attempts, interval_ns, i + 1, j);
}

} // verus!
