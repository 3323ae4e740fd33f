//! The sliding window of state history: entries whose end lies further back in host time
//! than the window are dropped, oldest first.
use vstd::prelude::*;

use crate::time::{sat_sub, ComputerTime};

verus! {

/// Whether an entry that ended at host time `end` is older than `max_age` at host time `now`.
pub open spec fn is_stale(end: ComputerTime, now: ComputerTime, max_age: ComputerTime) -> bool {
    sat_sub(now.micros as int, end.micros as int) > max_age.micros
}

/// How many entries, from the oldest on, eviction drops: it stops at the first entry
/// that is not stale.
pub open spec fn stale_count(ends: Seq<ComputerTime>, now: ComputerTime, max_age: ComputerTime) -> nat
    decreases ends.len(),
{
    if ends.len() > 0 && is_stale(ends[0], now, max_age) {
        1 + stale_count(ends.drop_first(), now, max_age)
    } else {
        0
    }
}

pub open spec fn ordered_ends(ends: Seq<ComputerTime>) -> bool {
    forall|i: int, j: int| 0 <= i <= j < ends.len() ==> ends[i].micros <= ends[j].micros
}

pub proof fn lemma_stale_count_bound(ends: Seq<ComputerTime>, now: ComputerTime, max_age: ComputerTime)
    ensures
        stale_count(ends, now, max_age) <= ends.len(),
    decreases ends.len(),
{
    if ends.len() > 0 && is_stale(ends[0], now, max_age) {
        lemma_stale_count_bound(ends.drop_first(), now, max_age);
    }
}

/// When entries ended in host-time order, none that eviction keeps is older than the window.
pub proof fn lemma_evicted_within_window(
    ends: Seq<ComputerTime>,
    now: ComputerTime,
    max_age: ComputerTime,
)
    requires
        ordered_ends(ends),
    ensures
        stale_count(ends, now, max_age) <= ends.len(),
        forall|i: int|
            stale_count(ends, now, max_age) <= i < ends.len() ==> !is_stale(
                #[trigger] ends[i],
                now,
                max_age,
            ),
    decreases ends.len(),
{
    lemma_stale_count_bound(ends, now, max_age);
    if ends.len() > 0 {
        if is_stale(ends[0], now, max_age) {
            let t = ends.drop_first();
            assert(ordered_ends(t)) by {
                assert forall|i: int, j: int| 0 <= i <= j < t.len() implies t[i].micros
                    <= t[j].micros by {
                    assert(t[i] == ends[i + 1] && t[j] == ends[j + 1]);
                }
            }
            lemma_evicted_within_window(t, now, max_age);
            assert forall|i: int|
                stale_count(ends, now, max_age) <= i < ends.len() implies !is_stale(
                #[trigger] ends[i],
                now,
                max_age,
            ) by {
                assert(ends[i] == t[i - 1]);
            }
        } else {
            assert forall|i: int|
                stale_count(ends, now, max_age) <= i < ends.len() implies !is_stale(
                #[trigger] ends[i],
                now,
                max_age,
            ) by {
                assert(ends[0].micros <= ends[i].micros);
            }
        }
    }
}

} // verus!
