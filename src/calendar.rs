//! Day numbers and weekdays of Unix instants, and the days a weekly rule covers.

use vstd::prelude::*;
use crate::models::SECONDS_PER_DAY;

verus! {

/// The day number (days since 1970-01-01) of instant `t`.
pub open spec fn day_of(t: int) -> int {
    t / 86400
}

/// The weekday of day number `d`, Monday being 0: day 0 was a Thursday.
pub open spec fn weekday_of(d: int) -> int {
    (d + 3) % 7
}

/// The days from `from` to `to`, both included, whose weekday is marked in `weekdays`, in order.
pub open spec fn occurrence_days(weekdays: [bool; 7], from: int, to: int) -> Seq<int>
    decreases to - from + 1,
{
    if to < from {
        Seq::empty()
    } else {
        occurrence_days(weekdays, from, to - 1) + (if weekdays@[weekday_of(to)] {
            seq![to]
        } else {
            Seq::empty()
        })
    }
}

/// Every day listed lies between `from` and `to`.
pub proof fn lemma_occurrence_bounds(weekdays: [bool; 7], from: int, to: int)
    ensures
        forall|i: int| 0 <= i < occurrence_days(weekdays, from, to).len() ==>
            from <= #[trigger] occurrence_days(weekdays, from, to)[i] <= to,
    decreases to - from + 1,
{
    if to >= from {
        lemma_occurrence_bounds(weekdays, from, to - 1);
        let a = occurrence_days(weekdays, from, to - 1);
        assert forall|i: int| 0 <= i < occurrence_days(weekdays, from, to).len() implies
            from <= #[trigger] occurrence_days(weekdays, from, to)[i] <= to by {
            if i < a.len() {
                assert(occurrence_days(weekdays, from, to)[i] == a[i]);
            }
        }
    }
}

/// The day number of instant `t`.
pub fn day_number(t: u64) -> (r: u64)
    ensures
        r == day_of(t as int),
{
    t / SECONDS_PER_DAY
}

/// The weekday of day number `d`, Monday being 0.
pub fn weekday(d: u64) -> (r: usize)
    ensures
        r == weekday_of(d as int),
        r < 7,
{
    ((d % 7 + 3) % 7) as usize
}

/// The days after `start_day` up to `until`, included, whose weekday is marked.
pub fn matching_days(weekdays: [bool; 7], start_day: u64, until: u64) -> (r: Vec<u64>)
    requires
        until < u64::MAX,
    ensures
        r@.len() == occurrence_days(weekdays, start_day + 1, until as int).len(),
        forall|i: int| 0 <= i < r@.len() ==> r@[i] == #[trigger] occurrence_days(weekdays, start_day + 1, until as int)[i],
{
    let mut out: Vec<u64> = Vec::new();
    if start_day >= until {
        return out;
    }
    let mut d: u64 = start_day + 1;
    while d <= until
        invariant
            start_day < until < u64::MAX,
            start_day + 1 <= d <= until + 1,
            out@.len() == occurrence_days(weekdays, start_day + 1, d - 1).len(),
            forall|i: int| 0 <= i < out@.len() ==> out@[i] == #[trigger] occurrence_days(weekdays, start_day + 1, d - 1)[i],
        decreases until + 1 - d,
    {
        let ghost prev = out@;
        let ghost before = occurrence_days(weekdays, start_day + 1, d - 1);
        let ghost after = occurrence_days(weekdays, start_day + 1, d as int);
        let w = weekday(d);
        if weekdays[w] {
            out.push(d);
            assert(after == before + seq![d as int]);
            assert forall|i: int| 0 <= i < out@.len() implies out@[i] == #[trigger] after[i] by {
                if i < prev.len() {
                    assert(out@[i] == prev[i]);
                    assert(after[i] == before[i]);
                }
            }
        } else {
            assert(after =~= before);
        }
        d = d + 1;
    }
    out
}


/// How many weekdays `weekdays` marks.
pub open spec fn marked_count(weekdays: [bool; 7]) -> int {
    (if weekdays@[0] { 1int } else { 0 }) + (if weekdays@[1] { 1int } else { 0 }) + (if weekdays@[2] { 1int } else { 0 })
        + (if weekdays@[3] { 1int } else { 0 }) + (if weekdays@[4] { 1int } else { 0 }) + (if weekdays@[5] { 1int } else { 0 })
        + (if weekdays@[6] { 1int } else { 0 })
}

/// One day more at the end of the range adds that day when its weekday is marked.
proof fn lemma_step(weekdays: [bool; 7], from: int, to: int)
    requires
        from <= to + 1,
    ensures
        occurrence_days(weekdays, from, to + 1).len() == occurrence_days(weekdays, from, to).len()
            + (if weekdays@[weekday_of(to + 1)] { 1int } else { 0 }),
{
    assert(occurrence_days(weekdays, from, to + 1) == occurrence_days(weekdays, from, to) + (if weekdays@[weekday_of(to + 1)] {
        seq![to + 1]
    } else {
        Seq::<int>::empty()
    }));
}

/// Seven consecutive days hold each marked weekday once.
proof fn lemma_week(weekdays: [bool; 7], from: int, to: int)
    requires
        from <= to + 1,
    ensures
        occurrence_days(weekdays, from, to + 7).len() == occurrence_days(weekdays, from, to).len() + marked_count(weekdays),
{
    lemma_step(weekdays, from, to);
    lemma_step(weekdays, from, to + 1);
    lemma_step(weekdays, from, to + 2);
    lemma_step(weekdays, from, to + 3);
    lemma_step(weekdays, from, to + 4);
    lemma_step(weekdays, from, to + 5);
    lemma_step(weekdays, from, to + 6);
    let r = weekday_of(to + 1);
    assert(weekday_of(to + 2) == (r + 1) % 7);
    assert(weekday_of(to + 3) == (r + 2) % 7);
    assert(weekday_of(to + 4) == (r + 3) % 7);
    assert(weekday_of(to + 5) == (r + 4) % 7);
    assert(weekday_of(to + 6) == (r + 5) % 7);
    assert(weekday_of(to + 7) == (r + 6) % 7);
    assert(0 <= r < 7);
}

/// Any fourteen consecutive days after day `d` hold each marked weekday
/// exactly twice: a two-week weekly rule yields twice as many instances as
/// it marks weekdays, whatever day its template falls on.
pub proof fn lemma_two_weeks(weekdays: [bool; 7], d: int)
    ensures
        occurrence_days(weekdays, d + 1, d + 14).len() == 2 * marked_count(weekdays),
{
    assert(occurrence_days(weekdays, d + 1, d).len() == 0);
    lemma_week(weekdays, d + 1, d);
    lemma_week(weekdays, d + 1, d + 7);
}

} // verus!
