//! The time-driven jobs: auto-release of bookings nobody checked in to,
//! reminders before a start, and removal of past waitlist entries. Each tick
//! is a function of the store and the current instant; the caller runs the
//! timers and delivers the notices.

use vstd::prelude::*;
use crate::calendar::day_of;
use crate::lifecycle::with_status;
use crate::models::{Booking, BookingStatus, SlotStatus, WaitlistEntry, SECONDS_PER_DAY, SECONDS_PER_MINUTE};
use crate::db::Database;
use crate::waitlist::{group_served, in_group, is_head, marked, slot_notice, waitlist_cascade, Notice};

verus! {

/// Booking `b` is `Confirmed`, nobody checked in, and at least `grace`
/// whole minutes have passed since its start at `now`.
pub open spec fn release_due(b: Booking, now: int, grace: int) -> bool {
    &&& b.status == BookingStatus::Confirmed
    &&& b.checked_in_at is None
    &&& b.start_time <= now
    &&& (now - b.start_time) / 60 >= grace
}

/// Booking `b` after auto-release at `now`.
pub open spec fn released(b: Booking, now: int) -> Booking {
    Booking { status: BookingStatus::AutoReleased, updated_at: now as u64, ..b }
}

/// `w1` differs from `w0` only in notified flags that were set.
pub open spec fn only_marks(w0: Map<Seq<char>, WaitlistEntry>, w1: Map<Seq<char>, WaitlistEntry>) -> bool {
    &&& forall|k: Seq<char>| #[trigger] w1.contains_key(k) <==> w0.contains_key(k)
    &&& forall|k: Seq<char>| #[trigger] w0.contains_key(k) ==> w1[k] == w0[k] || w1[k] == marked(w0[k])
}

/// `n` tells the owner of a booking of `b0`, due at `now`, of its release.
pub open spec fn release_notice(b0: Map<Seq<char>, Booking>, n: Notice, now: int, grace: int) -> bool {
    exists|k: Seq<char>| #[trigger] b0.contains_key(k) && release_due(b0[k], now, grace)
        && n == Notice::AutoReleased { user_id: b0[k].user_id, booking_id: b0[k].id }
}

/// `n` tells an entry of `w0`, unnotified there and marked in `w`, of a free slot.
pub open spec fn marked_notice(w0: Map<Seq<char>, WaitlistEntry>, w: Map<Seq<char>, WaitlistEntry>, n: Notice) -> bool {
    exists|h: Seq<char>| #[trigger] w0.contains_key(h) && !w0[h].notified && w[h] == marked(w0[h]) && n == slot_notice(w0[h])
}

/// Entry `k` of `w0` is first in line for the lot and day of a booking of
/// `b0` that is due for release at `now`.
pub open spec fn head_of_released(b0: Map<Seq<char>, Booking>, w0: Map<Seq<char>, WaitlistEntry>, k: Seq<char>, now: int, grace: int) -> bool {
    exists|bk: Seq<char>| #[trigger] b0.contains_key(bk) && release_due(b0[bk], now, grace)
        && is_head(w0, k, b0[bk].lot_id@, day_of(b0[bk].start_time as int))
}

/// The booking a release notice names.
pub open spec fn released_id(n: Notice) -> Option<Seq<char>> {
    match n {
        Notice::AutoReleased { booking_id, .. } => Some(booking_id@),
        _ => None,
    }
}

/// The waitlist entry a free-slot notice names.
pub open spec fn told_entry(n: Notice) -> Option<Seq<char>> {
    match n {
        Notice::WaitlistSlotAvailable { entry_id, .. } => Some(entry_id@),
        _ => None,
    }
}

/// Setting flags keeps who is first in line.
pub proof fn lemma_marks_keep_heads(w0: Map<Seq<char>, WaitlistEntry>, w1: Map<Seq<char>, WaitlistEntry>, lot: Seq<char>, date: int)
    requires
        only_marks(w0, w1),
    ensures
        forall|h: Seq<char>| #[trigger] is_head(w1, h, lot, date) <==> is_head(w0, h, lot, date),
        forall|k: Seq<char>| w0.contains_key(k) ==> (#[trigger] in_group(w1[k], lot, date) <==> in_group(w0[k], lot, date)),
{
    assert forall|k: Seq<char>| w0.contains_key(k) implies (#[trigger] in_group(w1[k], lot, date) <==> in_group(w0[k], lot, date)) by {
        assert(w1[k] == w0[k] || w1[k] == marked(w0[k]));
    }
    assert forall|h: Seq<char>| #[trigger] is_head(w1, h, lot, date) <==> is_head(w0, h, lot, date) by {
        if is_head(w1, h, lot, date) {
            assert forall|k: Seq<char>| #[trigger] w0.contains_key(k) && in_group(w0[k], lot, date) implies w0[h].created_at <= w0[k].created_at by {
                assert(w1.contains_key(k));
                assert(w1[k] == w0[k] || w1[k] == marked(w0[k]));
                assert(w1[h] == w0[h] || w1[h] == marked(w0[h]));
            }
        }
        if is_head(w0, h, lot, date) {
            assert forall|k: Seq<char>| #[trigger] w1.contains_key(k) && in_group(w1[k], lot, date) implies w1[h].created_at <= w1[k].created_at by {
                assert(w0.contains_key(k));
                assert(w1[k] == w0[k] || w1[k] == marked(w0[k]));
                assert(w1[h] == w0[h] || w1[h] == marked(w0[h]));
            }
        }
    }
}

/// One auto-release tick at `now` with a grace of `grace_minutes` (0 turns it
/// off): every due booking becomes `AutoReleased`, its slot `Available`, its
/// owner is told, and the waitlist of its lot and day is cascaded.
pub fn run_auto_release(db: &mut Database, now: u64, grace_minutes: u64) -> (r: Vec<Notice>)
    requires
        old(db).wf(),
    ensures
        final(db).wf(),
        Database::same_accounts(old(db), final(db)),
        grace_minutes == 0 ==> final(db).bookings() == old(db).bookings() && final(db).slots() == old(db).slots()
            && final(db).waitlist() == old(db).waitlist() && r@.len() == 0,
        grace_minutes > 0 ==> {
            let b0 = old(db).bookings();
            let s0 = old(db).slots();
            let w0 = old(db).waitlist();
            &&& forall|k: Seq<char>| #[trigger] final(db).bookings().contains_key(k) <==> b0.contains_key(k)
            &&& forall|k: Seq<char>| #[trigger] b0.contains_key(k) ==> final(db).bookings()[k] == if release_due(b0[k], now as int, grace_minutes as int) {
                released(b0[k], now as int)
            } else {
                b0[k]
            }
            &&& forall|s: Seq<char>| #[trigger] final(db).slots().contains_key(s) <==> s0.contains_key(s)
            &&& forall|s: Seq<char>| #[trigger] s0.contains_key(s) ==> final(db).slots()[s] == if exists|k: Seq<char>|
                b0.contains_key(k) && release_due(#[trigger] b0[k], now as int, grace_minutes as int) && b0[k].slot_id@ == s {
                with_status(s0[s], SlotStatus::Available)
            } else {
                s0[s]
            }
            &&& only_marks(w0, final(db).waitlist())
            &&& forall|k: Seq<char>| #[trigger] w0.contains_key(k) && final(db).waitlist()[k] != w0[k]
                ==> !w0[k].notified && head_of_released(b0, w0, k, now as int, grace_minutes as int)
            &&& forall|k: Seq<char>| #[trigger] b0.contains_key(k) && release_due(b0[k], now as int, grace_minutes as int)
                ==> group_served(final(db).waitlist(), b0[k].lot_id@, day_of(b0[k].start_time as int))
            &&& forall|k: Seq<char>| #[trigger] b0.contains_key(k) && release_due(b0[k], now as int, grace_minutes as int)
                ==> r@.contains(Notice::AutoReleased { user_id: b0[k].user_id, booking_id: b0[k].id })
            &&& forall|i: int| 0 <= i < r@.len() ==> release_notice(b0, #[trigger] r@[i], now as int, grace_minutes as int)
                || marked_notice(w0, final(db).waitlist(), r@[i])
        },
        forall|a: int, c: int| 0 <= a < c < r@.len() ==> r@[a] != r@[c],
{
    let mut notices: Vec<Notice> = Vec::new();
    if grace_minutes == 0 {
        return notices;
    }
    let ghost b0 = db.bookings();
    let ghost s0 = db.slots();
    let ghost w0 = db.waitlist();
    let ghost g = grace_minutes as int;
    let ghost t = now as int;
    let keys = db.booking_ids();
    proof { db.lemma_stored_ids(); }
    let mut i: usize = 0;
    while i < keys.len()
        invariant
            db.wf(),
            Database::same_accounts(old(db), db),
            forall|k: Seq<char>| #[trigger] b0.contains_key(k) ==> b0[k].id@ == k,
            forall|a: int, j: int| 0 <= a < notices@.len() && i <= j < keys@.len() ==> released_id(#[trigger] notices@[a]) != Some(#[trigger] keys@[j]@),
            forall|a: int| 0 <= a < notices@.len() && told_entry(#[trigger] notices@[a]) is Some ==> db.waitlist().contains_key(told_entry(notices@[a]).unwrap())
                && db.waitlist()[told_entry(notices@[a]).unwrap()].notified,
            forall|a: int, c: int| 0 <= a < c < notices@.len() ==> notices@[a] != notices@[c],
            b0 == old(db).bookings(),
            s0 == old(db).slots(),
            w0 == old(db).waitlist(),
            g == grace_minutes as int,
            t == now as int,
            g > 0,
            i <= keys@.len(),
            forall|j: int| 0 <= j < keys@.len() ==> b0.contains_key(#[trigger] keys@[j]@),
            forall|k: Seq<char>| #[trigger] b0.contains_key(k) ==> exists|j: int| 0 <= j < keys@.len() && #[trigger] keys@[j]@ == k,
            forall|a: int, c: int| 0 <= a < keys@.len() && 0 <= c < keys@.len() && #[trigger] keys@[a]@ == #[trigger] keys@[c]@ ==> a == c,
            forall|k: Seq<char>| #[trigger] db.bookings().contains_key(k) <==> b0.contains_key(k),
            forall|j: int| i <= j < keys@.len() ==> db.bookings()[#[trigger] keys@[j]@] == b0[keys@[j]@],
            forall|j: int| 0 <= j < i ==> db.bookings()[#[trigger] keys@[j]@] == if release_due(b0[keys@[j]@], t, g) {
                released(b0[keys@[j]@], t)
            } else {
                b0[keys@[j]@]
            },
            forall|s: Seq<char>| #[trigger] db.slots().contains_key(s) <==> s0.contains_key(s),
            forall|s: Seq<char>| #[trigger] s0.contains_key(s) ==> db.slots()[s] == if exists|j: int|
                0 <= j < i && release_due(#[trigger] b0[keys@[j]@], t, g) && b0[keys@[j]@].slot_id@ == s {
                with_status(s0[s], SlotStatus::Available)
            } else {
                s0[s]
            },
            only_marks(w0, db.waitlist()),
            forall|k: Seq<char>| #[trigger] w0.contains_key(k) && db.waitlist()[k] != w0[k]
                ==> !w0[k].notified && head_of_released(b0, w0, k, t, g),
            forall|j: int| 0 <= j < i && release_due(#[trigger] b0[keys@[j]@], t, g)
                ==> group_served(db.waitlist(), b0[keys@[j]@].lot_id@, day_of(b0[keys@[j]@].start_time as int)),
            forall|j: int| 0 <= j < i && release_due(#[trigger] b0[keys@[j]@], t, g)
                ==> notices@.contains(Notice::AutoReleased { user_id: b0[keys@[j]@].user_id, booking_id: b0[keys@[j]@].id }),
            forall|a: int| 0 <= a < notices@.len() ==> release_notice(b0, #[trigger] notices@[a], t, g)
                || marked_notice(w0, db.waitlist(), notices@[a]),
        decreases keys@.len() - i,
    {
        let ghost ki = keys@[i as int]@;
        assert(b0.contains_key(ki));
        assert(db.bookings()[ki] == b0[ki]);
        let ghost bk0 = db.bookings();
        let ghost sk0 = db.slots();
        let ghost wk0 = db.waitlist();
        let ghost nk0 = notices@;
        let due = match db.get_booking(&keys[i]) {
            Some(b) => {
                b.status == BookingStatus::Confirmed && b.checked_in_at.is_none() && b.start_time <= now
                    && (now - b.start_time) / SECONDS_PER_MINUTE >= grace_minutes
            },
            None => false,
        };
        assert(due == release_due(b0[ki], t, g));
        if due {
            let b = db.get_booking(&keys[i]).unwrap();
            let mut updated = b.clone();
            updated.status = BookingStatus::AutoReleased;
            updated.updated_at = now;
            let slot_id = b.slot_id.clone();
            let lot_id = b.lot_id.clone();
            let user_id = b.user_id.clone();
            let booking_id = b.id.clone();
            let day = b.start_time / SECONDS_PER_DAY;
            assert(updated == released(b0[ki], t));
            assert(updated.id@ == ki);
            db.save_booking(updated);
            db.update_slot_status(&slot_id, SlotStatus::Available);
            let ghost wk1 = db.waitlist();
            notices.push(Notice::AutoReleased { user_id, booking_id });
            let ghost nk1 = notices@;
            assert(release_notice(b0, nk1[nk1.len() - 1], t, g));
            let n = waitlist_cascade(db, &lot_id, day);
            let ghost n_copy = n;
            proof { db.lemma_stored_ids(); }
            match n {
                Some(n) => {
                    notices.push(n);
                },
                None => {},
            }
            proof {
                let w2 = db.waitlist();
                assert(released_id(nk1[nk0.len() as int]) == Some(ki));
                assert forall|a: int| 0 <= a < nk0.len() implies released_id(#[trigger] nk0[a]) != Some(ki) by {
                    assert(released_id(nk0[a]) != Some(keys@[i as int]@));
                }
                if n_copy is Some {
                    let q = choose|q: Seq<char>| #[trigger] is_head(wk1, q, lot_id@, day as int) && !wk1[q].notified && w2 == wk1.insert(q, marked(wk1[q]))
                        && n_copy == Some(slot_notice(wk1[q]));
                    assert(w2.contains_key(q) && w2[q] == marked(wk1[q]));
                    assert(w2[q].id@ == q);
                    assert(told_entry(n_copy.unwrap()) == Some(q));
                    assert(released_id(n_copy.unwrap()) is None);
                    assert forall|a: int| 0 <= a < nk0.len() implies told_entry(#[trigger] nk0[a]) != Some(q) by {
                        if told_entry(nk0[a]) is Some {
                            assert(wk1[told_entry(nk0[a]).unwrap()].notified);
                        }
                    }
                    assert(notices@ == nk1.push(n_copy.unwrap()));
                }
                assert forall|a: int, c: int| 0 <= a < c < notices@.len() implies notices@[a] != notices@[c] by {
                    if c < nk0.len() {
                        assert(notices@[a] == nk0[a] && notices@[c] == nk0[c]);
                    } else if c == nk0.len() {
                        assert(notices@[a] == nk0[a]);
                        assert(released_id(notices@[c]) == Some(ki));
                    } else if a < nk0.len() {
                        assert(notices@[a] == nk0[a]);
                    } else {
                        assert(released_id(notices@[a]) is Some);
                    }
                }
                assert forall|a: int, j: int| 0 <= a < notices@.len() && i + 1 <= j < keys@.len() implies released_id(#[trigger] notices@[a]) != Some(#[trigger] keys@[j]@) by {
                    if a < nk0.len() {
                        assert(notices@[a] == nk0[a]);
                    } else if a == nk0.len() {
                        assert(keys@[j]@ != keys@[i as int]@);
                    }
                }
                assert forall|a: int| 0 <= a < notices@.len() && told_entry(#[trigger] notices@[a]) is Some implies w2.contains_key(told_entry(notices@[a]).unwrap())
                    && w2[told_entry(notices@[a]).unwrap()].notified by {
                    if a < nk0.len() {
                        assert(notices@[a] == nk0[a]);
                        let e = told_entry(nk0[a]).unwrap();
                        assert(wk1[e].notified);
                        assert(w2[e] == wk1[e] || w2[e] == marked(wk1[e]));
                    } else if a > nk0.len() {
                        let q = choose|q: Seq<char>| #[trigger] is_head(wk1, q, lot_id@, day as int) && !wk1[q].notified && w2 == wk1.insert(q, marked(wk1[q]))
                            && n_copy == Some(slot_notice(wk1[q]));
                        assert(told_entry(notices@[a]) == Some(q));
                    }
                }
            }
            proof {
                let w2 = db.waitlist();
                assert forall|a: int| 0 <= a < notices@.len() implies release_notice(b0, #[trigger] notices@[a], t, g)
                    || marked_notice(w0, w2, notices@[a]) by {
                    if a < nk0.len() {
                        assert(notices@[a] == nk0[a]);
                        if !release_notice(b0, nk0[a], t, g) {
                            assert(marked_notice(w0, wk0, nk0[a]));
                            let h = choose|h: Seq<char>| #[trigger] w0.contains_key(h) && !w0[h].notified && wk0[h] == marked(w0[h]) && nk0[a] == slot_notice(w0[h]);
                            assert(wk1 == wk0);
                            assert(wk1[h].notified);
                            if n_copy is Some {
                                let q = choose|q: Seq<char>| #[trigger] is_head(wk1, q, lot_id@, day as int) && !wk1[q].notified && w2 == wk1.insert(q, marked(wk1[q]))
                                    && n_copy == Some(slot_notice(wk1[q]));
                                assert(q != h);
                            }
                            assert(w2[h] == wk1[h]);
                        }
                    } else if a == nk0.len() {
                        assert(notices@[a] == nk1[a]);
                    } else {
                        let q = choose|q: Seq<char>| #[trigger] is_head(wk1, q, lot_id@, day as int) && !wk1[q].notified && w2 == wk1.insert(q, marked(wk1[q]))
                            && n_copy == Some(slot_notice(wk1[q]));
                        assert(w0.contains_key(q));
                        assert(wk1[q] == w0[q] || wk1[q] == marked(w0[q]));
                        assert(wk1[q] == w0[q]);
                        assert(notices@[a] == slot_notice(w0[q]));
                    }
                }
            }
            proof {
                let w2 = db.waitlist();
                assert(lot_id@ == b0[ki].lot_id@ && day as int == day_of(b0[ki].start_time as int));
                assert forall|k: Seq<char>| #[trigger] w0.contains_key(k) && w2[k] != w0[k]
                    implies !w0[k].notified && head_of_released(b0, w0, k, t, g) by {
                    assert(wk1 == wk0);
                    if w2[k] == wk1[k] {
                    } else {
                        let q = choose|q: Seq<char>| #[trigger] is_head(wk1, q, lot_id@, day as int) && !wk1[q].notified && w2 == wk1.insert(q, marked(wk1[q]))
                            && n_copy == Some(slot_notice(wk1[q]));
                        assert(k == q);
                        assert(wk1[q] == w0[q] || wk1[q] == marked(w0[q]));
                        assert(wk1[q] == w0[q]);
                        lemma_marks_keep_heads(w0, wk1, lot_id@, day as int);
                        assert(is_head(w0, q, b0[ki].lot_id@, day_of(b0[ki].start_time as int)));
                        assert(b0.contains_key(ki) && release_due(b0[ki], t, g));
                    }
                }
                lemma_marks_keep_heads(wk1, w2, lot_id@, day as int);
                assert(only_marks(w0, w2)) by {
                    assert forall|k: Seq<char>| #[trigger] w0.contains_key(k) implies w2[k] == w0[k] || w2[k] == marked(w0[k]) by {
                        assert(wk1.contains_key(k));
                        if w2[k] != wk1[k] {
                            assert(w2[k] == marked(wk1[k]));
                        }
                    }
                }
                assert forall|j: int| 0 <= j < i + 1 && release_due(#[trigger] b0[keys@[j]@], t, g)
                    implies group_served(w2, b0[keys@[j]@].lot_id@, day_of(b0[keys@[j]@].start_time as int)) by {
                    let lot = b0[keys@[j]@].lot_id@;
                    let dd = day_of(b0[keys@[j]@].start_time as int);
                    lemma_marks_keep_heads(wk1, w2, lot, dd);
                    lemma_marks_keep_heads(w0, wk1, lot, dd);
                    lemma_marks_keep_heads(w0, w2, lot, dd);
                    if j < i {
                        assert(group_served(wk1, lot, dd));
                        if forall|k: Seq<char>| #[trigger] wk1.contains_key(k) ==> !in_group(wk1[k], lot, dd) {
                            assert forall|k: Seq<char>| #[trigger] w2.contains_key(k) implies !in_group(w2[k], lot, dd) by {
                                assert(wk1.contains_key(k));
                            }
                        } else {
                            let h = choose|h: Seq<char>| #[trigger] is_head(wk1, h, lot, dd) && wk1[h].notified;
                            assert(is_head(w2, h, lot, dd));
                            assert(w2[h] == wk1[h] || w2[h] == marked(wk1[h]));
                        }
                    } else {
                        assert(j == i);
                        if n is None {
                            assert(w2 == wk1);
                        } else {
                            let h = choose|h: Seq<char>| #[trigger] is_head(wk1, h, lot, dd) && !wk1[h].notified && w2 == wk1.insert(h, marked(wk1[h]));
                            assert(is_head(w2, h, lot, dd));
                            assert(w2[h].notified);
                        }
                    }
                }
            }
            assert(notices@.contains(Notice::AutoReleased { user_id: b0[ki].user_id, booking_id: b0[ki].id })) by {
                assert(notices@[nk0.len() as int] == Notice::AutoReleased { user_id: b0[ki].user_id, booking_id: b0[ki].id });
            }
            assert forall|j: int| 0 <= j < i && release_due(#[trigger] b0[keys@[j]@], t, g)
                implies notices@.contains(Notice::AutoReleased { user_id: b0[keys@[j]@].user_id, booking_id: b0[keys@[j]@].id }) by {
                let x = Notice::AutoReleased { user_id: b0[keys@[j]@].user_id, booking_id: b0[keys@[j]@].id };
                assert(nk0.contains(x));
                let a = choose|a: int| 0 <= a < nk0.len() && nk0[a] == x;
                assert(notices@[a] == x);
            }
        }
        assert forall|j: int| 0 <= j < i + 1 implies db.bookings()[#[trigger] keys@[j]@] == if release_due(b0[keys@[j]@], t, g) {
            released(b0[keys@[j]@], t)
        } else {
            b0[keys@[j]@]
        } by {
            if j < i {
                assert(keys@[j]@ != ki);
                assert(bk0[keys@[j]@] == db.bookings()[keys@[j]@]);
            }
        }
        assert forall|j: int| i + 1 <= j < keys@.len() implies db.bookings()[#[trigger] keys@[j]@] == b0[keys@[j]@] by {
            assert(keys@[j]@ != ki);
        }
        assert forall|s: Seq<char>| #[trigger] s0.contains_key(s) implies db.slots()[s] == if exists|j: int|
            0 <= j < i + 1 && release_due(#[trigger] b0[keys@[j]@], t, g) && b0[keys@[j]@].slot_id@ == s {
            with_status(s0[s], SlotStatus::Available)
        } else {
            s0[s]
        } by {
            let old_ex = exists|j: int| 0 <= j < i && release_due(#[trigger] b0[keys@[j]@], t, g) && b0[keys@[j]@].slot_id@ == s;
            if due && b0[ki].slot_id@ == s {
                assert(release_due(b0[keys@[i as int]@], t, g) && b0[keys@[i as int]@].slot_id@ == s);
            } else {
                if exists|j: int| 0 <= j < i + 1 && release_due(#[trigger] b0[keys@[j]@], t, g) && b0[keys@[j]@].slot_id@ == s {
                    let j = choose|j: int| 0 <= j < i + 1 && release_due(#[trigger] b0[keys@[j]@], t, g) && b0[keys@[j]@].slot_id@ == s;
                    assert(j < i);
                    assert(old_ex);
                }
            }
        }
        i = i + 1;
    }
    assert forall|k: Seq<char>| #[trigger] b0.contains_key(k) implies db.bookings()[k] == if release_due(b0[k], t, g) {
        released(b0[k], t)
    } else {
        b0[k]
    } by {
        let j = choose|j: int| 0 <= j < keys@.len() && #[trigger] keys@[j]@ == k;
        assert(db.bookings()[keys@[j]@] == db.bookings()[k]);
    }
    assert forall|s: Seq<char>| #[trigger] s0.contains_key(s) implies db.slots()[s] == if exists|k: Seq<char>|
        b0.contains_key(k) && release_due(#[trigger] b0[k], t, g) && b0[k].slot_id@ == s {
        with_status(s0[s], SlotStatus::Available)
    } else {
        s0[s]
    } by {
        if exists|k: Seq<char>| b0.contains_key(k) && release_due(#[trigger] b0[k], t, g) && b0[k].slot_id@ == s {
            let k = choose|k: Seq<char>| b0.contains_key(k) && release_due(#[trigger] b0[k], t, g) && b0[k].slot_id@ == s;
            let j = choose|j: int| 0 <= j < keys@.len() && #[trigger] keys@[j]@ == k;
            assert(release_due(b0[keys@[j]@], t, g) && b0[keys@[j]@].slot_id@ == s);
        } else {
            if exists|j: int| 0 <= j < keys@.len() && release_due(#[trigger] b0[keys@[j]@], t, g) && b0[keys@[j]@].slot_id@ == s {
                let j = choose|j: int| 0 <= j < keys@.len() && release_due(#[trigger] b0[keys@[j]@], t, g) && b0[keys@[j]@].slot_id@ == s;
                assert(b0.contains_key(keys@[j]@));
            }
        }
    }
    assert forall|k: Seq<char>| #[trigger] b0.contains_key(k) && release_due(b0[k], t, g)
        implies group_served(db.waitlist(), b0[k].lot_id@, day_of(b0[k].start_time as int))
        && notices@.contains(Notice::AutoReleased { user_id: b0[k].user_id, booking_id: b0[k].id }) by {
        let j = choose|j: int| 0 <= j < keys@.len() && #[trigger] keys@[j]@ == k;
        assert(release_due(b0[keys@[j]@], t, g));
    }
    notices
}


/// Confirmed booking `b` starts between 25 and 30 whole minutes after `now`.
pub open spec fn reminder_due(b: Booking, now: int) -> bool {
    &&& b.status == BookingStatus::Confirmed
    &&& now + 1500 <= b.start_time
    &&& b.start_time < now + 1860
}

/// The reminder for booking `b`.
pub open spec fn reminder_for(b: Booking) -> Notice {
    Notice::Reminder { user_id: b.user_id, booking_id: b.id }
}

/// `n` is the reminder of some booking of `bookings` that is due one at `now`.
pub open spec fn is_due_reminder(bookings: Map<Seq<char>, Booking>, n: Notice, now: int) -> bool {
    exists|k: Seq<char>| #[trigger] bookings.contains_key(k) && reminder_due(bookings[k], now) && n == reminder_for(bookings[k])
}

/// One reminder tick at `now`: a reminder for each booking that is due one.
/// The store is not changed.
pub fn run_reminders(db: &Database, now: u64) -> (r: Vec<Notice>)
    requires
        db.wf(),
    ensures
        forall|k: Seq<char>| #[trigger] db.bookings().contains_key(k) && reminder_due(db.bookings()[k], now as int)
            ==> r@.contains(reminder_for(db.bookings()[k])),
        forall|i: int| 0 <= i < r@.len() ==> is_due_reminder(db.bookings(), #[trigger] r@[i], now as int),
        forall|i: int, j: int| 0 <= i < j < r@.len() ==> r@[i] != r@[j],
{
    proof { db.lemma_stored_ids(); }
    let keys = db.booking_ids();
    let mut out: Vec<Notice> = Vec::new();
    let mut i: usize = 0;
    while i < keys.len()
        invariant
            db.wf(),
            i <= keys@.len(),
            forall|j: int| 0 <= j < keys@.len() ==> db.bookings().contains_key(#[trigger] keys@[j]@),
            forall|k: Seq<char>| #[trigger] db.bookings().contains_key(k) ==> exists|j: int| 0 <= j < keys@.len() && #[trigger] keys@[j]@ == k,
            forall|j: int| 0 <= j < i && reminder_due(db.bookings()[#[trigger] keys@[j]@], now as int)
                ==> out@.contains(reminder_for(db.bookings()[keys@[j]@])),
            forall|a: int| 0 <= a < out@.len() ==> is_due_reminder(db.bookings(), #[trigger] out@[a], now as int),
            forall|b: int, c: int| 0 <= b < keys@.len() && 0 <= c < keys@.len() && #[trigger] keys@[b]@ == #[trigger] keys@[c]@ ==> b == c,
            forall|k: Seq<char>| #[trigger] db.bookings().contains_key(k) ==> db.bookings()[k].id@ == k,
            forall|a: int| 0 <= a < out@.len() ==> exists|j: int| 0 <= j < i && #[trigger] out@[a] == reminder_for(db.bookings()[keys@[j]@]),
            forall|a: int, c: int| 0 <= a < c < out@.len() ==> out@[a] != out@[c],
        decreases keys@.len() - i,
    {
        let ghost ki = keys@[i as int]@;
        assert(db.bookings().contains_key(ki));
        match db.get_booking(&keys[i]) {
            Some(b) => {
                if b.status == BookingStatus::Confirmed && b.start_time >= now && b.start_time - now >= 1500
                    && b.start_time - now < 1860 {
                    let ghost prev = out@;
                    out.push(Notice::Reminder { user_id: b.user_id.clone(), booking_id: b.id.clone() });
                    assert(out@[prev.len() as int] == reminder_for(db.bookings()[ki]));
                    assert forall|a: int| 0 <= a < out@.len() implies exists|j: int| 0 <= j < i + 1 && #[trigger] out@[a] == reminder_for(db.bookings()[keys@[j]@]) by {
                        if a < prev.len() {
                            assert(out@[a] == prev[a]);
                        } else {
                            assert(out@[a] == reminder_for(db.bookings()[keys@[i as int]@]));
                        }
                    }
                    assert forall|a: int, c: int| 0 <= a < c < out@.len() implies out@[a] != out@[c] by {
                        if c == prev.len() {
                            assert(out@[a] == prev[a]);
                            let j = choose|j: int| 0 <= j < i && #[trigger] prev[a] == reminder_for(db.bookings()[keys@[j]@]);
                            assert(keys@[j]@ != ki);
                            assert(db.bookings()[keys@[j]@].id@ == keys@[j]@);
                            assert(db.bookings()[ki].id@ == ki);
                        } else {
                            assert(out@[a] == prev[a] && out@[c] == prev[c]);
                        }
                    }
                    assert forall|j: int| 0 <= j < i && reminder_due(db.bookings()[#[trigger] keys@[j]@], now as int)
                        implies out@.contains(reminder_for(db.bookings()[keys@[j]@])) by {
                        let x = reminder_for(db.bookings()[keys@[j]@]);
                        assert(prev.contains(x));
                        let a = choose|a: int| 0 <= a < prev.len() && prev[a] == x;
                        assert(out@[a] == x);
                    }
                    assert forall|a: int| 0 <= a < out@.len() implies is_due_reminder(db.bookings(), #[trigger] out@[a], now as int) by {
                        if a < prev.len() {
                            assert(out@[a] == prev[a]);
                        } else {
                            assert(db.bookings().contains_key(ki) && reminder_due(db.bookings()[ki], now as int));
                        }
                    }
                }
            },
            None => {},
        }
        i = i + 1;
    }
    assert forall|k: Seq<char>| #[trigger] db.bookings().contains_key(k) && reminder_due(db.bookings()[k], now as int)
        implies out@.contains(reminder_for(db.bookings()[k])) by {
        let j = choose|j: int| 0 <= j < keys@.len() && #[trigger] keys@[j]@ == k;
        assert(reminder_due(db.bookings()[keys@[j]@], now as int));
    }
    out
}


/// One cleanup tick at `now`: every waitlist entry for a day before today is
/// removed; the rest stay as they are.
pub fn cleanup_expired_waitlist(db: &mut Database, now: u64)
    requires
        old(db).wf(),
    ensures
        final(db).wf(),
        Database::same_accounts(old(db), final(db)),
        final(db).slots() == old(db).slots(),
        final(db).bookings() == old(db).bookings(),
        forall|k: Seq<char>| #[trigger] final(db).waitlist().contains_key(k) <==> old(db).waitlist().contains_key(k)
            && old(db).waitlist()[k].date >= day_of(now as int),
        forall|k: Seq<char>| #[trigger] final(db).waitlist().contains_key(k) ==> final(db).waitlist()[k] == old(db).waitlist()[k],
{
    let today = now / SECONDS_PER_DAY;
    let ghost w0 = db.waitlist();
    let keys = db.waitlist_ids();
    let mut i: usize = 0;
    while i < keys.len()
        invariant
            db.wf(),
            Database::same_accounts(old(db), db),
            db.slots() == old(db).slots(),
            db.bookings() == old(db).bookings(),
            w0 == old(db).waitlist(),
            today == day_of(now as int),
            i <= keys@.len(),
            forall|j: int| 0 <= j < keys@.len() ==> w0.contains_key(#[trigger] keys@[j]@),
            forall|k: Seq<char>| #[trigger] w0.contains_key(k) ==> exists|j: int| 0 <= j < keys@.len() && #[trigger] keys@[j]@ == k,
            forall|a: int, c: int| 0 <= a < keys@.len() && 0 <= c < keys@.len() && #[trigger] keys@[a]@ == #[trigger] keys@[c]@ ==> a == c,
            forall|k: Seq<char>| #[trigger] db.waitlist().contains_key(k) ==> w0.contains_key(k) && db.waitlist()[k] == w0[k],
            forall|j: int| 0 <= j < i ==> (db.waitlist().contains_key(#[trigger] keys@[j]@) <==> w0[keys@[j]@].date >= today),
            forall|j: int| i <= j < keys@.len() ==> db.waitlist().contains_key(#[trigger] keys@[j]@),
        decreases keys@.len() - i,
    {
        let ghost ki = keys@[i as int]@;
        let stale = match db.get_waitlist_entry(&keys[i]) {
            Some(e) => e.date < today,
            None => false,
        };
        if stale {
            db.delete_waitlist_entry(&keys[i]);
        }
        i = i + 1;
    }
    assert forall|k: Seq<char>| #[trigger] db.waitlist().contains_key(k) <==> w0.contains_key(k) && w0[k].date >= day_of(now as int) by {
        if w0.contains_key(k) {
            let j = choose|j: int| 0 <= j < keys@.len() && #[trigger] keys@[j]@ == k;
            assert(db.waitlist().contains_key(keys@[j]@) <==> w0[keys@[j]@].date >= today);
        }
    }
}


/// Seconds between auto-release ticks.
pub const AUTO_RELEASE_PERIOD: u64 = 60;

/// Seconds between reminder ticks.
pub const REMINDER_PERIOD: u64 = 300;

/// Seconds between waitlist cleanup ticks.
pub const CLEANUP_PERIOD: u64 = 3600;

/// Which jobs run at `elapsed` seconds after start, for a driver that wakes
/// every auto-release period: auto-release, reminders, cleanup.
pub fn jobs_due(elapsed: u64) -> (r: (bool, bool, bool))
    ensures
        r == (elapsed % 60 == 0, elapsed % 300 == 0, elapsed % 3600 == 0),
{
    (elapsed % AUTO_RELEASE_PERIOD == 0, elapsed % REMINDER_PERIOD == 0, elapsed % CLEANUP_PERIOD == 0)
}

} // verus!
