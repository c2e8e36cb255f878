//! The booking state machine and the slot status it keeps in step.

use vstd::prelude::*;
use crate::calendar::{day_of, lemma_occurrence_bounds, matching_days, occurrence_days};
use crate::ids::new_id;
use crate::models::{
    clone_opt, Booking, BookingStatus, ParkingSlot, RecurrenceRule, SlotStatus, User, UserRole,
    SECONDS_PER_DAY,
};
use crate::db::{holds_slot, single_occupancy, slot_taken, Database};
use crate::waitlist::{cascade_step, waitlist_cascade, Notice};

verus! {

/// Why a lifecycle transition was refused.
#[derive(Clone, Copy, Debug, PartialEq, Eq, Structural)]
pub enum BookingError {
    /// The slot or booking does not exist.
    NotFound,
    /// The slot is not available.
    SlotUnavailable,
    /// The slot is kept for another department.
    DepartmentRestricted,
    /// The booking's current status does not allow the transition.
    InvalidStatus,
    /// The window ends at or before its start.
    InvalidTime,
    /// The window starts more than a day in the past.
    PastBooking,
}

/// What a caller asks to book.
#[derive(Debug)]
pub struct BookingRequest {
    pub lot_id: String,
    pub slot_id: String,
    pub start_time: u64,
    pub end_time: u64,
    pub notes: Option<String>,
    /// Weekdays (Monday first) and the last day number of a weekly repetition.
    pub recurrence: Option<([bool; 7], u64)>,
}

/// Slot `slot` is kept for a department that `user` neither belongs to nor may override.
pub open spec fn department_blocked(slot: ParkingSlot, user: User) -> bool {
    match slot.reserved_for_department {
        Some(d) => {
            let own: Seq<char> = match user.department {
                Some(u) => u@,
                None => Seq::empty(),
            };
            own != d@ && user.role != UserRole::Admin && user.role != UserRole::SuperAdmin
        },
        None => false,
    }
}

/// The outcome of the checks that a new booking must pass, in the order they are made.
pub open spec fn admission(
    slots: Map<Seq<char>, ParkingSlot>,
    bookings: Map<Seq<char>, Booking>,
    user: User,
    req: BookingRequest,
    now: int,
) -> Result<(), BookingError> {
    if !slots.contains_key(req.slot_id@) {
        Err(BookingError::NotFound)
    } else if slots[req.slot_id@].status != SlotStatus::Available || slot_taken(bookings, req.slot_id@) {
        Err(BookingError::SlotUnavailable)
    } else if department_blocked(slots[req.slot_id@], user) {
        Err(BookingError::DepartmentRestricted)
    } else if req.end_time <= req.start_time {
        Err(BookingError::InvalidTime)
    } else if req.start_time + 86400 < now {
        Err(BookingError::PastBooking)
    } else {
        Ok(())
    }
}

/// Once a booking has been admitted on a slot and the slot is reserved for
/// it, every further request for that slot is refused as unavailable.
pub proof fn lemma_single_occupancy(
    slots: Map<Seq<char>, ParkingSlot>,
    bookings: Map<Seq<char>, Booking>,
    first: BookingRequest,
    first_user: User,
    second: BookingRequest,
    second_user: User,
    later_bookings: Map<Seq<char>, Booking>,
    now: int,
    later: int,
)
    requires
        admission(slots, bookings, first_user, first, now) is Ok,
        second.slot_id@ == first.slot_id@,
    ensures
        admission(
            slots.insert(first.slot_id@, ParkingSlot { status: SlotStatus::Reserved, ..slots[first.slot_id@] }),
            later_bookings,
            second_user,
            second,
            later,
        ) == Err::<(), BookingError>(BookingError::SlotUnavailable),
{
}

/// Admitting a booking keeps every slot held by one booking at most: the
/// new booking's slot was held by none, and no other slot gains a holder.
pub proof fn lemma_admission_keeps_single_occupancy(bookings: Map<Seq<char>, Booking>, t: Booking)
    requires
        single_occupancy(bookings),
        !slot_taken(bookings, t.slot_id@),
    ensures
        single_occupancy(bookings.insert(t.id@, t)),
{
    let m = bookings.insert(t.id@, t);
    assert forall|a: Seq<char>, c: Seq<char>|
        #[trigger] m.contains_key(a) && #[trigger] m.contains_key(c) && holds_slot(m[a], m[c].slot_id@)
            && holds_slot(m[c], m[c].slot_id@) implies a == c by {
        if a != t.id@ && c != t.id@ {
            assert(bookings.contains_key(a) && bookings.contains_key(c));
        } else if a == t.id@ && c != t.id@ {
            assert(bookings.contains_key(c) && holds_slot(bookings[c], t.slot_id@));
        } else if a != t.id@ && c == t.id@ {
            assert(bookings.contains_key(a) && holds_slot(bookings[a], t.slot_id@));
        }
    }
}

/// `c` is the instance of template `t` on day `day`, created at `now`.
pub open spec fn is_instance(c: Booking, t: Booking, rule: RecurrenceRule, day: int, now: int) -> bool {
    &&& c.user_id == t.user_id
    &&& c.lot_id == t.lot_id
    &&& c.slot_id == t.slot_id
    &&& c.status == BookingStatus::Confirmed
    &&& c.start_time == day * 86400 + t.start_time % 86400
    &&& c.end_time == c.start_time + (t.end_time - t.start_time)
    &&& c.checked_in_at is None
    &&& c.created_at == now
    &&& c.updated_at == now
    &&& c.notes == t.notes
    &&& c.recurrence == Some(RecurrenceRule { weekdays: rule.weekdays, until: rule.until, parent_id: Some(t.id) })
}

/// The instances of the recurring template `t`: one per matching weekday after
/// its start day up to the rule's last day, each under a fresh id, each
/// `Confirmed` and linked to `t`. Slot availability is not checked per day.
pub fn expand_recurrence(t: &Booking, rule: &RecurrenceRule, now: u64) -> (r: Vec<Booking>)
    requires
        t.start_time < t.end_time,
        rule.until < u64::MAX,
        (rule.until + 1) * 86400 + (t.end_time - t.start_time) <= u64::MAX,
    ensures
        r@.len() == occurrence_days(rule.weekdays, day_of(t.start_time as int) + 1, rule.until as int).len(),
        forall|i: int| 0 <= i < r@.len() ==> is_instance(#[trigger] r@[i], *t, *rule,
            occurrence_days(rule.weekdays, day_of(t.start_time as int) + 1, rule.until as int)[i], now as int),
{
    let days = matching_days(rule.weekdays, t.start_time / SECONDS_PER_DAY, rule.until);
    let ghost ds = occurrence_days(rule.weekdays, day_of(t.start_time as int) + 1, rule.until as int);
    proof { lemma_occurrence_bounds(rule.weekdays, day_of(t.start_time as int) + 1, rule.until as int); }
    let duration = t.end_time - t.start_time;
    let time_of_day = t.start_time % SECONDS_PER_DAY;
    let mut out: Vec<Booking> = Vec::new();
    let mut i: usize = 0;
    while i < days.len()
        invariant
            days@.len() == ds.len(),
            forall|j: int| 0 <= j < days@.len() ==> days@[j] == #[trigger] ds[j],
            forall|j: int| 0 <= j < ds.len() ==> #[trigger] ds[j] <= rule.until,
            duration == t.end_time - t.start_time,
            time_of_day == t.start_time % 86400,
            (rule.until + 1) * 86400 + duration <= u64::MAX,
            i <= days@.len(),
            out@.len() == i,
            forall|j: int| 0 <= j < i ==> is_instance(#[trigger] out@[j], *t, *rule, ds[j], now as int),
        decreases days@.len() - i,
    {
        let day = days[i];
        assert(day == ds[i as int]);
        assert(day <= rule.until);
        assert(day * 86400 + time_of_day + duration <= u64::MAX) by (nonlinear_arith)
            requires
                day <= rule.until,
                time_of_day < 86400,
                (rule.until + 1) * 86400 + duration <= u64::MAX,
        ;
        let start = day * SECONDS_PER_DAY + time_of_day;
        let child = Booking {
            id: new_id(),
            user_id: t.user_id.clone(),
            lot_id: t.lot_id.clone(),
            slot_id: t.slot_id.clone(),
            status: BookingStatus::Confirmed,
            start_time: start,
            end_time: start + duration,
            checked_in_at: None,
            created_at: now,
            updated_at: now,
            notes: clone_opt(&t.notes),
            recurrence: Some(RecurrenceRule {
                weekdays: rule.weekdays,
                until: rule.until,
                parent_id: Some(t.id.clone()),
            }),
        };
        let ghost prev = out@;
        out.push(child);
        assert forall|j: int| 0 <= j < i + 1 implies is_instance(#[trigger] out@[j], *t, *rule, ds[j], now as int) by {
            if j < i {
                assert(out@[j] == prev[j]);
            }
        }
        i = i + 1;
    }
    out
}


/// `m` with each booking of `s` stored under its id, in order.
pub open spec fn insert_all(m: Map<Seq<char>, Booking>, s: Seq<Booking>) -> Map<Seq<char>, Booking>
    decreases s.len(),
{
    if s.len() == 0 {
        m
    } else {
        insert_all(m, s.drop_last()).insert(s.last().id@, s.last())
    }
}

/// The rule that a request's repetition becomes on its template booking.
pub open spec fn template_rule(rec: Option<([bool; 7], u64)>) -> Option<RecurrenceRule> {
    match rec {
        Some((w, until)) => Some(RecurrenceRule { weekdays: w, until, parent_id: None }),
        None => None,
    }
}

/// Slot `s` with status `status`.
pub open spec fn with_status(s: ParkingSlot, status: SlotStatus) -> ParkingSlot {
    ParkingSlot { status, ..s }
}

/// The request leaves room for every instance of its repetition in a `u64` instant.
pub open spec fn fits_instants(req: BookingRequest) -> bool {
    match req.recurrence {
        Some((w, until)) => req.start_time < req.end_time ==> until < u64::MAX && (until + 1) * 86400 + (
        req.end_time - req.start_time) <= u64::MAX,
        None => true,
    }
}

/// Books a slot for `user`. Refused exactly as `admission` says; on success the
/// booking is stored `Confirmed`, its slot becomes `Reserved`, and a weekly
/// repetition adds its instances, all in one step.
pub fn create_booking(db: &mut Database, user: &User, req: BookingRequest, now: u64) -> (r: Result<(Booking, Vec<Booking>), BookingError>)
    requires
        old(db).wf(),
        fits_instants(req),
    ensures
        final(db).wf(),
        Database::same_accounts(old(db), final(db)),
        final(db).waitlist() == old(db).waitlist(),
        single_occupancy(old(db).bookings()) && req.recurrence is None ==> single_occupancy(final(db).bookings()),
        match r {
            Err(e) => admission(old(db).slots(), old(db).bookings(), *user, req, now as int) == Err::<(), BookingError>(e)
                && final(db).slots() == old(db).slots() && final(db).bookings() == old(db).bookings(),
            Ok((t, children)) => {
                &&& admission(old(db).slots(), old(db).bookings(), *user, req, now as int) is Ok
                &&& !slot_taken(old(db).bookings(), req.slot_id@)
                &&& t.user_id == user.id
                &&& t.lot_id == req.lot_id
                &&& t.slot_id == req.slot_id
                &&& t.status == BookingStatus::Confirmed
                &&& t.start_time == req.start_time
                &&& t.end_time == req.end_time
                &&& t.checked_in_at is None
                &&& t.created_at == now
                &&& t.updated_at == now
                &&& t.notes == req.notes
                &&& t.recurrence == template_rule(req.recurrence)
                &&& final(db).slots() == old(db).slots().insert(req.slot_id@, with_status(old(db).slots()[req.slot_id@], SlotStatus::Reserved))
                &&& final(db).bookings() == insert_all(old(db).bookings().insert(t.id@, t), children@)
                &&& match t.recurrence {
                    None => children@.len() == 0,
                    Some(rule) => {
                        let days = occurrence_days(rule.weekdays, day_of(t.start_time as int) + 1, rule.until as int);
                        &&& children@.len() == days.len()
                        &&& forall|i: int| 0 <= i < children@.len() ==> is_instance(#[trigger] children@[i], t, rule, days[i], now as int)
                    },
                }
            },
        },
{
    let slot = match db.get_parking_slot(&req.slot_id) {
        Some(s) => s,
        None => return Err(BookingError::NotFound),
    };
    if slot.status != SlotStatus::Available || db.slot_occupied(&req.slot_id) {
        return Err(BookingError::SlotUnavailable);
    }
    match &slot.reserved_for_department {
        Some(d) => {
            let same = match &user.department {
                Some(own) => *own == *d,
                None => {
                    let e = d.as_str().is_empty();
                    proof {
                        if e {
                            assert(d@ =~= Seq::<char>::empty());
                        }
                    }
                    e
                },
            };
            assert(same == (match user.department { Some(u) => u@, None => Seq::<char>::empty() } == d@));
            if !same && user.role != UserRole::Admin && user.role != UserRole::SuperAdmin {
                return Err(BookingError::DepartmentRestricted);
            }
        },
        None => {},
    }
    if req.end_time <= req.start_time {
        return Err(BookingError::InvalidTime);
    }
    if now > SECONDS_PER_DAY && req.start_time < now - SECONDS_PER_DAY {
        return Err(BookingError::PastBooking);
    }
    let mut reserved = slot.clone();
    reserved.status = SlotStatus::Reserved;
    let rule = match req.recurrence {
        Some((w, until)) => Some(RecurrenceRule { weekdays: w, until, parent_id: None }),
        None => None,
    };
    let t = Booking {
        id: new_id(),
        user_id: user.id.clone(),
        lot_id: req.lot_id,
        slot_id: req.slot_id,
        status: BookingStatus::Confirmed,
        start_time: req.start_time,
        end_time: req.end_time,
        checked_in_at: None,
        created_at: now,
        updated_at: now,
        notes: req.notes,
        recurrence: rule,
    };
    let children = match &t.recurrence {
        Some(rule) => expand_recurrence(&t, rule, now),
        None => Vec::new(),
    };
    db.save_booking(t.clone());
    db.save_parking_slot(reserved);
    let ghost base = db.bookings();
    let mut i: usize = 0;
    while i < children.len()
        invariant
            db.wf(),
            i <= children@.len(),
            db.bookings() == insert_all(base, children@.subrange(0, i as int)),
            Database::same_accounts(old(db), db),
            db.waitlist() == old(db).waitlist(),
            db.slots() == old(db).slots().insert(t.slot_id@, with_status(old(db).slots()[t.slot_id@], SlotStatus::Reserved)),
        decreases children@.len() - i,
    {
        db.save_booking(children[i].clone());
        assert(children@.subrange(0, i + 1).drop_last() =~= children@.subrange(0, i as int));
        i = i + 1;
    }
    assert(children@.subrange(0, children@.len() as int) =~= children@);
    proof {
        if single_occupancy(old(db).bookings()) && req.recurrence is None {
            assert(children@.len() == 0);
            lemma_admission_keeps_single_occupancy(old(db).bookings(), t);
        }
    }
    Ok((t, children))
}

/// Checks in to booking `id` at `now`: allowed only from `Confirmed`; the
/// booking becomes `Active` and its slot `Occupied`.
pub fn check_in(db: &mut Database, id: &String, now: u64) -> (r: Result<Booking, BookingError>)
    requires
        old(db).wf(),
    ensures
        final(db).wf(),
        Database::same_accounts(old(db), final(db)),
        final(db).waitlist() == old(db).waitlist(),
        !old(db).bookings().contains_key(id@) ==> r == Err::<Booking, BookingError>(BookingError::NotFound),
        old(db).bookings().contains_key(id@) && old(db).bookings()[id@].status != BookingStatus::Confirmed
            ==> r == Err::<Booking, BookingError>(BookingError::InvalidStatus),
        old(db).bookings().contains_key(id@) && old(db).bookings()[id@].status == BookingStatus::Confirmed ==> r is Ok,
        r is Err ==> final(db).bookings() == old(db).bookings() && final(db).slots() == old(db).slots(),
        r matches Ok(b) ==> {
            let b0 = old(db).bookings()[id@];
            &&& old(db).bookings().contains_key(id@)
            &&& b0.status == BookingStatus::Confirmed
            &&& b == Booking { status: BookingStatus::Active, checked_in_at: Some(now), updated_at: now, ..b0 }
            &&& final(db).bookings() == old(db).bookings().insert(id@, b)
            &&& final(db).slots() == if old(db).slots().contains_key(b0.slot_id@) {
                old(db).slots().insert(b0.slot_id@, with_status(old(db).slots()[b0.slot_id@], SlotStatus::Occupied))
            } else {
                old(db).slots()
            }
        },
{
    let b = match db.get_booking(id) {
        Some(b) => b,
        None => return Err(BookingError::NotFound),
    };
    if b.status != BookingStatus::Confirmed {
        return Err(BookingError::InvalidStatus);
    }
    let mut updated = b.clone();
    updated.status = BookingStatus::Active;
    updated.checked_in_at = Some(now);
    updated.updated_at = now;
    let slot_id = b.slot_id.clone();
    db.save_booking(updated.clone());
    db.update_slot_status(&slot_id, SlotStatus::Occupied);
    Ok(updated)
}

/// Cancels booking `id` at `now`: allowed from any non-terminal status; the
/// booking becomes `Cancelled`, its slot `Available`, and the waitlist of its
/// lot and day is cascaded. Returns the cascade's notice, if any.
pub fn cancel_booking(db: &mut Database, id: &String, now: u64) -> (r: Result<Option<Notice>, BookingError>)
    requires
        old(db).wf(),
    ensures
        final(db).wf(),
        Database::same_accounts(old(db), final(db)),
        !old(db).bookings().contains_key(id@) ==> r == Err::<Option<Notice>, BookingError>(BookingError::NotFound),
        old(db).bookings().contains_key(id@) && old(db).bookings()[id@].status.spec_is_terminal()
            ==> r == Err::<Option<Notice>, BookingError>(BookingError::InvalidStatus),
        old(db).bookings().contains_key(id@) && !old(db).bookings()[id@].status.spec_is_terminal() ==> r is Ok,
        r is Err ==> final(db).bookings() == old(db).bookings() && final(db).slots() == old(db).slots()
            && final(db).waitlist() == old(db).waitlist(),
        r matches Ok(n) ==> {
            let b0 = old(db).bookings()[id@];
            &&& old(db).bookings().contains_key(id@)
            &&& !b0.status.spec_is_terminal()
            &&& final(db).bookings() == old(db).bookings().insert(id@, Booking { status: BookingStatus::Cancelled, updated_at: now, ..b0 })
            &&& final(db).slots() == if old(db).slots().contains_key(b0.slot_id@) {
                old(db).slots().insert(b0.slot_id@, with_status(old(db).slots()[b0.slot_id@], SlotStatus::Available))
            } else {
                old(db).slots()
            }
            &&& cascade_step(old(db).waitlist(), final(db).waitlist(), b0.lot_id@, day_of(b0.start_time as int), n)
        },
{
    let b = match db.get_booking(id) {
        Some(b) => b,
        None => return Err(BookingError::NotFound),
    };
    if b.status.is_terminal() {
        return Err(BookingError::InvalidStatus);
    }
    let mut updated = b.clone();
    updated.status = BookingStatus::Cancelled;
    updated.updated_at = now;
    let slot_id = b.slot_id.clone();
    let lot_id = b.lot_id.clone();
    let day = b.start_time / SECONDS_PER_DAY;
    db.save_booking(updated);
    db.update_slot_status(&slot_id, SlotStatus::Available);
    let notice = waitlist_cascade(db, &lot_id, day);
    Ok(notice)
}


/// The notice that tells the owner of booking `b` that it is confirmed.
pub fn confirmation_notice(b: &Booking) -> (r: Notice)
    ensures
        r == (Notice::BookingConfirmed { user_id: b.user_id, booking_id: b.id }),
{
    Notice::BookingConfirmed { user_id: b.user_id.clone(), booking_id: b.id.clone() }
}

} // verus!
