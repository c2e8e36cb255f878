use parkhub::calendar::{day_number, matching_days, weekday};
use parkhub::lifecycle::{cancel_booking, check_in, confirmation_notice, create_booking, BookingError, BookingRequest};
use parkhub::models::{Booking, BookingStatus, ParkingSlot, SlotStatus, User, UserRole, WaitlistEntry};
use parkhub::db::Database;
use parkhub::scheduler::{cleanup_expired_waitlist, run_auto_release, run_reminders};
use parkhub::waitlist::{waitlist_cascade, Notice};

// 2024-01-01 00:00:00 UTC, a Monday.
const MONDAY: u64 = 1_704_067_200;
const DAY: u64 = 86_400;

fn member(id: &str, department: Option<&str>, role: UserRole) -> User {
    User {
        id: id.to_string(),
        username: format!("{}-name", id),
        email: format!("{}@x.org", id),
        name: id.to_string(),
        password_hash: String::new(),
        role,
        is_active: true,
        department: department.map(|d| d.to_string()),
    }
}

fn slot(id: &str, lot: &str, status: SlotStatus, department: Option<&str>) -> ParkingSlot {
    ParkingSlot {
        id: id.to_string(),
        lot_id: lot.to_string(),
        slot_number: 1,
        status,
        current_booking: None,
        reserved_for_department: department.map(|d| d.to_string()),
    }
}

fn request(slot_id: &str, start: u64, end: u64) -> BookingRequest {
    BookingRequest {
        lot_id: "lot".to_string(),
        slot_id: slot_id.to_string(),
        start_time: start,
        end_time: end,
        notes: None,
        recurrence: None,
    }
}

fn entry(id: &str, lot: &str, date: u64, created_at: u64) -> WaitlistEntry {
    WaitlistEntry {
        id: id.to_string(),
        lot_id: lot.to_string(),
        user_id: format!("user-{}", id),
        date,
        created_at,
        notified: false,
    }
}

fn confirmed(id: &str, slot_id: &str, start: u64) -> Booking {
    Booking {
        id: id.to_string(),
        user_id: "u1".to_string(),
        lot_id: "lot".to_string(),
        slot_id: slot_id.to_string(),
        status: BookingStatus::Confirmed,
        start_time: start,
        end_time: start + 3600,
        checked_in_at: None,
        created_at: start - 7200,
        updated_at: start - 7200,
        notes: None,
        recurrence: None,
    }
}

fn notified(repo: &Database, id: &str) -> bool {
    repo.get_waitlist_entry(&id.to_string()).unwrap().notified
}

#[test]
fn create_reserves_the_slot() {
    let mut repo = Database::new();
    repo.save_parking_slot(slot("s1", "lot", SlotStatus::Available, None));
    let u = member("u1", None, UserRole::User);
    let now = MONDAY;
    let (b, children) = create_booking(&mut repo, &u, request("s1", now + 3600, now + 7200), now).unwrap();
    assert_eq!(b.status, BookingStatus::Confirmed);
    assert_eq!(b.user_id, "u1");
    assert_eq!(b.created_at, now);
    assert!(children.is_empty());
    assert_eq!(repo.get_parking_slot(&"s1".to_string()).unwrap().status, SlotStatus::Reserved);
    assert_eq!(repo.get_booking(&b.id).unwrap().status, BookingStatus::Confirmed);
}

#[test]
fn only_one_of_many_creates_wins() {
    let mut repo = Database::new();
    repo.save_parking_slot(slot("s1", "lot", SlotStatus::Available, None));
    let now = MONDAY;
    let mut ok = 0;
    let mut refused = 0;
    for i in 0..8 {
        let u = member(&format!("u{}", i), None, UserRole::User);
        match create_booking(&mut repo, &u, request("s1", now + 3600, now + 7200), now) {
            Ok(_) => ok += 1,
            Err(BookingError::SlotUnavailable) => refused += 1,
            Err(e) => panic!("unexpected {:?}", e),
        }
    }
    assert_eq!(ok, 1);
    assert_eq!(refused, 7);
    assert_eq!(repo.stats().bookings, 1);
}

#[test]
fn create_errors() {
    let mut repo = Database::new();
    repo.save_parking_slot(slot("s1", "lot", SlotStatus::Available, None));
    repo.save_parking_slot(slot("s2", "lot", SlotStatus::Maintenance, None));
    repo.save_parking_slot(slot("s3", "lot", SlotStatus::Available, Some("sales")));
    let u = member("u1", Some("dev"), UserRole::User);
    let now = MONDAY + 10 * DAY;
    assert_eq!(create_booking(&mut repo, &u, request("nope", now, now + 60), now).unwrap_err(), BookingError::NotFound);
    assert_eq!(create_booking(&mut repo, &u, request("s2", now, now + 60), now).unwrap_err(), BookingError::SlotUnavailable);
    assert_eq!(create_booking(&mut repo, &u, request("s3", now, now + 60), now).unwrap_err(), BookingError::DepartmentRestricted);
    assert_eq!(create_booking(&mut repo, &u, request("s1", now, now), now).unwrap_err(), BookingError::InvalidTime);
    assert_eq!(create_booking(&mut repo, &u, request("s1", now - DAY - 1, now), now).unwrap_err(), BookingError::PastBooking);
    assert_eq!(repo.get_parking_slot(&"s1".to_string()).unwrap().status, SlotStatus::Available);
    assert_eq!(repo.stats().bookings, 0);
    assert!(create_booking(&mut repo, &u, request("s1", now - DAY, now), now).is_ok());
}

#[test]
fn department_slot_admits_members_and_admins() {
    let mut repo = Database::new();
    repo.save_parking_slot(slot("s1", "lot", SlotStatus::Available, Some("sales")));
    repo.save_parking_slot(slot("s2", "lot", SlotStatus::Available, Some("sales")));
    let now = MONDAY;
    let seller = member("u1", Some("sales"), UserRole::User);
    let admin = member("u2", None, UserRole::SuperAdmin);
    assert!(create_booking(&mut repo, &seller, request("s1", now + 60, now + 120), now).is_ok());
    assert!(create_booking(&mut repo, &admin, request("s2", now + 60, now + 120), now).is_ok());
}

#[test]
fn recurrence_expands_to_matching_weekdays() {
    let mut repo = Database::new();
    repo.save_parking_slot(slot("s1", "lot", SlotStatus::Available, None));
    let u = member("u1", None, UserRole::User);
    let start = MONDAY + 9 * 3600;
    let mut weekdays = [false; 7];
    weekdays[0] = true;
    weekdays[2] = true;
    let until = day_number(start) + 14;
    let mut req = request("s1", start, start + 3600);
    req.recurrence = Some((weekdays, until));
    let (t, children) = create_booking(&mut repo, &u, req, MONDAY).unwrap();
    assert_eq!(children.len(), 4);
    let starts: Vec<u64> = children.iter().map(|c| c.start_time).collect();
    assert_eq!(starts, vec![start + 2 * DAY, start + 7 * DAY, start + 9 * DAY, start + 14 * DAY]);
    for c in &children {
        assert_eq!(c.status, BookingStatus::Confirmed);
        assert_eq!(c.end_time, c.start_time + 3600);
        assert_eq!(c.recurrence.as_ref().unwrap().parent_id, Some(t.id.clone()));
        assert_eq!(repo.get_booking(&c.id).unwrap().start_time, c.start_time);
    }
    assert_eq!(t.recurrence.as_ref().unwrap().parent_id, None);
    assert_eq!(repo.stats().bookings, 5);
}

#[test]
fn calendar_helpers() {
    assert_eq!(weekday(day_number(MONDAY)), 0);
    assert_eq!(weekday(day_number(0)), 3);
    assert_eq!(day_number(MONDAY + DAY - 1), 19723);
    let mut w = [false; 7];
    w[4] = true;
    assert_eq!(matching_days(w, 19723, 19737), vec![19727, 19734]);
    assert!(matching_days(w, 19723, 19723).is_empty());
}

#[test]
fn check_in_moves_to_active() {
    let mut repo = Database::new();
    repo.save_parking_slot(slot("s1", "lot", SlotStatus::Reserved, None));
    repo.save_booking(confirmed("b1", "s1", MONDAY));
    let b = check_in(&mut repo, &"b1".to_string(), MONDAY + 60).unwrap();
    assert_eq!(b.status, BookingStatus::Active);
    assert_eq!(b.checked_in_at, Some(MONDAY + 60));
    assert_eq!(repo.get_parking_slot(&"s1".to_string()).unwrap().status, SlotStatus::Occupied);
    assert_eq!(check_in(&mut repo, &"b1".to_string(), MONDAY + 90).unwrap_err(), BookingError::InvalidStatus);
    assert_eq!(check_in(&mut repo, &"zz".to_string(), MONDAY).unwrap_err(), BookingError::NotFound);
}

#[test]
fn cancel_frees_slot_and_cascades() {
    let mut repo = Database::new();
    repo.save_parking_slot(slot("s1", "lot", SlotStatus::Reserved, None));
    repo.save_booking(confirmed("b1", "s1", MONDAY + 3600));
    let day = day_number(MONDAY);
    repo.save_waitlist_entry(entry("w1", "lot", day, 10));
    let n = cancel_booking(&mut repo, &"b1".to_string(), MONDAY).unwrap();
    assert_eq!(
        n,
        Some(Notice::WaitlistSlotAvailable {
            user_id: "user-w1".to_string(),
            entry_id: "w1".to_string(),
            lot_id: "lot".to_string(),
            date: day,
        })
    );
    assert!(notified(&repo, "w1"));
    assert_eq!(repo.get_booking(&"b1".to_string()).unwrap().status, BookingStatus::Cancelled);
    assert_eq!(repo.get_parking_slot(&"s1".to_string()).unwrap().status, SlotStatus::Available);
    assert_eq!(cancel_booking(&mut repo, &"b1".to_string(), MONDAY).unwrap_err(), BookingError::InvalidStatus);
    assert_eq!(cancel_booking(&mut repo, &"zz".to_string(), MONDAY).unwrap_err(), BookingError::NotFound);
}

#[test]
fn auto_release_after_grace() {
    let mut repo = Database::new();
    let now = MONDAY + 12 * 3600;
    repo.save_parking_slot(slot("s1", "lot", SlotStatus::Reserved, None));
    repo.save_parking_slot(slot("s2", "lot", SlotStatus::Reserved, None));
    repo.save_booking(confirmed("late", "s1", now - 31 * 60));
    repo.save_booking(confirmed("fresh", "s2", now - 29 * 60));
    let day = day_number(now);
    repo.save_waitlist_entry(entry("w2", "lot", day, 20));
    repo.save_waitlist_entry(entry("w1", "lot", day, 10));
    let notices = run_auto_release(&mut repo, now, 30);
    assert_eq!(repo.get_booking(&"late".to_string()).unwrap().status, BookingStatus::AutoReleased);
    assert_eq!(repo.get_booking(&"late".to_string()).unwrap().updated_at, now);
    assert_eq!(repo.get_booking(&"fresh".to_string()).unwrap().status, BookingStatus::Confirmed);
    assert_eq!(repo.get_parking_slot(&"s1".to_string()).unwrap().status, SlotStatus::Available);
    assert_eq!(repo.get_parking_slot(&"s2".to_string()).unwrap().status, SlotStatus::Reserved);
    assert!(notified(&repo, "w1"));
    assert!(!notified(&repo, "w2"));
    assert!(notices.contains(&Notice::AutoReleased { user_id: "u1".to_string(), booking_id: "late".to_string() }));
    assert_eq!(notices.len(), 2);
}

#[test]
fn auto_release_disabled_or_checked_in() {
    let mut repo = Database::new();
    let now = MONDAY + 12 * 3600;
    let mut b = confirmed("b1", "s1", now - 3 * 3600);
    repo.save_booking(confirmed("b0", "s1", now - 3 * 3600));
    assert!(run_auto_release(&mut repo, now, 0).is_empty());
    assert_eq!(repo.get_booking(&"b0".to_string()).unwrap().status, BookingStatus::Confirmed);
    b.checked_in_at = Some(now - 3 * 3600);
    repo.save_booking(b);
    let notices = run_auto_release(&mut repo, now, 30);
    assert_eq!(notices.len(), 1);
    assert_eq!(repo.get_booking(&"b1".to_string()).unwrap().status, BookingStatus::Confirmed);
    assert_eq!(repo.get_booking(&"b0".to_string()).unwrap().status, BookingStatus::AutoReleased);
}

#[test]
fn waitlist_is_first_in_first_out() {
    let mut repo = Database::new();
    let lot = "lot".to_string();
    let day = 19723;
    repo.save_waitlist_entry(entry("e1", "lot", day, 100));
    repo.save_waitlist_entry(entry("e2", "lot", day, 200));
    repo.save_waitlist_entry(entry("e3", "lot", day, 300));
    repo.save_waitlist_entry(entry("x", "other", day, 1));
    let n = waitlist_cascade(&mut repo, &lot, day);
    assert!(matches!(n, Some(Notice::WaitlistSlotAvailable { ref entry_id, .. }) if entry_id == "e1"));
    assert!(notified(&repo, "e1") && !notified(&repo, "e2") && !notified(&repo, "e3"));
    assert_eq!(waitlist_cascade(&mut repo, &lot, day), None);
    assert!(!notified(&repo, "e2"));
    assert!(repo.delete_waitlist_entry(&"e1".to_string()));
    let n = waitlist_cascade(&mut repo, &lot, day);
    assert!(matches!(n, Some(Notice::WaitlistSlotAvailable { ref entry_id, .. }) if entry_id == "e2"));
    assert!(notified(&repo, "e2") && !notified(&repo, "e3") && !notified(&repo, "x"));
    assert_eq!(waitlist_cascade(&mut repo, &lot, day + 1), None);
}

#[test]
fn cleanup_drops_past_days() {
    let mut repo = Database::new();
    let now = MONDAY + 5 * 3600;
    let today = day_number(now);
    repo.save_waitlist_entry(entry("old", "lot", today - 1, 1));
    repo.save_waitlist_entry(entry("now", "lot", today, 2));
    repo.save_waitlist_entry(entry("later", "lot", today + 3, 3));
    cleanup_expired_waitlist(&mut repo, now);
    assert!(repo.get_waitlist_entry(&"old".to_string()).is_none());
    assert!(repo.get_waitlist_entry(&"now".to_string()).is_some());
    assert!(repo.get_waitlist_entry(&"later".to_string()).is_some());
}

#[test]
fn reminders_in_window() {
    let mut repo = Database::new();
    let now = MONDAY;
    repo.save_booking(confirmed("at25", "s1", now + 25 * 60));
    repo.save_booking(confirmed("at30", "s2", now + 30 * 60 + 59));
    repo.save_booking(confirmed("at31", "s3", now + 31 * 60));
    repo.save_booking(confirmed("at24", "s4", now + 24 * 60 + 59));
    let mut active = confirmed("act", "s5", now + 27 * 60);
    active.status = BookingStatus::Active;
    repo.save_booking(active);
    let notices = run_reminders(&repo, now);
    assert_eq!(notices.len(), 2);
    assert!(notices.contains(&Notice::Reminder { user_id: "u1".to_string(), booking_id: "at25".to_string() }));
    assert!(notices.contains(&Notice::Reminder { user_id: "u1".to_string(), booking_id: "at30".to_string() }));
}

#[test]
fn held_slot_is_refused_even_if_marked_available() {
    let mut repo = Database::new();
    repo.save_parking_slot(slot("s1", "lot", SlotStatus::Available, None));
    repo.save_booking(confirmed("b0", "s1", MONDAY + 3600));
    let u = member("u1", None, UserRole::User);
    assert_eq!(
        create_booking(&mut repo, &u, request("s1", MONDAY + 7200, MONDAY + 9000), MONDAY).unwrap_err(),
        BookingError::SlotUnavailable
    );
    let mut done = confirmed("b0", "s1", MONDAY + 3600);
    done.status = BookingStatus::Completed;
    repo.save_booking(done);
    assert!(create_booking(&mut repo, &u, request("s1", MONDAY + 7200, MONDAY + 9000), MONDAY).is_ok());
}

#[test]
fn pending_booking_can_be_cancelled() {
    let mut repo = Database::new();
    let mut b = confirmed("b1", "s1", MONDAY);
    b.status = BookingStatus::Pending;
    repo.save_booking(b);
    assert_eq!(cancel_booking(&mut repo, &"b1".to_string(), MONDAY).unwrap(), None);
    assert_eq!(repo.get_booking(&"b1".to_string()).unwrap().status, BookingStatus::Cancelled);
}

#[test]
fn auto_release_notices_are_distinct() {
    let mut repo = Database::new();
    let now = MONDAY + 12 * 3600;
    let day = day_number(now);
    repo.save_booking(confirmed("a", "s1", now - 3600));
    repo.save_booking(confirmed("b", "s2", now - 3600));
    repo.save_waitlist_entry(entry("w1", "lot", day, 10));
    repo.save_waitlist_entry(entry("w2", "lot", day, 20));
    let notices = run_auto_release(&mut repo, now, 30);
    assert_eq!(notices.len(), 3);
    for i in 0..notices.len() {
        for j in i + 1..notices.len() {
            assert_ne!(notices[i], notices[j]);
        }
    }
    assert!(notified(&repo, "w1"));
    assert!(!notified(&repo, "w2"));
}

#[test]
fn confirmation_names_owner_and_booking() {
    let b = confirmed("b9", "s1", MONDAY);
    assert_eq!(
        confirmation_notice(&b),
        Notice::BookingConfirmed { user_id: "u1".to_string(), booking_id: "b9".to_string() }
    );
}

#[test]
fn auto_release_touches_only_the_released_head() {
    let mut repo = Database::new();
    let now = MONDAY + 12 * 3600;
    let day = day_number(now);
    repo.save_booking(confirmed("a", "s1", now - 3600));
    repo.save_waitlist_entry(entry("h", "lot", day, 10));
    repo.save_waitlist_entry(entry("n", "lot", day, 20));
    repo.save_waitlist_entry(entry("o", "other", day, 1));
    repo.save_waitlist_entry(entry("t", "lot", day + 1, 1));
    run_auto_release(&mut repo, now, 30);
    assert!(notified(&repo, "h"));
    assert!(!notified(&repo, "n") && !notified(&repo, "o") && !notified(&repo, "t"));
}
