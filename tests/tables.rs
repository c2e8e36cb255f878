use parkhub::lifecycle::{create_booking, BookingRequest};
use parkhub::models::{OwnedVehicle, VehicleType, Booking, BookingStatus, LotStatus, ParkingLot, ParkingSlot, SlotStatus, User, UserRole, WaitlistEntry};
use parkhub::db::{Database, SETTING_DB_VERSION};
use parkhub::settings::{auto_release_minutes, parse_grace_minutes, SETTING_AUTO_RELEASE_MINUTES};
use parkhub::table::Table;
use parkhub::waitlist::{join_waitlist, list_waitlist_by_lot};

fn lot(id: &str) -> ParkingLot {
    ParkingLot { id: id.to_string(), name: format!("Lot {}", id), total_slots: 2, available_slots: 2, status: LotStatus::Open }
}

fn slot(id: &str, lot: &str) -> ParkingSlot {
    ParkingSlot {
        id: id.to_string(),
        lot_id: lot.to_string(),
        slot_number: 7,
        status: SlotStatus::Available,
        current_booking: None,
        reserved_for_department: None,
    }
}

fn booking(id: &str, user: &str, lot: &str) -> Booking {
    Booking {
        id: id.to_string(),
        user_id: user.to_string(),
        lot_id: lot.to_string(),
        slot_id: "s".to_string(),
        status: BookingStatus::Pending,
        start_time: 1000,
        end_time: 2000,
        checked_in_at: None,
        created_at: 1,
        updated_at: 1,
        notes: Some("n".to_string()),
        recurrence: None,
    }
}

#[test]
fn table_insert_get_remove() {
    let mut t: Table<u32> = Table::new();
    assert_eq!(t.len(), 0);
    t.insert("a".to_string(), 1);
    t.insert("b".to_string(), 2);
    t.insert("a".to_string(), 3);
    assert_eq!(t.len(), 2);
    assert_eq!(t.get(&"a".to_string()), Some(&3));
    assert!(t.contains(&"b".to_string()));
    assert_eq!(t.remove(&"b".to_string()), Some(2));
    assert_eq!(t.remove(&"b".to_string()), None);
    assert_eq!(t.keys(), vec!["a".to_string()]);
    assert_eq!(t.key(0), "a");
    assert_eq!(*t.value(0), 3);
}

#[test]
fn deleting_a_lot_removes_its_slots_and_bookings() {
    let mut repo = Database::new();
    repo.save_parking_lot(lot("l1"));
    repo.save_parking_lot(lot("l2"));
    repo.save_parking_slot(slot("s1", "l1"));
    repo.save_parking_slot(slot("s2", "l2"));
    repo.save_booking(booking("b1", "u", "l1"));
    repo.save_booking(booking("b2", "u", "l2"));
    assert!(repo.delete_parking_lot(&"l1".to_string()));
    assert!(repo.get_parking_lot(&"l1".to_string()).is_none());
    assert!(repo.get_parking_slot(&"s1".to_string()).is_none());
    assert!(repo.get_booking(&"b1".to_string()).is_none());
    assert!(repo.get_parking_slot(&"s2".to_string()).is_some());
    assert!(repo.get_booking(&"b2".to_string()).is_some());
    assert!(!repo.delete_parking_lot(&"l1".to_string()));
    assert_eq!(repo.stats().parking_lots, 1);
}

#[test]
fn listings_by_owner() {
    let mut repo = Database::new();
    repo.save_booking(booking("b1", "u1", "l1"));
    repo.save_booking(booking("b2", "u2", "l1"));
    repo.save_booking(booking("b3", "u1", "l2"));
    let mut mine: Vec<String> = repo.list_bookings_by_user(&"u1".to_string()).into_iter().map(|b| b.id).collect();
    mine.sort();
    assert_eq!(mine, vec!["b1".to_string(), "b3".to_string()]);
    repo.save_parking_slot(slot("s1", "l1"));
    repo.save_parking_slot(slot("s2", "l2"));
    repo.save_parking_slot(slot("s3", "l1"));
    let mut slots: Vec<String> = repo.list_slots_by_lot(&"l1".to_string()).into_iter().map(|s| s.id).collect();
    slots.sort();
    assert_eq!(slots, vec!["s1".to_string(), "s3".to_string()]);
    assert!(repo.update_slot_status(&"s2".to_string(), SlotStatus::Maintenance));
    assert_eq!(repo.get_parking_slot(&"s2".to_string()).unwrap().status, SlotStatus::Maintenance);
    assert!(!repo.update_slot_status(&"zz".to_string(), SlotStatus::Maintenance));
    assert!(repo.delete_booking(&"b2".to_string()));
    assert!(!repo.delete_booking(&"b2".to_string()));
}

#[test]
fn waitlist_listing_is_in_creation_order() {
    let mut repo = Database::new();
    repo.save_parking_lot(lot("l1"));
    let e3 = join_waitlist(&mut repo, &"l1".to_string(), &"u3".to_string(), 100, 300).unwrap();
    let e1 = join_waitlist(&mut repo, &"l1".to_string(), &"u1".to_string(), 100, 100).unwrap();
    let e2 = join_waitlist(&mut repo, &"l1".to_string(), &"u2".to_string(), 100, 200).unwrap();
    join_waitlist(&mut repo, &"l1".to_string(), &"u4".to_string(), 101, 50).unwrap();
    assert!(join_waitlist(&mut repo, &"nope".to_string(), &"u1".to_string(), 100, 1).is_none());
    assert!(!e1.notified);
    let ids: Vec<String> = list_waitlist_by_lot(&repo, &"l1".to_string(), Some(100)).into_iter().map(|e| e.id).collect();
    assert_eq!(ids, vec![e1.id, e2.id, e3.id]);
    let other: Vec<WaitlistEntry> = list_waitlist_by_lot(&repo, &"l1".to_string(), Some(101));
    assert_eq!(other.len(), 1);
    assert_eq!(other[0].user_id, "u4");
    let all: Vec<String> = list_waitlist_by_lot(&repo, &"l1".to_string(), None).into_iter().map(|e| e.user_id).collect();
    assert_eq!(all, vec!["u4".to_string(), "u1".to_string(), "u2".to_string(), "u3".to_string()]);
    assert!(list_waitlist_by_lot(&repo, &"nope".to_string(), None).is_empty());
}

#[test]
fn grace_minutes_from_text() {
    assert_eq!(parse_grace_minutes("30"), 30);
    assert_eq!(parse_grace_minutes("+15"), 15);
    assert_eq!(parse_grace_minutes("0"), 0);
    assert_eq!(parse_grace_minutes("-5"), 0);
    assert_eq!(parse_grace_minutes("12a"), 0);
    assert_eq!(parse_grace_minutes(""), 0);
    assert_eq!(parse_grace_minutes("+"), 0);
    assert_eq!(parse_grace_minutes("9223372036854775807"), 9223372036854775807);
    assert_eq!(parse_grace_minutes("9223372036854775808"), 0);
    assert_eq!(parse_grace_minutes("99999999999999999999999"), 0);
}

#[test]
fn grace_minutes_setting_before_fallback() {
    let mut repo = Database::new();
    assert_eq!(auto_release_minutes(&repo, None), 0);
    assert_eq!(auto_release_minutes(&repo, Some("45")), 45);
    repo.set_setting(SETTING_AUTO_RELEASE_MINUTES.to_string(), "20".to_string());
    assert_eq!(auto_release_minutes(&repo, Some("45")), 20);
    repo.set_setting(SETTING_AUTO_RELEASE_MINUTES.to_string(), "off".to_string());
    assert_eq!(auto_release_minutes(&repo, Some("45")), 0);
}

#[test]
fn version_recorded_once() {
    let mut repo = Database::new();
    repo.ensure_db_version();
    assert_eq!(repo.get_setting(&SETTING_DB_VERSION.to_string()).unwrap(), "2");
    repo.set_setting(SETTING_DB_VERSION.to_string(), "1".to_string());
    repo.ensure_db_version();
    assert_eq!(repo.get_setting(&SETTING_DB_VERSION.to_string()).unwrap(), "1");
}

#[test]
fn booking_keeps_request_fields() {
    let mut repo = Database::new();
    repo.save_parking_slot(slot("s1", "l1"));
    let u = User {
        id: "u1".to_string(),
        username: "alice".to_string(),
        email: "a@x.org".to_string(),
        name: "Alice".to_string(),
        password_hash: String::new(),
        role: UserRole::Premium,
        is_active: true,
        department: None,
    };
    let req = BookingRequest {
        lot_id: "l1".to_string(),
        slot_id: "s1".to_string(),
        start_time: 5000,
        end_time: 9000,
        notes: Some("near door".to_string()),
        recurrence: None,
    };
    let (b, _) = create_booking(&mut repo, &u, req, 4000).unwrap();
    assert_eq!(b.lot_id, "l1");
    assert_eq!(b.end_time, 9000);
    assert_eq!(b.notes, Some("near door".to_string()));
    assert_eq!(b.checked_in_at, None);
    assert_eq!(repo.list_bookings_by_user(&"u1".to_string()).len(), 1);
}

#[test]
fn full_listings() {
    let mut repo = Database::new();
    repo.save_parking_lot(lot("l1"));
    repo.save_parking_lot(lot("l2"));
    repo.save_booking(booking("b1", "u1", "l1"));
    let mut lots: Vec<String> = repo.list_parking_lots().into_iter().map(|l| l.id).collect();
    lots.sort();
    assert_eq!(lots, vec!["l1".to_string(), "l2".to_string()]);
    let all = repo.list_bookings();
    assert_eq!(all.len(), 1);
    assert_eq!(all[0].notes, Some("n".to_string()));
    join_waitlist(&mut repo, &"l1".to_string(), &"u1".to_string(), 5, 6).unwrap();
    assert_eq!(repo.list_all_waitlist().len(), 1);
    let mut t: Table<u32> = Table::new();
    t.insert("x".to_string(), 4);
    t.insert("y".to_string(), 5);
    assert_eq!(t.values(), vec![4, 5]);
}

#[test]
fn vehicles_by_owner() {
    let mut repo = Database::new();
    let v = |id: &str, user: &str| OwnedVehicle {
        id: id.to_string(),
        user_id: user.to_string(),
        plate: format!("M-{}", id),
        make: None,
        model: None,
        color: Some("red".to_string()),
        vehicle_type: VehicleType::Car,
    };
    repo.save_vehicle(v("v1", "u1"));
    repo.save_vehicle(v("v2", "u2"));
    repo.save_vehicle(v("v3", "u1"));
    assert_eq!(repo.stats().vehicles, 3);
    let mut mine: Vec<String> = repo.list_vehicles_by_user(&"u1".to_string()).into_iter().map(|x| x.id).collect();
    mine.sort();
    assert_eq!(mine, vec!["v1".to_string(), "v3".to_string()]);
    assert_eq!(repo.get_vehicle(&"v2".to_string()).unwrap().plate, "M-v2");
    assert!(repo.delete_vehicle(&"v2".to_string()));
    assert!(!repo.delete_vehicle(&"v2".to_string()));
    assert_eq!(repo.stats().vehicles, 2);
}

#[test]
fn job_schedule() {
    assert_eq!(parkhub::scheduler::jobs_due(0), (true, true, true));
    assert_eq!(parkhub::scheduler::jobs_due(60), (true, false, false));
    assert_eq!(parkhub::scheduler::jobs_due(600), (true, true, false));
}
