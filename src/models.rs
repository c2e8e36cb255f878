//! The records that the store keeps, and the enumerations they use.
//!
//! Identifiers are strings; instants are seconds since the Unix epoch (UTC);
//! a calendar date is a day number, days since 1970-01-01.

use vstd::prelude::*;

verus! {

/// Seconds in one day.
pub const SECONDS_PER_DAY: u64 = 86400;

/// Seconds in one hour.
pub const SECONDS_PER_HOUR: u64 = 3600;

/// Seconds in one minute.
pub const SECONDS_PER_MINUTE: u64 = 60;

/// Role of an account, for access control.
#[derive(Clone, Copy, Debug, PartialEq, Eq, Structural)]
pub enum UserRole {
    User,
    Premium,
    Admin,
    SuperAdmin,
}

/// Occupancy state of a parking slot.
#[derive(Clone, Copy, Debug, PartialEq, Eq, Structural)]
pub enum SlotStatus {
    Available,
    Occupied,
    Reserved,
    Maintenance,
    Disabled,
    HomeOffice,
}

/// Lifecycle state of a booking.
#[derive(Clone, Copy, Debug, PartialEq, Eq, Structural)]
pub enum BookingStatus {
    Pending,
    Confirmed,
    Active,
    Completed,
    Cancelled,
    Expired,
    NoShow,
    AutoReleased,
}

impl BookingStatus {
    /// A terminal state admits no further transition.
    pub open spec fn spec_is_terminal(self) -> bool {
        match self {
            BookingStatus::Completed | BookingStatus::Cancelled | BookingStatus::Expired
            | BookingStatus::NoShow | BookingStatus::AutoReleased => true,
            _ => false,
        }
    }

    /// True for the terminal states.
    pub fn is_terminal(&self) -> (r: bool)
        ensures
            r == self.spec_is_terminal(),
    {
        match self {
            BookingStatus::Completed | BookingStatus::Cancelled | BookingStatus::Expired
            | BookingStatus::NoShow | BookingStatus::AutoReleased => true,
            _ => false,
        }
    }
}

/// Operating state of a parking lot.
#[derive(Clone, Copy, Debug, PartialEq, Eq, Structural)]
pub enum LotStatus {
    Open,
    Closed,
    Full,
    Maintenance,
}

/// Physical kind of a slot.
#[derive(Clone, Copy, Debug, PartialEq, Eq, Structural)]
pub enum SlotType {
    Standard,
    Compact,
    Large,
    Handicap,
    Electric,
    Motorcycle,
    Reserved,
    Vip,
}

/// A feature that a slot offers.
#[derive(Clone, Copy, Debug, PartialEq, Eq, Structural)]
pub enum SlotFeature {
    NearExit,
    NearElevator,
    NearStairs,
    Covered,
    SecurityCamera,
    WellLit,
    WideLane,
    ChargingStation,
}

/// Payment state of a booking.
#[derive(Clone, Copy, Debug, PartialEq, Eq, Structural)]
pub enum PaymentStatus {
    Pending,
    Paid,
    Failed,
    Refunded,
    PartialRefund,
}

/// Kind of vehicle.
#[derive(Clone, Copy, Debug, PartialEq, Eq, Structural)]
pub enum VehicleType {
    Car,
    Suv,
    Motorcycle,
    Truck,
    Van,
    Electric,
}

/// Kind of a user-facing notification.
#[derive(Clone, Copy, Debug, PartialEq, Eq, Structural)]
pub enum NotificationType {
    BookingConfirmed,
    BookingReminder,
    BookingExpiring,
    BookingCancelled,
    PaymentReceived,
    PaymentFailed,
    PromotionAvailable,
    SystemMessage,
}

/// Kind of an element of a lot's drawn layout.
#[derive(Clone, Copy, Debug, PartialEq, Eq, Structural)]
pub enum LayoutElementType {
    ParkingSlot,
    Road,
    Entrance,
    Exit,
    Elevator,
    Stairs,
    Wall,
    Pillar,
    Obstacle,
    ChargingStation,
}

/// A copy of an optional string.
pub fn clone_opt(o: &Option<String>) -> (r: Option<String>)
    ensures
        r == *o,
{
    match o {
        Some(s) => Some(s.clone()),
        None => None,
    }
}

/// An account.
#[derive(Debug)]
pub struct User {
    pub id: String,
    pub username: String,
    pub email: String,
    pub name: String,
    pub password_hash: String,
    pub role: UserRole,
    pub is_active: bool,
    pub department: Option<String>,
}

impl Clone for User {
    fn clone(&self) -> (r: Self)
        ensures
            r == *self,
    {
        User {
            id: self.id.clone(),
            username: self.username.clone(),
            email: self.email.clone(),
            name: self.name.clone(),
            password_hash: self.password_hash.clone(),
            role: self.role,
            is_active: self.is_active,
            department: clone_opt(&self.department),
        }
    }
}

/// A parking lot. Its count of available slots is derived, not authoritative.
#[derive(Debug)]
pub struct ParkingLot {
    pub id: String,
    pub name: String,
    pub total_slots: u32,
    pub available_slots: u32,
    pub status: LotStatus,
}

impl Clone for ParkingLot {
    fn clone(&self) -> (r: Self)
        ensures
            r == *self,
    {
        ParkingLot {
            id: self.id.clone(),
            name: self.name.clone(),
            total_slots: self.total_slots,
            available_slots: self.available_slots,
            status: self.status,
        }
    }
}

/// A slot of a lot. `current_booking` names a booking for lookup only.
#[derive(Debug)]
pub struct ParkingSlot {
    pub id: String,
    pub lot_id: String,
    pub slot_number: u32,
    pub status: SlotStatus,
    pub current_booking: Option<String>,
    pub reserved_for_department: Option<String>,
}

impl Clone for ParkingSlot {
    fn clone(&self) -> (r: Self)
        ensures
            r == *self,
    {
        ParkingSlot {
            id: self.id.clone(),
            lot_id: self.lot_id.clone(),
            slot_number: self.slot_number,
            status: self.status,
            current_booking: clone_opt(&self.current_booking),
            reserved_for_department: clone_opt(&self.reserved_for_department),
        }
    }
}

/// A weekly repetition: the weekdays it falls on (Monday first), the last
/// day it reaches, and for a generated instance the booking it came from.
#[derive(Debug)]
pub struct RecurrenceRule {
    pub weekdays: [bool; 7],
    pub until: u64,
    pub parent_id: Option<String>,
}

impl Clone for RecurrenceRule {
    fn clone(&self) -> (r: Self)
        ensures
            r == *self,
    {
        RecurrenceRule { weekdays: self.weekdays, until: self.until, parent_id: clone_opt(&self.parent_id) }
    }
}

/// A copy of an optional recurrence rule.
pub fn clone_rule(o: &Option<RecurrenceRule>) -> (r: Option<RecurrenceRule>)
    ensures
        r == *o,
{
    match o {
        Some(rule) => Some(rule.clone()),
        None => None,
    }
}

/// A booking of one slot over a time window.
#[derive(Debug)]
pub struct Booking {
    pub id: String,
    pub user_id: String,
    pub lot_id: String,
    pub slot_id: String,
    pub status: BookingStatus,
    pub start_time: u64,
    pub end_time: u64,
    pub checked_in_at: Option<u64>,
    pub created_at: u64,
    pub updated_at: u64,
    pub notes: Option<String>,
    pub recurrence: Option<RecurrenceRule>,
}

impl Clone for Booking {
    fn clone(&self) -> (r: Self)
        ensures
            r == *self,
    {
        Booking {
            id: self.id.clone(),
            user_id: self.user_id.clone(),
            lot_id: self.lot_id.clone(),
            slot_id: self.slot_id.clone(),
            status: self.status,
            start_time: self.start_time,
            end_time: self.end_time,
            checked_in_at: self.checked_in_at,
            created_at: self.created_at,
            updated_at: self.updated_at,
            notes: clone_opt(&self.notes),
            recurrence: clone_rule(&self.recurrence),
        }
    }
}

/// A request to be told when a lot frees up on a given day.
#[derive(Debug)]
pub struct WaitlistEntry {
    pub id: String,
    pub lot_id: String,
    pub user_id: String,
    pub date: u64,
    pub created_at: u64,
    pub notified: bool,
}

impl Clone for WaitlistEntry {
    fn clone(&self) -> (r: Self)
        ensures
            r == *self,
    {
        WaitlistEntry {
            id: self.id.clone(),
            lot_id: self.lot_id.clone(),
            user_id: self.user_id.clone(),
            date: self.date,
            created_at: self.created_at,
            notified: self.notified,
        }
    }
}

/// A vehicle registered by a user.
#[derive(Debug)]
pub struct OwnedVehicle {
    pub id: String,
    pub user_id: String,
    pub plate: String,
    pub make: Option<String>,
    pub model: Option<String>,
    pub color: Option<String>,
    pub vehicle_type: VehicleType,
}

impl Clone for OwnedVehicle {
    fn clone(&self) -> (r: Self)
        ensures
            r == *self,
    {
        OwnedVehicle {
            id: self.id.clone(),
            user_id: self.user_id.clone(),
            plate: self.plate.clone(),
            make: clone_opt(&self.make),
            model: clone_opt(&self.model),
            color: clone_opt(&self.color),
            vehicle_type: self.vehicle_type,
        }
    }
}

/// A login session, stored under its bearer token.
#[derive(Debug)]
pub struct Session {
    pub user_id: String,
    pub username: String,
    pub role: String,
    pub refresh_token: String,
    pub created_at: u64,
    pub expires_at: u64,
}

impl Clone for Session {
    fn clone(&self) -> (r: Self)
        ensures
            r == *self,
    {
        Session {
            user_id: self.user_id.clone(),
            username: self.username.clone(),
            role: self.role.clone(),
            refresh_token: self.refresh_token.clone(),
            created_at: self.created_at,
            expires_at: self.expires_at,
        }
    }
}

} // verus!
