//! Storage engine and booking lifecycle of a parking-booking service.
//!
//! The library keeps accounts, lots, slots, bookings, sessions and
//! waitlists in keyed tables with secondary indices, seals stored bytes
//! with an optional authenticated cipher, and drives the booking state
//! machine and its time-based jobs.

pub mod calendar;
pub mod cipher;
pub mod db;
pub mod ids;
pub mod lifecycle;
pub mod models;
pub mod protocol;
pub mod scheduler;
pub mod services;
pub mod settings;
pub mod table;
pub mod waitlist;
