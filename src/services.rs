//! Outbound collaborators: the mail configuration, the password check of the
//! first-run account, and event counters.

use vstd::prelude::*;
use argon2::password_hash::PasswordVerifier;

verus! {

/// SMTP settings for outgoing mail.
#[derive(Clone, Debug)]
pub struct SmtpConfig {
    pub host: String,
    pub port: u16,
    pub user: String,
    pub pass: String,
    pub from: String,
}

/// The notifier's mail service; delivery itself happens outside the library.
#[derive(Clone, Debug)]
pub struct EmailService {
    config: SmtpConfig,
}

impl EmailService {
    /// The configuration in use.
    pub closed spec fn spec_config(&self) -> SmtpConfig {
        self.config
    }

    /// A service that sends through `config`.
    pub fn new(config: SmtpConfig) -> (r: Self)
        ensures
            r.spec_config() == config,
    {
        EmailService { config }
    }

    /// The configuration in use.
    pub fn config(&self) -> (r: &SmtpConfig)
        ensures
            *r == self.spec_config(),
    {
        &self.config
    }
}

/// Whether `password` matches the PHC-format Argon2 hash `hash`.
pub uninterp spec fn argon2_accepts(password: Seq<char>, hash: Seq<char>) -> bool;

/// Relies on argon2's PasswordHash::new and Argon2::default().verify_password:
/// true exactly when the hash parses and the password matches it.
#[verifier::external_body]
fn verify_password(password: &str, hash: &str) -> (r: bool)
    ensures
        r == argon2_accepts(password@, hash@),
{
    match argon2::PasswordHash::new(hash) {
        Ok(parsed) => argon2::Argon2::default().verify_password(password.as_bytes(), &parsed).is_ok(),
        Err(_) => false,
    }
}

/// Whether `hash` is still the hash of the factory password `admin`.
pub fn check_default_password(hash: &str) -> (r: bool)
    ensures
        r == argon2_accepts("admin"@, hash@),
{
    verify_password("admin", hash)
}

/// Relies on metrics::with_recorder and Recorder::register_counter, as the
/// counter macro does: adds `by` to counter `name` with `labels` in the
/// installed recorder, recorded from module `target`. Nothing is returned.
#[verifier::external_body]
fn increment_counter(target: &'static str, name: &'static str, labels: &Vec<(String, String)>, by: u64) {
    let key = metrics::Key::from_parts(name, labels);
    let meta = metrics::Metadata::new(target, metrics::Level::INFO, Some(target));
    metrics::with_recorder(|r| r.register_counter(&key, &meta)).increment(by);
}

/// The text of a flag.
pub open spec fn flag_text(b: bool) -> Seq<char> {
    if b { "true"@ } else { "false"@ }
}

/// The module that records the counters.
pub const METRICS_TARGET: &'static str = "parkhub::services";

/// Labels of an authentication event: its kind and whether it succeeded.
pub fn auth_event_labels(event_type: &str, success: bool) -> (r: Vec<(String, String)>)
    ensures
        r@.len() == 2,
        r@[0].0@ == "event"@ && r@[0].1@ == event_type@,
        r@[1].0@ == "success"@ && r@[1].1@ == flag_text(success),
{
    let mut labels: Vec<(String, String)> = Vec::new();
    labels.push((String::from_str("event"), String::from_str(event_type)));
    let flag = if success { String::from_str("true") } else { String::from_str("false") };
    labels.push((String::from_str("success"), flag));
    labels
}

/// Labels of a booking event: its kind.
pub fn booking_event_labels(event_type: &str) -> (r: Vec<(String, String)>)
    ensures
        r@.len() == 1,
        r@[0].0@ == "event"@ && r@[0].1@ == event_type@,
{
    let mut labels: Vec<(String, String)> = Vec::new();
    labels.push((String::from_str("event"), String::from_str(event_type)));
    labels
}

/// Counts an authentication event in `auth_events_total`.
pub fn record_auth_event(event_type: &str, success: bool) {
    let labels = auth_event_labels(event_type, success);
    increment_counter(METRICS_TARGET, "auth_events_total", &labels, 1);
}

/// Counts a booking event in `booking_events_total`.
pub fn record_booking_event(event_type: &str) {
    let labels = booking_event_labels(event_type);
    increment_counter(METRICS_TARGET, "booking_events_total", &labels, 1);
}

} // verus!
