use argon2::password_hash::{PasswordHasher, SaltString};
use parkhub::protocol::{default_page, default_per_page};
use parkhub::services::{auth_event_labels, booking_event_labels, check_default_password, record_auth_event, record_booking_event, EmailService, SmtpConfig};

fn hash_of(password: &str) -> String {
    let salt = SaltString::encode_b64(b"fixed-salt-bytes").unwrap();
    argon2::Argon2::default().hash_password(password.as_bytes(), &salt).unwrap().to_string()
}

#[test]
fn default_password_detected() {
    assert!(check_default_password(&hash_of("admin")));
    assert!(!check_default_password(&hash_of("s3cret")));
    assert!(!check_default_password("not a hash"));
}

#[test]
fn email_service_keeps_config() {
    let cfg = SmtpConfig {
        host: "smtp.x.org".to_string(),
        port: 587,
        user: "u".to_string(),
        pass: "p".to_string(),
        from: "noreply@x.org".to_string(),
    };
    let svc = EmailService::new(cfg);
    assert_eq!(svc.config().host, "smtp.x.org");
    assert_eq!(svc.config().port, 587);
}

#[test]
fn event_labels() {
    let l = auth_event_labels("login", true);
    assert_eq!(l, vec![("event".to_string(), "login".to_string()), ("success".to_string(), "true".to_string())]);
    assert_eq!(auth_event_labels("login", false)[1].1, "false");
    assert_eq!(booking_event_labels("created"), vec![("event".to_string(), "created".to_string())]);
    record_auth_event("login", true);
    record_booking_event("created");
}

#[test]
fn pagination_defaults() {
    assert_eq!(default_page(), 1);
    assert_eq!(default_per_page(), 20);
}
