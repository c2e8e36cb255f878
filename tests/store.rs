use parkhub::cipher::{Codec, CodecError};
use parkhub::db::{DatabaseConfig, OpenError, Database, StoreError, SETTING_ENCRYPTION_SALT};
use parkhub::models::{Session, User, UserRole};

fn user(id: &str, username: &str, email: &str) -> User {
    User {
        id: id.to_string(),
        username: username.to_string(),
        email: email.to_string(),
        name: format!("{} name", username),
        password_hash: String::new(),
        role: UserRole::User,
        is_active: true,
        department: None,
    }
}

fn config(encrypted: bool) -> DatabaseConfig {
    DatabaseConfig {
        path: "data".to_string(),
        encryption_enabled: encrypted,
        passphrase: if encrypted { Some("test-passphrase".to_string()) } else { None },
        create_if_missing: true,
    }
}

fn open(repo: &mut Database, encrypted: bool) -> Codec {
    repo.open_codec(&config(encrypted)).expect("codec")
}

#[test]
fn test_database_create() {
    let mut repo = Database::new();
    let codec = open(&mut repo, false);
    assert!(!codec.is_encrypted());
    assert!(repo.is_fresh());
}

#[test]
fn test_database_encrypted() {
    let mut repo = Database::new();
    let codec = open(&mut repo, true);
    assert!(codec.is_encrypted());
}

#[test]
fn test_setup_completed() {
    let repo_codec = {
        let mut repo = Database::new();
        let _ = open(&mut repo, false);
        repo
    };
    let mut repo = repo_codec;
    assert!(repo.is_fresh());
    repo.mark_setup_completed();
    assert!(!repo.is_fresh());
}

#[test]
fn test_settings() {
    let mut repo = Database::new();
    let _ = open(&mut repo, false);
    assert!(repo.get_setting(&"test_key".to_string()).is_none());
    repo.set_setting("test_key".to_string(), "test_value".to_string());
    assert_eq!(repo.get_setting(&"test_key".to_string()), Some(&"test_value".to_string()));
}

#[test]
fn test_stats() {
    let mut repo = Database::new();
    let _ = open(&mut repo, false);
    let stats = repo.stats();
    assert_eq!(stats.users, 0);
    assert_eq!(stats.bookings, 0);
}

#[test]
fn stats_count_rows() {
    let mut repo = Database::new();
    repo.save_user(user("u1", "alice", "a@x.org")).unwrap();
    repo.save_user(user("u2", "bob", "b@x.org")).unwrap();
    repo.save_user(user("u2", "bobby", "b@x.org")).unwrap();
    let stats = repo.stats();
    assert_eq!(stats.users, 2);
    assert_eq!(stats.sessions, 0);
    assert_eq!(stats.vehicles, 0);
}

#[test]
fn round_trip_without_encryption() {
    let mut repo = Database::new();
    let codec = open(&mut repo, false);
    let plain = br#"{"id":"u1","username":"alice"}"#.to_vec();
    let stored = codec.serialize(&plain).unwrap();
    assert_eq!(stored, plain);
    assert_eq!(codec.deserialize(&stored).unwrap(), plain);
}

#[test]
fn round_trip_with_encryption() {
    let mut repo = Database::new();
    let codec = open(&mut repo, true);
    let plain = br#"{"id":"u1","username":"alice"}"#.to_vec();
    let stored = codec.serialize(&plain).unwrap();
    assert_eq!(stored.len(), plain.len() + 28);
    assert_ne!(&stored[12..12 + plain.len()], &plain[..]);
    assert_eq!(codec.deserialize(&stored).unwrap(), plain);
    let empty = codec.serialize(&[]).unwrap();
    assert_eq!(codec.deserialize(&empty).unwrap(), Vec::<u8>::new());
}

#[test]
fn fresh_nonce_per_blob() {
    let mut repo = Database::new();
    let codec = open(&mut repo, true);
    let a = codec.serialize(b"same").unwrap();
    let b = codec.serialize(b"same").unwrap();
    assert_ne!(a, b);
}

#[test]
fn tampered_blob_is_refused() {
    let mut repo = Database::new();
    let codec = open(&mut repo, true);
    let plain = b"booking record".to_vec();
    let stored = codec.serialize(&plain).unwrap();
    for i in 0..stored.len() {
        let mut bad = stored.clone();
        bad[i] ^= 0x01;
        assert_eq!(codec.deserialize(&bad), Err(CodecError::CryptoFailure));
    }
    assert_eq!(codec.deserialize(&stored[..11]), Err(CodecError::CryptoFailure));
}

#[test]
fn salt_is_stored_once_and_reused() {
    let mut repo = Database::new();
    let first = open(&mut repo, true);
    let salt = repo.get_setting(&SETTING_ENCRYPTION_SALT.to_string()).unwrap().clone();
    assert_eq!(salt.len(), 64);
    assert!(salt.chars().all(|c| c.is_ascii_hexdigit() && !c.is_ascii_uppercase()));
    let stored = first.serialize(b"payload").unwrap();
    let second = open(&mut repo, true);
    assert_eq!(repo.get_setting(&SETTING_ENCRYPTION_SALT.to_string()).unwrap(), &salt);
    assert_eq!(second.deserialize(&stored).unwrap(), b"payload".to_vec());
}

#[test]
fn other_passphrase_cannot_open() {
    let mut repo = Database::new();
    let codec = open(&mut repo, true);
    let stored = codec.serialize(b"payload").unwrap();
    let mut cfg = config(true);
    cfg.passphrase = Some("another".to_string());
    let other = repo.open_codec(&cfg).unwrap();
    assert_eq!(other.deserialize(&stored), Err(CodecError::CryptoFailure));
}

#[test]
fn open_errors() {
    let mut repo = Database::new();
    let mut cfg = config(true);
    cfg.passphrase = None;
    assert!(matches!(repo.open_codec(&cfg), Err(OpenError::MissingPassphrase)));
    repo.set_setting(SETTING_ENCRYPTION_SALT.to_string(), "not hex".to_string());
    assert!(matches!(repo.open_codec(&config(true)), Err(OpenError::InvalidSalt)));
}

#[test]
fn user_indices_follow_saves_and_deletes() {
    let mut repo = Database::new();
    let u = user("u1", "alice", "alice@x.org");
    repo.save_user(u.clone()).unwrap();
    assert_eq!(repo.get_user_by_username(&"alice".to_string()).map(|x| x.id.clone()), Some("u1".to_string()));
    assert_eq!(repo.get_user_by_email(&"alice@x.org".to_string()).map(|x| x.id.clone()), Some("u1".to_string()));
    let renamed = user("u1", "alice2", "alice2@x.org");
    repo.save_user(renamed).unwrap();
    assert!(repo.get_user_by_username(&"alice".to_string()).is_none());
    assert!(repo.get_user_by_email(&"alice@x.org".to_string()).is_none());
    assert_eq!(repo.get_user_by_username(&"alice2".to_string()).unwrap().email, "alice2@x.org");
    assert!(repo.delete_user(&"u1".to_string()));
    assert!(repo.get_user_by_username(&"alice2".to_string()).is_none());
    assert!(repo.get_user_by_email(&"alice2@x.org".to_string()).is_none());
    assert!(repo.get_user(&"u1".to_string()).is_none());
    assert!(!repo.delete_user(&"u1".to_string()));
}

#[test]
fn taken_username_or_email_conflicts() {
    let mut repo = Database::new();
    repo.save_user(user("u1", "alice", "alice@x.org")).unwrap();
    assert_eq!(repo.save_user(user("u2", "alice", "other@x.org")), Err(StoreError::Conflict));
    assert_eq!(repo.save_user(user("u2", "other", "alice@x.org")), Err(StoreError::Conflict));
    assert!(repo.get_user(&"u2".to_string()).is_none());
    assert_eq!(repo.list_users().len(), 1);
}

#[test]
fn session_expires_after_ttl() {
    let mut repo = Database::new();
    let u = user("u1", "alice", "alice@x.org");
    let created = 1_700_000_000u64;
    let (token, session) = repo.create_session(&u, "user".to_string(), 2, created);
    assert_eq!(session.expires_at, created + 7200);
    assert_ne!(token, session.refresh_token);
    assert_eq!(repo.validate_session(&token, created + 2 * 3600 - 1), Some("u1".to_string()));
    assert_eq!(repo.validate_session(&token, created + 2 * 3600 + 1), None);
    assert_eq!(repo.validate_session(&token, created + 2 * 3600), None);
    assert!(repo.get_session(&token, created + 2 * 3600 + 1).is_none());
    assert_eq!(repo.stats().sessions, 1);
    assert!(repo.delete_session(&token));
    assert!(!repo.delete_session(&token));
    assert_eq!(repo.validate_session(&token, created), None);
}

#[test]
fn saved_session_reads_back() {
    let mut repo = Database::new();
    let s = Session {
        user_id: "u9".to_string(),
        username: "zed".to_string(),
        role: "admin".to_string(),
        refresh_token: "rt".to_string(),
        created_at: 10,
        expires_at: 20,
    };
    repo.save_session("tok".to_string(), s);
    assert_eq!(repo.get_session(&"tok".to_string(), 19).unwrap().username, "zed");
    assert!(repo.get_session(&"missing".to_string(), 0).is_none());
}

#[test]
fn refresh_token_is_prefixed() {
    let mut repo = Database::new();
    let u = user("u1", "alice", "alice@x.org");
    let (_, s) = repo.create_session(&u, "user".to_string(), 1, 100);
    assert!(s.refresh_token.starts_with("rt_"));
    assert!(s.refresh_token.len() > 3);
}

#[test]
fn encrypt_with_given_nonce_prefixes_it() {
    let mut repo = Database::new();
    let codec = open(&mut repo, true);
    let cipher = codec.cipher.as_ref().unwrap();
    let nonce = [7u8; 12];
    let a = cipher.encrypt_with_nonce(&nonce, b"abc").unwrap();
    let b = cipher.encrypt_with_nonce(&nonce, b"abc").unwrap();
    assert_eq!(&a[..12], &nonce[..]);
    assert_eq!(a, b);
    assert_eq!(a.len(), 3 + 28);
    assert_eq!(cipher.decrypt(&a).unwrap(), b"abc".to_vec());
}

#[test]
fn renaming_drops_old_index_entries() {
    let mut repo = Database::new();
    repo.save_user(user("u1", "alice", "alice@x.org")).unwrap();
    repo.save_user(user("u1", "alicia", "alice@x.org")).unwrap();
    assert!(repo.get_user_by_username(&"alice".to_string()).is_none());
    assert_eq!(repo.get_user_by_email(&"alice@x.org".to_string()).unwrap().username, "alicia");
    repo.save_user(user("u2", "bob", "bob@x.org")).unwrap();
    assert!(repo.save_user(user("u2", "alicia", "b2@x.org")).is_err());
    assert_eq!(repo.get_user_by_username(&"bob".to_string()).unwrap().id, "u2");
    assert!(repo.get_user_by_email(&"b2@x.org".to_string()).is_none());
}
