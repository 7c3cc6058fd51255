use aidb::session::{SessionError, SessionManager};
use aidb::token::{format_token, parse_hex};

#[test]
fn token_is_sixteen_lowercase_hex_digits() {
    assert_eq!(format_token(255), "00000000000000ff");
    assert_eq!(format_token(0), "0000000000000000");
    assert_eq!(format_token(u64::MAX), "ffffffffffffffff");
    assert_eq!(format_token(0x0123456789abcdef), "0123456789abcdef");
}

#[test]
fn hex_parsing() {
    assert_eq!(parse_hex("ff"), Some(255));
    assert_eq!(parse_hex("+FF"), Some(255));
    assert_eq!(parse_hex("00000000000000000001"), Some(1));
    assert_eq!(parse_hex("ffffffffffffffff"), Some(u64::MAX));
    assert_eq!(parse_hex("10000000000000000"), None);
    assert_eq!(parse_hex(""), None);
    assert_eq!(parse_hex("+"), None);
    assert_eq!(parse_hex("-1"), None);
    assert_eq!(parse_hex("12g4"), None);
    assert_eq!(parse_hex(" 12"), None);
}

#[test]
fn created_session_validates_then_expires() {
    let mut m = SessionManager::new(1800);
    let t = m.create(1000).unwrap();
    assert_eq!(t.len(), 16);
    assert!(m.validate(&t, 1000));
    assert!(m.validate(&t, 2799));
    // renewed at 2799, so it now lives until 4599
    assert!(m.validate(&t, 4598));
    assert!(!m.validate(&t, 4598 + 1800));
}

#[test]
fn session_not_valid_after_ttl() {
    let mut m = SessionManager::new(60);
    let t = m.create(100).unwrap();
    assert!(!m.validate(&t, 160));
    assert!(!m.validate(&t, 161));
}

#[test]
fn removed_session_not_valid() {
    let mut m = SessionManager::new(60);
    let t = m.create(100).unwrap();
    let id = parse_hex(&t).unwrap();
    m.remove(id);
    assert!(!m.validate(&t, 100));
    m.remove(id);
    assert!(!m.validate(&t, 100));
}

#[test]
fn tokens_are_distinct() {
    let mut m = SessionManager::new(60);
    let mut seen: Vec<String> = Vec::new();
    for _ in 0..50 {
        let t = m.create(5).unwrap();
        assert!(!seen.contains(&t));
        seen.push(t);
    }
    for t in &seen {
        assert!(m.validate(t, 6));
    }
}

#[test]
fn try_create_refuses_taken_id() {
    let mut m = SessionManager::new(60);
    assert_eq!(m.try_create(42, 0).as_deref(), Some("000000000000002a"));
    assert_eq!(m.try_create(42, 0), None);
    assert!(m.check_session(42, 59));
    assert!(!m.check_session(7, 0));
}

#[test]
fn garbage_tokens_not_valid() {
    let mut m = SessionManager::new(60);
    let _ = m.create(0).unwrap();
    assert!(!m.validate("", 0));
    assert!(!m.validate("zz", 0));
    assert!(!m.validate("00000000000000000000000000", 0));
}

#[test]
fn recycle_removes_expired_only() {
    let mut m = SessionManager::new(10);
    assert!(m.try_create(1, 0).is_some());
    assert!(m.try_create(2, 5).is_some());
    assert!(m.try_create(3, 20).is_some());
    m.recycle(14);
    assert!(!m.check_session(1, 0));
    assert!(m.try_create(1, 0).is_some());
    m.recycle(15);
    assert!(!m.check_session(1, 0));
    assert!(!m.check_session(2, 0));
    assert!(m.check_session(3, 15));
    m.recycle(100);
    assert!(!m.check_session(3, 0));
}

#[test]
fn session_error_variant() {
    assert_eq!(SessionError::SessionIdExhausted, SessionError::SessionIdExhausted);
}
