use aidb::auth::{Authentication, Decision};
use aidb::codec::DbError;
use aidb::limiter::RateLimiter;
use aidb::service::{login, LoginError};
use aidb::session::SessionManager;

#[test]
fn paths_that_need_a_session() {
    assert!(Authentication::require_authentication("/api/list"));
    assert!(Authentication::require_authentication("/api/"));
    assert!(!Authentication::require_authentication("/api/ping"));
    assert!(!Authentication::require_authentication("/api/login"));
    assert!(!Authentication::require_authentication("/api/logout"));
    assert!(!Authentication::require_authentication("/index.html"));
    assert!(!Authentication::require_authentication("/api"));
    assert!(Authentication::require_authentication("/api/pings"));
}

#[test]
fn session_id_from_header() {
    assert_eq!(Authentication::get_session_id(Some("session 00000000000000ff")), Some(255));
    assert_eq!(Authentication::get_session_id(Some("session ")), None);
    assert_eq!(Authentication::get_session_id(Some("Session 00ff")), None);
    assert_eq!(Authentication::get_session_id(Some("bearer 00ff")), None);
    assert_eq!(Authentication::get_session_id(None), None);
}

#[test]
fn public_path_allowed_without_token() {
    let mut s = SessionManager::new(60);
    let mut l = RateLimiter::new();
    for _ in 0..10 {
        assert_eq!(Authentication::handle("/api/ping", None, 1, 0, &mut s, &mut l), Decision::Allow);
    }
}

#[test]
fn missing_header_denied() {
    let mut s = SessionManager::new(60);
    let mut l = RateLimiter::new();
    assert_eq!(Authentication::handle("/api/list", None, 1, 0, &mut s, &mut l), Decision::Deny);
}

#[test]
fn live_session_allowed_until_rate_limit() {
    let mut s = SessionManager::new(600);
    let mut l = RateLimiter::new();
    let t = s.create(60).unwrap();
    let h = format!("session {t}");
    for _ in 0..3 {
        assert_eq!(Authentication::handle("/api/list", Some(&h), 9, 60, &mut s, &mut l), Decision::Allow);
    }
    assert_eq!(Authentication::handle("/api/list", Some(&h), 9, 60, &mut s, &mut l), Decision::Deny);
    assert_eq!(Authentication::handle("/api/list", Some(&h), 9, 120, &mut s, &mut l), Decision::Allow);
}

#[test]
fn unknown_session_denied() {
    let mut s = SessionManager::new(600);
    let mut l = RateLimiter::new();
    assert_eq!(
        Authentication::handle("/api/list", Some("session 0000000000000001"), 9, 60, &mut s, &mut l),
        Decision::Deny
    );
}

#[test]
fn logout_removes_session() {
    let mut s = SessionManager::new(600);
    let mut l = RateLimiter::new();
    let t = s.create(0).unwrap();
    let h = format!("session {t}");
    Authentication::remove_session_id(Some(&h), &mut s);
    assert_eq!(Authentication::handle("/api/list", Some(&h), 9, 1, &mut s, &mut l), Decision::Deny);
}

#[test]
fn login_then_list() {
    let mut s = SessionManager::new(1800);
    let mut l = RateLimiter::new();
    let g = login("alice", "alice", Ok(true), 5, 1000, &mut s, &mut l).unwrap();
    assert_eq!(g.expire, 2800);
    assert_eq!(g.refresh_time, 1900);
    let h = format!("session {}", g.token);
    assert_eq!(Authentication::handle("/api/list", Some(&h), 5, 1000, &mut s, &mut l), Decision::Allow);
    assert_eq!(Authentication::handle("/api/list", None, 5, 1000, &mut s, &mut l), Decision::Deny);
}

#[test]
fn login_failures() {
    let mut s = SessionManager::new(1800);
    let mut l = RateLimiter::new();
    assert_eq!(login("bob", "alice", Ok(true), 1, 0, &mut s, &mut l).err(), Some(LoginError::InvalidCredentials));
    assert_eq!(login("alice", "alice", Ok(false), 2, 0, &mut s, &mut l).err(), Some(LoginError::InvalidCredentials));
    assert_eq!(
        login("alice", "alice", Err(DbError::BadFormat), 3, 0, &mut s, &mut l).err(),
        Some(LoginError::Database(DbError::BadFormat))
    );
}

#[test]
fn fourth_login_in_a_minute_refused() {
    let mut s = SessionManager::new(1800);
    let mut l = RateLimiter::new();
    assert!(login("alice", "alice", Ok(true), 7, 0, &mut s, &mut l).is_ok());
    assert!(login("alice", "alice", Ok(false), 7, 10, &mut s, &mut l).is_err());
    assert!(login("alice", "alice", Ok(true), 7, 20, &mut s, &mut l).is_ok());
    assert_eq!(login("alice", "alice", Ok(true), 7, 30, &mut s, &mut l).err(), Some(LoginError::RateLimited));
    assert_eq!(login("x", "alice", Ok(false), 7, 40, &mut s, &mut l).err(), Some(LoginError::RateLimited));
}

#[test]
fn session_id_opens_a_valid_session() {
    let mut s = SessionManager::new(30);
    let t = Authentication::session_id(&mut s, 10).unwrap();
    assert_eq!(t.len(), 16);
    assert!(t.chars().all(|c| c.is_ascii_hexdigit() && !c.is_ascii_uppercase()));
    assert!(s.validate(&t, 39));
    assert!(!s.validate(&t, 39 + 30));
}
