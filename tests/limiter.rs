use aidb::limiter::{RateLimiter, MAX_CURRENT_LIMITING};

#[test]
fn three_per_minute_then_refused() {
    assert_eq!(MAX_CURRENT_LIMITING, 3);
    let mut l = RateLimiter::new();
    let ip = 0x7f000001;
    assert!(l.check_limit(ip, 6000));
    assert!(l.check_limit(ip, 6010));
    assert!(l.check_limit(ip, 6059));
    assert!(!l.check_limit(ip, 6059));
    assert!(!l.check_limit(ip, 6059));
}

#[test]
fn next_minute_resets() {
    let mut l = RateLimiter::new();
    let ip = 1;
    for _ in 0..3 {
        assert!(l.check_limit(ip, 119));
    }
    assert!(!l.check_limit(ip, 119));
    assert!(l.check_limit(ip, 120));
}

#[test]
fn addresses_counted_apart() {
    let mut l = RateLimiter::new();
    for _ in 0..3 {
        assert!(l.check_limit(1, 60));
    }
    assert!(!l.check_limit(1, 61));
    assert!(l.check_limit(2, 61));
}

#[test]
fn earlier_minute_also_resets() {
    let mut l = RateLimiter::new();
    for _ in 0..4 {
        l.check_limit(9, 600);
    }
    assert!(l.check_limit(9, 540));
}
