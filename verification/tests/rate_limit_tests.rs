use rustql::rate_limit::RateLimiter;

#[test]
fn ceiling_two_in_sixty_second_window() {
    // ceiling = 2, window = 60 s: calls for "A" at t = 0 s and t = 1 s are
    // admitted, t = 2 s is denied, t = 61 s is admitted again.
    let mut limiter = RateLimiter::new(2, 60_000);
    assert!(limiter.check_rate_limit("A", 0));
    assert!(limiter.check_rate_limit("A", 1_000));
    assert!(!limiter.check_rate_limit("A", 2_000));
    assert!(limiter.check_rate_limit("A", 61_000));
}

#[test]
fn denied_call_is_not_recorded() {
    let mut limiter = RateLimiter::new(1, 10_000);
    assert!(limiter.check_rate_limit("k", 0));
    // denied attempts must not extend the window usage
    assert!(!limiter.check_rate_limit("k", 1));
    assert!(!limiter.check_rate_limit("k", 2));
    // at t = 10 001 ms the admitted call at t = 0 has left the window
    assert!(limiter.check_rate_limit("k", 10_001));
}

#[test]
fn keys_are_independent() {
    let mut limiter = RateLimiter::new(1, 60_000);
    assert!(limiter.check_rate_limit("a", 0));
    assert!(limiter.check_rate_limit("b", 0));
    assert!(!limiter.check_rate_limit("a", 1));
    assert!(!limiter.check_rate_limit("b", 1));
}

#[test]
fn window_elapsed_resets_key() {
    let mut limiter = RateLimiter::new(3, 1_000);
    assert!(limiter.check_rate_limit("c", 0));
    assert!(limiter.check_rate_limit("c", 10));
    assert!(limiter.check_rate_limit("c", 20));
    assert!(!limiter.check_rate_limit("c", 30));
    // a full window later the key starts fresh no matter the prior count
    assert!(limiter.check_rate_limit("c", 1_021));
}

#[test]
fn cleanup_keeps_live_entries() {
    let mut limiter = RateLimiter::new(2, 1_000);
    assert!(limiter.check_rate_limit("old", 0));
    assert!(limiter.check_rate_limit("new", 900));
    limiter.cleanup_old_entries(1_500);
    // "old" was swept away entirely, "new" still holds its one call
    assert!(limiter.check_rate_limit("old", 1_500));
    assert!(limiter.check_rate_limit("new", 1_500));
    assert!(!limiter.check_rate_limit("new", 1_600));
}

#[test]
fn zero_ceiling_admits_nothing() {
    let mut limiter = RateLimiter::new(0, 1_000);
    assert!(!limiter.check_rate_limit("x", 0));
    assert!(!limiter.check_rate_limit("x", 5_000));
}
