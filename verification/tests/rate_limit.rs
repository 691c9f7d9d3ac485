use cred::rate_limit::{lockout_for, AuthRateLimiter, ClientIp};

const SECOND: u64 = 1_000_000_000;

fn failed(times: u32, ip: ClientIp, now: u64) -> AuthRateLimiter {
    let mut limiter = AuthRateLimiter::new();
    for _ in 0..times {
        limiter.record_failure(ip, now);
    }
    limiter
}

#[test]
fn lockouts_double_up_to_an_hour() {
    for (failures, secs) in [
        (0, 0),
        (4, 0),
        (5, 30),
        (6, 60),
        (7, 120),
        (8, 240),
        (9, 480),
        (10, 960),
        (11, 1920),
        (12, 3600),
        (13, 3600),
        (100, 3600),
        (u32::MAX, 3600),
    ] {
        assert_eq!(lockout_for(failures), secs, "{}", failures);
    }
}

#[test]
fn the_fifth_failure_locks() {
    let ip = ClientIp::V4(1);
    assert_eq!(failed(4, ip, 0).check_lockout(&ip, 0), None);
    let limiter = failed(5, ip, 0);
    assert_eq!(limiter.check_lockout(&ip, 0), Some(30));
    assert_eq!(limiter.check_lockout(&ip, 29 * SECOND), Some(1));
    assert_eq!(limiter.check_lockout(&ip, 30 * SECOND - 1), Some(1));
    assert_eq!(limiter.check_lockout(&ip, 30 * SECOND), None);
}

#[test]
fn lockouts_end_within_an_hour() {
    let ip = ClientIp::V6(1);
    let limiter = failed(40, ip, SECOND);
    assert_eq!(limiter.check_lockout(&ip, SECOND), Some(3600));
    assert_eq!(limiter.check_lockout(&ip, 3601 * SECOND), None);
}

#[test]
fn clients_are_told_apart() {
    let (a, b) = (ClientIp::V4(1), ClientIp::V6(1));
    let mut limiter = failed(5, a, 0);
    assert_eq!(limiter.check_lockout(&b, 0), None);
    limiter.record_failure(b, 0);
    assert_eq!(limiter.check_lockout(&b, 0), None);
    assert_eq!(limiter.check_lockout(&a, 0), Some(30));
}

#[test]
fn success_lifts_the_lockout() {
    let ip = ClientIp::V4(1);
    let mut limiter = failed(7, ip, 0);
    limiter.record_success(ip);
    assert_eq!(limiter.check_lockout(&ip, 0), None);
    assert_eq!(limiter.len(), 0);
    limiter.record_failure(ip, 0);
    assert_eq!(limiter.check_lockout(&ip, 0), None);
}

#[test]
fn the_oldest_entry_makes_room() {
    let mut limiter = AuthRateLimiter::new();
    for n in 0..9_999u32 {
        for _ in 0..5 {
            limiter.record_failure(ClientIp::V4(n), SECOND + n as u64);
        }
    }
    limiter.record_failure(ClientIp::V4(9_999), 2 * SECOND);
    assert_eq!(limiter.len(), 10_000);
    limiter.record_failure(ClientIp::V6(9), 2 * SECOND);
    assert_eq!(limiter.len(), 10_000);
    assert_eq!(limiter.check_lockout(&ClientIp::V4(0), 2 * SECOND), None);
    assert_eq!(limiter.check_lockout(&ClientIp::V4(1), 2 * SECOND), Some(30));
}

#[test]
fn stale_entries_make_room_first() {
    let mut limiter = AuthRateLimiter::new();
    for n in 0..10_000u32 {
        let when = if n < 9_000 { 0 } else { 3600 * SECOND };
        limiter.record_failure(ClientIp::V4(n), when);
    }
    limiter.record_failure(ClientIp::V6(9), 3600 * SECOND);
    assert_eq!(limiter.len(), 1_001);
}
