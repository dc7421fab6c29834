use nex_core::resilience::rate_limiter::{TokenBucket, PeerRateLimiter};
use nex_core::resilience::peer_jail::{PeerJail, BASE_JAIL_DURATION_EPOCHS};

#[test]
fn token_bucket_spends_and_refills() {
    let mut b = TokenBucket::new(10, 2, 100);
    assert_eq!(b.current_tokens, 10);
    assert!(b.try_consume(100, 7));
    assert_eq!(b.current_tokens, 3);
    assert!(!b.try_consume(100, 4));
    assert_eq!(b.current_tokens, 3);
    assert!(b.try_consume(101, 5));
    assert_eq!(b.current_tokens, 0);
    assert!(b.try_consume(200, 10));
    assert_eq!(b.last_refill_epoch, 200);
}

#[test]
fn token_bucket_refill_is_capped() {
    let mut b = TokenBucket::new(5, 1_000_000, 0);
    assert!(b.try_consume(0, 5));
    assert!(b.try_consume(50_000, 0));
    assert_eq!(b.current_tokens, 5);
}

#[test]
fn peer_rate_limiter_keeps_one_bucket_per_peer() {
    let mut lim = PeerRateLimiter::new(3, 1);
    let a = [1u8; 32];
    let b = [2u8; 32];
    assert!(lim.check_and_consume(&a, 10, 3));
    assert!(!lim.check_and_consume(&a, 10, 1));
    assert!(lim.check_and_consume(&b, 10, 2));
    assert!(lim.check_and_consume(&a, 11, 1));
}

#[test]
fn peer_jail_escalates_terms() {
    let mut jail = PeerJail::new();
    let p = [7u8; 32];
    assert!(!jail.record_penalty(&p, 60, 0));
    assert!(!jail.is_jailed(&p, 0));
    assert!(jail.record_penalty(&p, 40, 0));
    assert!(jail.is_jailed(&p, BASE_JAIL_DURATION_EPOCHS - 1));
    assert!(!jail.is_jailed(&p, BASE_JAIL_DURATION_EPOCHS));
    assert!(jail.record_penalty(&p, 100, 1000));
    assert!(jail.is_jailed(&p, 1000 + 2 * BASE_JAIL_DURATION_EPOCHS - 1));
    assert!(!jail.is_jailed(&p, 1000 + 2 * BASE_JAIL_DURATION_EPOCHS));
}
