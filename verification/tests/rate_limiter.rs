use std::time::{Duration, Instant};

use vnts::rate_limiter::{ByteRateLimiter, RefillRate};

fn rate(r: f64) -> RefillRate {
    RefillRate { bits: r.to_bits() }
}

/// Asks the limiter for tokens on the real clock.
fn acquire(limiter: &mut ByteRateLimiter, started: Instant, size: u64) -> bool {
    let now = started.elapsed().as_nanos() as u64;
    let elapsed = Duration::from_nanos(limiter.elapsed(now)).as_secs_f64();
    let credit = (elapsed * f64::from_bits(limiter.refill_rate().bits)).floor() as u64;
    limiter.try_acquire_bytes(size, now, credit)
}

#[test]
fn test_acquire() {
    let started = Instant::now();
    let mut limiter = ByteRateLimiter::new(1000, rate(1000.0), 0);
    assert!(acquire(&mut limiter, started, 500));
    assert!(!acquire(&mut limiter, started, 600));
}

#[test]
fn starts_full() {
    let limiter = ByteRateLimiter::new(1000, rate(1.0), 7);
    assert_eq!(limiter.tokens(), 1000);
    assert_eq!(limiter.refill_rate(), rate(1.0));
    assert_eq!(limiter.elapsed(7), 0);
    assert_eq!(limiter.elapsed(10), 3);
    assert_eq!(limiter.elapsed(3), 0);
}

#[test]
fn grants_what_it_holds_and_refuses_more() {
    let mut limiter = ByteRateLimiter::new(1000, rate(1000.0), 0);
    assert!(limiter.try_acquire_bytes(500, 1, 0));
    assert_eq!(limiter.tokens(), 500);
    assert!(!limiter.try_acquire_bytes(600, 2, 0));
    assert_eq!(limiter.tokens(), 500);
    assert!(limiter.try_acquire_bytes(600, 3, 100));
    assert_eq!(limiter.tokens(), 0);
    assert!(limiter.try_acquire_bytes(0, 4, 0));
}

#[test]
fn refill_stops_at_the_capacity() {
    let mut limiter = ByteRateLimiter::new(1000, rate(1.0), 0);
    assert!(limiter.try_acquire_bytes(10, 5, u64::MAX));
    assert_eq!(limiter.tokens(), 990);
    assert_eq!(limiter.elapsed(5), 0);
}

#[test]
fn refill_without_credit_keeps_the_time() {
    let mut limiter = ByteRateLimiter::new(1000, rate(1.0), 0);
    assert!(limiter.try_acquire_bytes(1, 40, 0));
    assert_eq!(limiter.elapsed(50), 50);
    assert!(limiter.try_acquire_bytes(1, 60, 1));
    assert_eq!(limiter.elapsed(70), 10);
}

#[test]
fn never_grants_more_than_it_was_credited() {
    let mut limiter = ByteRateLimiter::new(100, rate(1.0), 0);
    let mut granted = 0u64;
    let mut credited = 0u64;
    for i in 0..200u64 {
        let size = (i * 7) % 60;
        let credit = i % 5;
        credited += credit;
        if limiter.try_acquire_bytes(size, i, credit) {
            granted += size;
        }
        assert!(granted + limiter.tokens() <= 100 + credited);
        assert!(limiter.tokens() <= 100);
    }
    assert!(granted > 0);
}

#[test]
fn oversized_request_is_never_granted() {
    let mut limiter = ByteRateLimiter::new(100, rate(1.0), 0);
    for i in 0..10u64 {
        assert!(!limiter.try_acquire_bytes(101, i, 1000));
        assert_eq!(limiter.tokens(), 100);
    }
}

#[test]
fn set_rate_takes_positive_rates_only() {
    let mut limiter = ByteRateLimiter::new(100, rate(5.0), 0);
    limiter.set_rate(rate(0.0));
    assert_eq!(limiter.refill_rate(), rate(5.0));
    limiter.set_rate(rate(-1.0));
    assert_eq!(limiter.refill_rate(), rate(5.0));
    limiter.set_rate(rate(f64::NAN));
    assert_eq!(limiter.refill_rate(), rate(5.0));
    limiter.set_rate(rate(2.5));
    assert_eq!(limiter.refill_rate(), rate(2.5));
    assert_eq!(limiter.tokens(), 100);
}

#[test]
fn signs_of_rates_are_those_of_doubles() {
    let samples = [
        0.0,
        -0.0,
        1.0,
        -1.0,
        0.5,
        1e-320,
        -1e-320,
        f64::MIN_POSITIVE,
        f64::MAX,
        f64::MIN,
        f64::INFINITY,
        f64::NEG_INFINITY,
        f64::NAN,
        -f64::NAN,
        f64::EPSILON,
        1000.0,
    ];
    for x in samples {
        assert_eq!(rate(x).is_positive(), x > 0.0);
        assert_eq!(rate(x).is_at_most_zero(), x <= 0.0);
    }
}

#[test]
fn keeps_its_rate() {
    let per_second = 1000u64;
    let mut limiter = ByteRateLimiter::new(100, rate(per_second as f64), 0);
    let mut granted = 0u64;
    let mut now = 0u64;
    for i in 0..500u64 {
        now += 300_000 + (i % 7) * 400_000;
        let credit = limiter.elapsed(now) * per_second / 1_000_000_000;
        if limiter.try_acquire_bytes(i % 11, now, credit) {
            granted += i % 11;
        }
        assert!(granted * 1_000_000_000 <= 100 * 1_000_000_000 + per_second * now);
    }
    assert!(granted > 100);
}

#[test]
fn early_refills_lose_nothing() {
    let per_second = 3u64;
    let credit = |l: &ByteRateLimiter, now: u64| l.elapsed(now) * per_second / 1_000_000_000;
    let mut often = ByteRateLimiter::new(10, rate(per_second as f64), 0);
    let mut once = ByteRateLimiter::new(10, rate(per_second as f64), 0);
    assert!(often.try_acquire_bytes(10, 0, 0));
    assert!(once.try_acquire_bytes(10, 0, 0));
    for i in 1..10u64 {
        let now = i * 33_000_000;
        let n = credit(&often, now);
        assert_eq!(n, 0);
        assert!(!often.try_acquire_bytes(5, now, n));
    }
    let now = 1_000_000_000;
    let n = credit(&often, now);
    assert!(often.try_acquire_bytes(0, now, n));
    let n = credit(&once, now);
    assert!(once.try_acquire_bytes(0, now, n));
    assert_eq!(often.tokens(), 3);
    assert_eq!(once.tokens(), 3);
    assert_eq!(often.elapsed(now + 9), once.elapsed(now + 9));
}

#[test]
fn refusals_cost_nothing() {
    let mut limiter = ByteRateLimiter::new(10, rate(1.0), 0);
    for now in 1..6u64 {
        assert!(!limiter.try_acquire_bytes(11, now, 0));
    }
    assert_eq!(limiter.tokens(), 10);
    assert_eq!(limiter.elapsed(8), 8);
    assert!(limiter.try_acquire_bytes(10, 9, 0));
}

#[test]
fn keeps_a_fractional_rate() {
    let mut limiter = ByteRateLimiter::new(10, rate(2.5), 0);
    let mut granted = 0u64;
    let mut now = 0u64;
    for i in 0..400u64 {
        now += 70_000_000 + (i % 5) * 30_000_000;
        let credit = limiter.elapsed(now) * 5 / (2 * 1_000_000_000);
        if limiter.try_acquire_bytes(1 + i % 2, now, credit) {
            granted += 1 + i % 2;
        }
        assert!(granted * 2 * 1_000_000_000 <= 10 * 2 * 1_000_000_000 + 5 * now);
    }
    assert!(granted > 100);
}

#[test]
fn whole_rates_are_those_of_doubles() {
    let mut samples = vec![0u64, 1, 2, 3, 5, 7, 10, 1000, 1500, 65535, 1_000_000, u64::MAX];
    for k in 1..64 {
        let p = 1u64 << k;
        for d in [0u64, 1, 2, 3, 4, 5, 511, 512, 513, 1023, 1024, 1025, 1536, 2048, 3072] {
            samples.push(p.saturating_add(d));
            samples.push(p.saturating_sub(d));
        }
    }
    let mut x = 88172645463325252u64;
    for i in 0..20000 {
        x ^= x << 13;
        x ^= x >> 7;
        x ^= x << 17;
        samples.push(x >> (i % 64));
    }
    for n in samples {
        assert_eq!(RefillRate::whole(n), rate(n as f64), "{}", n);
    }
}

#[test]
fn refills_without_requests() {
    let mut limiter = ByteRateLimiter::new(10, rate(1.0), 0);
    assert!(limiter.try_acquire_bytes(10, 0, 0));
    limiter.refill(5, 0);
    assert_eq!(limiter.tokens(), 0);
    assert_eq!(limiter.elapsed(7), 7);
    limiter.refill(7, 4);
    assert_eq!(limiter.tokens(), 4);
    assert_eq!(limiter.elapsed(7), 0);
    limiter.refill(9, 40);
    assert_eq!(limiter.tokens(), 10);
}
