//! Rate limiting: token buckets seated by the library.

use fehu_webapp::account::UserId;
use fehu_webapp::limit::{Buckets, Charged, Decision, MAX_BUCKETS};

/// Tokens per second, and how many can be saved up.
#[derive(Clone, Copy)]
struct Rate {
    per_sec: f64,
    burst: f64,
}

#[derive(Clone, Copy)]
struct Bucket {
    tokens: f64,
    at_ms: u64,
}

impl Bucket {
    fn refilled(&self, rate: Rate, now_ms: u64) -> f64 {
        let elapsed = now_ms.saturating_sub(self.at_ms) as f64 / 1000.0;
        (self.tokens + elapsed * rate.per_sec).min(rate.burst)
    }
}

struct Limiter {
    rate: Rate,
    users: Buckets<Bucket>,
    anonymous: Bucket,
}

impl Limiter {
    fn new(rate: Rate) -> Self {
        Limiter { rate, users: Buckets::new(), anonymous: Bucket { tokens: rate.burst, at_ms: 0 } }
    }

    fn held(&self) -> usize {
        self.users.count()
    }

    fn take(&mut self, who: Option<UserId>, now_ms: u64) -> Decision {
        let rate = self.rate;
        if rate.per_sec <= 0.0 {
            return Decision::Allowed;
        }
        let held = if self.users.must_sweep(who) { self.users.count() } else { 0 };
        let full: Vec<UserId> = (0..held)
            .map(|i| self.users.at(i))
            .filter(|(_, bucket)| bucket.refilled(rate, now_ms) >= rate.burst)
            .map(|(user, _)| user)
            .collect();
        let fresh = Bucket { tokens: rate.burst, at_ms: now_ms };
        let bucket = match (self.users.let_in(who, &full, fresh), who) {
            (Charged::Own, Some(user)) => self.users.bucket_mut(user).expect("the user was just seated"),
            _ => &mut self.anonymous,
        };
        let tokens = bucket.refilled(rate, now_ms);
        bucket.at_ms = now_ms;
        if tokens >= 1.0 {
            bucket.tokens = tokens - 1.0;
            Decision::Allowed
        } else {
            bucket.tokens = tokens;
            let secs = ((1.0 - tokens) / rate.per_sec).clamp(0.0, 3600.0);
            Decision::Limited { retry_after_nanos: (secs * 1e9) as u64 }
        }
    }
}

const RATE: Rate = Rate { per_sec: 2.0, burst: 3.0 };

fn allowed(d: Decision) -> bool {
    d == Decision::Allowed
}

#[test]
fn a_burst_is_spent_then_refills_at_the_rate() {
    let mut limiter = Limiter::new(RATE);
    let user = Some(UserId(1));
    for i in 0..3 {
        assert!(allowed(limiter.take(user, 0)), "burst request {i}");
    }
    let refused = limiter.take(user, 0);
    let Decision::Limited { retry_after_nanos } = refused else {
        panic!("the fourth request in the same instant must be refused");
    };
    assert!(
        (retry_after_nanos as f64 / 1e9 - 0.5).abs() < 1e-6,
        "half a second earns the next token at 2/s: {retry_after_nanos}"
    );
    assert_eq!(refused.retry_after_secs(), Some(1));
    // Half a second later there is exactly one token, and no more.
    assert!(allowed(limiter.take(user, 500)));
    assert!(!allowed(limiter.take(user, 500)));
    // A long quiet spell refills to the burst and no further.
    assert!(allowed(limiter.take(user, 60_000)));
    assert!(allowed(limiter.take(user, 60_000)));
    assert!(allowed(limiter.take(user, 60_000)));
    assert!(!allowed(limiter.take(user, 60_000)));
}

#[test]
fn one_client_cannot_spend_anothers_allowance() {
    let mut limiter = Limiter::new(RATE);
    for _ in 0..3 {
        assert!(allowed(limiter.take(Some(UserId(1)), 0)));
    }
    assert!(!allowed(limiter.take(Some(UserId(1)), 0)));
    assert!(allowed(limiter.take(Some(UserId(2)), 0)));
    // And the anonymous bucket is separate from both.
    assert!(allowed(limiter.take(None, 0)));
    assert!(allowed(limiter.take(None, 0)));
    assert!(allowed(limiter.take(None, 0)));
    assert!(!allowed(limiter.take(None, 0)));
    assert!(allowed(limiter.take(Some(UserId(2)), 0)));
}

#[test]
fn a_zero_rate_limits_nothing() {
    let mut limiter = Limiter::new(Rate { per_sec: 0.0, burst: 0.0 });
    for _ in 0..1_000 {
        assert!(allowed(limiter.take(Some(UserId(1)), 0)));
    }
}

#[test]
fn a_full_table_gets_stricter_rather_than_looser() {
    let mut limiter = Limiter::new(RATE);
    // One client mid-burst, then enough others to fill the table. None of
    // them is full, so there is nothing to sweep.
    let held = Some(UserId(0));
    for _ in 0..3 {
        assert!(allowed(limiter.take(held, 0)));
    }
    for i in 1..MAX_BUCKETS as u64 {
        assert!(allowed(limiter.take(Some(UserId(i)), 0)));
    }
    assert_eq!(limiter.held(), MAX_BUCKETS, "the table is full");

    // A client there is no room for falls back to the shared bucket instead
    // of being given one of its own.
    let crowd = MAX_BUCKETS as u64 + 1;
    for i in 0..3 {
        assert!(allowed(limiter.take(Some(UserId(crowd + i)), 0)));
    }
    assert!(!allowed(limiter.take(Some(UserId(crowd + 99)), 0)));
    assert_eq!(limiter.held(), MAX_BUCKETS, "and nothing was evicted");
    assert!(!allowed(limiter.take(held, 0)), "the client mid-burst kept its empty bucket");

    // Once the table's buckets refill they are swept, and a new client gets
    // its own again.
    assert!(allowed(limiter.take(Some(UserId(crowd)), 600_000)));
    assert!(limiter.held() < MAX_BUCKETS, "the full ones went");
}

#[test]
fn a_refusal_never_advises_waiting_no_time_at_all() {
    assert_eq!(Decision::Allowed.retry_after_secs(), None);
    assert_eq!(Decision::Limited { retry_after_nanos: 0 }.retry_after_secs(), Some(1));
    assert_eq!(Decision::Limited { retry_after_nanos: 1_000_000_000 }.retry_after_secs(), Some(1));
    assert_eq!(Decision::Limited { retry_after_nanos: 1_000_000_001 }.retry_after_secs(), Some(2));
}

#[test]
fn only_a_crowded_newcomer_has_the_full_buckets_swept() {
    let mut buckets: Buckets<u64> = Buckets::new();
    for i in 0..MAX_BUCKETS as u64 {
        assert_eq!(buckets.let_in(Some(UserId(i)), &vec![UserId(0)], i), Charged::Own);
    }
    assert_eq!(buckets.count(), MAX_BUCKETS, "there was room, so nothing was swept");
    let newcomer = Some(UserId(99_999));
    assert!(buckets.must_sweep(newcomer) && !buckets.must_sweep(Some(UserId(1))));
    assert_eq!(buckets.let_in(newcomer, &vec![], 7), Charged::Shared);
    assert_eq!(buckets.let_in(None, &vec![UserId(1)], 7), Charged::Shared);
    assert_eq!(buckets.count(), MAX_BUCKETS);
    assert_eq!(buckets.bucket_mut(UserId(1)).copied(), Some(1), "and every bucket is as it was");
    assert_eq!(buckets.let_in(newcomer, &vec![UserId(3), UserId(4)], 7), Charged::Own);
    assert_eq!(buckets.count(), MAX_BUCKETS - 1);
    assert!(buckets.bucket_mut(UserId(3)).is_none());
    let (user, bucket) = buckets.at(3);
    assert_eq!((user, *bucket), (UserId(5), 5), "the users are listed by id");
}
