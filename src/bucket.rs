use std::time::{Duration, Instant};
use vstd::prelude::*;

verus! {

#[verifier::external_type_specification]
#[verifier::external_body]
pub struct ExInstant(Instant);

/// Relies on `Instant::now`: a reading of the monotonic clock. Nothing is known of its value.
pub assume_specification[ Instant::now ]() -> Instant;

/// Relies on `Instant::elapsed`: the time since the reading. Nothing is known of its value.
pub assume_specification[ Instant::elapsed ](i: &Instant) -> Duration;

/// Relies on `Duration::as_millis`: the whole milliseconds of a duration.
pub assume_specification[ Duration::as_millis ](d: &Duration) -> u128;

/// Milliseconds in one second: the refill counts whole seconds.
pub const MILLIS_PER_SECOND: u64 = 1000;

/// The abstract state of a token bucket.
pub ghost struct BucketModel {
    pub capacity: nat,
    pub tokens: nat,
    pub rate: nat,
    /// Milliseconds since the bucket was made, at the last refill.
    pub updated: nat,
}

/// Whole seconds between two clock readings in milliseconds; none when the clock went back.
pub open spec fn elapsed_secs(updated: nat, now: nat) -> nat {
    if now >= updated {
        ((now - updated) as int / MILLIS_PER_SECOND as int) as nat
    } else {
        0
    }
}

/// Tokens after a refill: what was there plus what accrued, capped at the capacity.
pub open spec fn refilled(tokens: nat, capacity: nat, secs: nat, rate: nat) -> nat {
    if tokens + secs * rate <= capacity {
        tokens + secs * rate
    } else {
        capacity
    }
}

/// The state after a take at clock reading `now`, and whether a token was granted.
pub open spec fn take_step(b: BucketModel, now: nat) -> (BucketModel, bool) {
    let t = refilled(b.tokens, b.capacity, elapsed_secs(b.updated, now), b.rate);
    if t > 0 {
        (BucketModel { tokens: (t - 1) as nat, updated: now, ..b }, true)
    } else {
        (BucketModel { tokens: t, updated: now, ..b }, false)
    }
}

/// A rate limiter: grants at most `capacity` calls in a burst and refills
/// `rate` tokens for each whole second that passes.
pub struct TokenBucket {
    capacity: usize,
    tokens: usize,
    rate_in_seconds: u64,
    origin: Instant,
    updated: u64,
}

impl View for TokenBucket {
    type V = BucketModel;

    closed spec fn view(&self) -> BucketModel {
        BucketModel {
            capacity: self.capacity as nat,
            tokens: self.tokens as nat,
            rate: self.rate_in_seconds as nat,
            updated: self.updated as nat,
        }
    }
}

impl TokenBucket {
    #[verifier::type_invariant]
    spec fn within_capacity(&self) -> bool {
        self.tokens <= self.capacity
    }

    /// A full bucket whose clock starts now.
    pub fn new(capacity: usize, rate: u64) -> (b: Self)
        ensures
            b@ == (BucketModel { capacity: capacity as nat, tokens: capacity as nat, rate: rate as nat, updated: 0 }),
    {
        TokenBucket { capacity, tokens: capacity, rate_in_seconds: rate, origin: Instant::now(), updated: 0 }
    }

    pub fn capacity(&self) -> (r: usize)
        ensures
            r == self@.capacity,
    {
        self.capacity
    }

    pub fn tokens(&self) -> (r: usize)
        ensures
            r == self@.tokens,
    {
        self.tokens
    }

    pub fn rate(&self) -> (r: u64)
        ensures
            r == self@.rate,
    {
        self.rate_in_seconds
    }

    /// Milliseconds since the bucket was made, at the last refill.
    pub fn updated_millis(&self) -> (r: u64)
        ensures
            r == self@.updated,
    {
        self.updated
    }

    /// Refills for the whole seconds between the last refill and `now` (milliseconds
    /// since the bucket was made), records `now` as the last refill, and takes one
    /// token if there is one.
    pub fn take_at(&mut self, now: u64) -> (granted: bool)
        ensures
            (final(self)@, granted) == take_step(old(self)@, now as nat),
            final(self)@.tokens <= final(self)@.capacity,
    {
        proof {
            use_type_invariant(&*self);
        }
        let secs: u64 = if now >= self.updated {
            (now - self.updated) / MILLIS_PER_SECOND
        } else {
            0
        };
        let room: u64 = (self.capacity - self.tokens) as u64;
        let tokens: usize = if secs == 0 || self.rate_in_seconds == 0 {
            self.tokens
        } else if secs > room / self.rate_in_seconds {
            proof {
                assert(secs * self.rate_in_seconds > room) by (nonlinear_arith)
                    requires
                        secs > room / self.rate_in_seconds,
                        self.rate_in_seconds > 0,
                ;
            }
            self.capacity
        } else {
            proof {
                assert(secs * self.rate_in_seconds <= room) by (nonlinear_arith)
                    requires
                        secs <= room / self.rate_in_seconds,
                        self.rate_in_seconds > 0,
                ;
            }
            self.tokens + (secs * self.rate_in_seconds) as usize
        };
        self.updated = now;
        if tokens > 0 {
            self.tokens = tokens - 1;
            true
        } else {
            self.tokens = tokens;
            false
        }
    }

    /// Takes one token if there is one, after refilling for the time that passed
    /// since the last refill. Never blocks.
    pub fn take(&mut self) -> (granted: bool)
        ensures
            exists|now: nat| (final(self)@, granted) == take_step(old(self)@, now),
            final(self)@.tokens <= final(self)@.capacity,
    {
        let ms: u128 = self.origin.elapsed().as_millis();
        let now: u64 = if ms > u64::MAX as u128 {
            u64::MAX
        } else {
            ms as u64
        };
        self.take_at(now)
    }
}

/// The state after takes at each of the clock readings in `times`, in order.
pub open spec fn run_takes(b: BucketModel, times: Seq<nat>) -> BucketModel
    decreases times.len(),
{
    if times.len() == 0 {
        b
    } else {
        run_takes(take_step(b, times[0]).0, times.drop_first())
    }
}

/// Whatever the takes and the time between them, a bucket that starts within its
/// capacity stays within it: the token count never exceeds the capacity (and, being
/// a natural number, never goes negative).
pub proof fn lemma_tokens_within_capacity(b: BucketModel, times: Seq<nat>)
    requires
        b.tokens <= b.capacity,
    ensures
        run_takes(b, times).tokens <= run_takes(b, times).capacity,
        run_takes(b, times).capacity == b.capacity,
    decreases times.len(),
{
    if times.len() > 0 {
        lemma_tokens_within_capacity(take_step(b, times[0]).0, times.drop_first());
    }
}

/// Whether each take of a run was granted, in order.
pub open spec fn grants(b: BucketModel, times: Seq<nat>) -> Seq<bool>
    decreases times.len(),
{
    if times.len() == 0 {
        Seq::empty()
    } else {
        let (next, granted) = take_step(b, times[0]);
        seq![granted] + grants(next, times.drop_first())
    }
}

/// `k` clock readings, all equal to `t`.
pub open spec fn at_once(t: nat, k: nat) -> Seq<nat> {
    Seq::new(k, |i: int| t)
}

proof fn lemma_takes_at_once(s: BucketModel, t: nat, k: nat)
    requires
        s.updated == t,
        s.tokens <= s.capacity,
        k <= s.tokens,
    ensures
        grants(s, at_once(t, k)) == Seq::new(k, |i: int| true),
        run_takes(s, at_once(t, k)) == (BucketModel { tokens: (s.tokens - k) as nat, ..s }),
    decreases k,
{
    if k == 0 {
        assert(grants(s, at_once(t, k)) =~= Seq::new(k, |i: int| true));
        assert(run_takes(s, at_once(t, k)) == s);
    } else {
        let next = BucketModel { tokens: (s.tokens - 1) as nat, ..s };
        assert(elapsed_secs(s.updated, t) == 0);
        assert(take_step(s, t) == (next, true));
        assert(at_once(t, k).drop_first() =~= at_once(t, (k - 1) as nat));
        lemma_takes_at_once(next, t, (k - 1) as nat);
        assert(grants(s, at_once(t, k)) =~= Seq::new(k, |i: int| true));
    }
}

/// A full bucket grants a burst of exactly `capacity` takes at one instant and
/// refuses the next one; a whole second later, with a positive rate, it grants
/// again.
pub proof fn lemma_burst_then_refill(b: BucketModel, t: nat)
    requires
        b.tokens == b.capacity,
        b.updated <= t,
    ensures
        grants(b, at_once(t, b.capacity)) == Seq::new(b.capacity, |i: int| true),
        !take_step(run_takes(b, at_once(t, b.capacity)), t).1,
        b.rate > 0 && b.capacity > 0 ==> take_step(run_takes(b, at_once(t, b.capacity)), t + 1000).1,
{
    let k = b.capacity;
    let end = BucketModel { tokens: 0, updated: t, ..b };
    if k == 0 {
        assert(grants(b, at_once(t, k)) =~= Seq::new(k, |i: int| true));
        assert(run_takes(b, at_once(t, k)) == b);
        let secs = elapsed_secs(b.updated, t);
        assert(secs * b.rate >= 0) by (nonlinear_arith);
        assert(refilled(b.tokens, b.capacity, secs, b.rate) == 0);
        assert(!take_step(b, t).1);
    } else {
        let next = BucketModel { tokens: (k - 1) as nat, updated: t, ..b };
        assert(refilled(b.tokens, b.capacity, elapsed_secs(b.updated, t), b.rate) == k) by (nonlinear_arith)
            requires
                b.tokens == b.capacity,
                k == b.capacity,
        ;
        assert(take_step(b, t) == (next, true));
        assert(at_once(t, k).drop_first() =~= at_once(t, (k - 1) as nat));
        lemma_takes_at_once(next, t, (k - 1) as nat);
        assert(grants(b, at_once(t, k)) =~= Seq::new(k, |i: int| true));
        assert(run_takes(b, at_once(t, k)) == end);
        assert(elapsed_secs(t, t) == 0);
        assert(0 * b.rate == 0);
        assert(!take_step(end, t).1);
        assert(elapsed_secs(t, t + 1000) == 1);
        assert(1 * b.rate == b.rate);
    }
}

} // verus!
