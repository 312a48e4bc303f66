//! A token bucket that limits bytes.

use vstd::arithmetic::power2;
use vstd::prelude::*;

verus! {

/// The bit pattern of positive infinity, the largest double.
pub const INFINITY_BITS: u64 = 0x7ff0_0000_0000_0000;

/// The bit pattern of negative zero, the first pattern with the sign bit.
pub const NEGATIVE_ZERO_BITS: u64 = 0x8000_0000_0000_0000;

/// The bit pattern of negative infinity.
pub const NEGATIVE_INFINITY_BITS: u64 = 0xfff0_0000_0000_0000;

/// The leading bit of a double's significand, which its bit pattern leaves out.
pub const LEADING_BIT: u64 = 0x10_0000_0000_0000;

/// The exponent field of the doubles from 1 up to 2, less the one that the leading bit adds to it.
pub const EXPONENT_OF_ONE: u64 = 1022;

/// The exponent of the highest power of two in a number.
pub open spec fn exponent(n: nat) -> nat
    decreases n,
{
    if n <= 1 {
        0
    } else {
        1 + exponent(n / 2)
    }
}

/// A number divided by a unit and rounded to the nearest whole number, to the even one of two.
pub open spec fn rounded(n: nat, unit: nat) -> nat {
    let q = n / unit;
    let rest = n % unit;
    if rest * 2 > unit || (rest * 2 == unit && q % 2 == 1) {
        q + 1
    } else {
        q
    }
}

/// The significand of the double for a positive number, with its leading bit: the number is scaled
/// so that its highest bit becomes the leading bit, and what is below the unit is rounded.
pub open spec fn significand(n: nat) -> nat {
    let p = power2::pow2(exponent(n));
    if p <= LEADING_BIT {
        n * (LEADING_BIT as nat / p)
    } else {
        rounded(n, p / LEADING_BIT as nat)
    }
}

/// A rate in bytes per second, carried as the bit pattern of an IEEE 754 double.
#[derive(Clone, Copy, Debug, PartialEq, Eq, Structural)]
pub struct RefillRate {
    pub bits: u64,
}

impl RefillRate {
    /// The bit pattern of the double that is nearest to a whole number: the exponent field above
    /// the significand. A significand that was rounded up to the next power of two carries over
    /// into the exponent.
    pub open spec fn whole_bits(n: nat) -> nat {
        if n == 0 {
            0
        } else {
            (EXPONENT_OF_ONE as nat + exponent(n)) * LEADING_BIT as nat + significand(n)
        }
    }

    /// The rate of a whole number of bytes per second.
    pub fn whole(n: u64) -> (r: Self)
        ensures
            r.bits == Self::whole_bits(n as nat),
            n > 0 ==> r.positive(),
            n > 0 ==> !r.at_most_zero(),
    {
        if n == 0 {
            return RefillRate { bits: 0 };
        }
        let mut k: u64 = 0;
        let mut p: u64 = 1;
        let mut m: u64 = n;
        proof {
            power2::lemma2_to64();
            assert(1 * m <= n < 1 * (m + 1));
        }
        while m > 1
            invariant
                1 <= m,
                exponent(n as nat) == k + exponent(m as nat),
                p == power2::pow2(k as nat),
                p * m <= n < p * (m + 1),
                k < 64,
            decreases m,
        {
            proof {
                power2::lemma_pow2_unfold((k + 1) as nat);
                let h = m / 2;
                assert(p * 2 * h <= n < p * 2 * (h + 1) && p * 2 <= n) by (nonlinear_arith)
                    requires
                        p * m <= n < p * (m + 1),
                        2 * h <= m,
                        m < 2 * h + 2,
                        h >= 1,
                ;
                if k + 1 >= 64 {
                    power2::lemma2_to64_rest();
                    if k + 1 > 64 {
                        power2::lemma_pow2_strictly_increases(64, (k + 1) as nat);
                    }
                }
            }
            p = p * 2;
            m = m / 2;
            k = k + 1;
        }
        assert(p * m == p && p * (m + 1) == 2 * p) by (nonlinear_arith)
            requires
                m == 1,
        ;
        proof {
            power2::lemma_pow2_pos(k as nat);
        }
        let s: u64 = if p <= LEADING_BIT {
            let scale: u64 = LEADING_BIT / p;
            assert(n * scale < 2 * LEADING_BIT) by (nonlinear_arith)
                requires
                    n < 2 * p,
                    p > 0,
                    scale == LEADING_BIT / p,
                    p <= LEADING_BIT,
            ;
            n * scale
        } else {
            let unit: u64 = p / LEADING_BIT;
            let q: u64 = n / unit;
            let rest: u64 = n % unit;
            assert(q < 4 * LEADING_BIT) by (nonlinear_arith)
                requires
                    n < 2 * p,
                    p < (unit + 1) * LEADING_BIT,
                    unit >= 1,
                    q == n / unit,
            ;
            if rest > unit - rest || (rest == unit - rest && q % 2 == 1) {
                q + 1
            } else {
                q
            }
        };
        RefillRate { bits: (EXPONENT_OF_ONE + k) * LEADING_BIT + s }
    }

    /// The double is greater than zero. Positive doubles have their bit patterns from that of the
    /// smallest subnormal up to that of infinity.
    pub open spec fn positive(self) -> bool {
        0 < self.bits <= INFINITY_BITS
    }

    /// The double is zero or less. That is no negation: a pattern that is not a number is
    /// neither greater than zero nor zero or less.
    pub open spec fn at_most_zero(self) -> bool {
        self.bits == 0 || NEGATIVE_ZERO_BITS <= self.bits <= NEGATIVE_INFINITY_BITS
    }

    /// Whether the rate is greater than zero.
    pub fn is_positive(&self) -> (r: bool)
        ensures
            r == self.positive(),
    {
        0 < self.bits && self.bits <= INFINITY_BITS
    }

    /// Whether the rate is zero or less.
    pub fn is_at_most_zero(&self) -> (r: bool)
        ensures
            r == self.at_most_zero(),
    {
        self.bits == 0 || (NEGATIVE_ZERO_BITS <= self.bits && self.bits <= NEGATIVE_INFINITY_BITS)
    }
}

/// The state of a byte rate limiter.
pub ghost struct Bucket {
    /// The most tokens that the bucket holds, in bytes.
    pub capacity: nat,
    /// The tokens that it holds.
    pub tokens: nat,
    /// How fast it fills.
    pub refill_rate: RefillRate,
    /// When it was last filled, in nanoseconds.
    pub last_refill: nat,
}

impl Bucket {
    /// The bucket can hold something, holds no more than it can, and fills.
    pub open spec fn wf(self) -> bool {
        &&& 0 < self.capacity
        &&& self.tokens <= self.capacity
        &&& !self.refill_rate.at_most_zero()
    }

    /// The nanoseconds from the last refill to `now`; none, if that is not in the past.
    pub open spec fn elapsed(self, now: nat) -> nat {
        if now >= self.last_refill {
            (now - self.last_refill) as nat
        } else {
            0
        }
    }

    /// The bucket after a refill at `now` by `credit` tokens. What does not fit is lost. Without
    /// credit the refill does not happen, so that the time that passed counts toward the next one.
    pub open spec fn refilled(self, now: nat, credit: nat) -> Bucket {
        if credit > 0 {
            Bucket {
                tokens: if self.tokens + credit <= self.capacity {
                    self.tokens + credit
                } else {
                    self.capacity
                },
                last_refill: now,
                ..self
            }
        } else {
            self
        }
    }

    /// The bucket after a refill at `now` by the tokens that `credit_of` makes of the time since the
    /// last refill at the bucket's rate.
    pub open spec fn refilled_by(
        self,
        now: nat,
        credit_of: spec_fn(nat, RefillRate) -> nat,
    ) -> Bucket {
        self.refilled(now, credit_of(self.elapsed(now), self.refill_rate))
    }

    /// Whether a request for `size` tokens is granted, once the bucket was refilled.
    pub open spec fn grants(self, size: nat, now: nat, credit: nat) -> bool {
        size <= self.refilled(now, credit).tokens
    }

    /// The bucket after a request: refilled, and poorer by `size` tokens if that was granted.
    pub open spec fn asked(self, size: nat, now: nat, credit: nat) -> Bucket {
        let filled = self.refilled(now, credit);
        if self.grants(size, now, credit) {
            Bucket { tokens: (filled.tokens - size) as nat, ..filled }
        } else {
            filled
        }
    }
}

/// A byte rate limiter: a bucket of tokens, one for each byte.
///
/// The limiter reads no clock and does no floating-point arithmetic. Its owner says what the time
/// is, in nanoseconds since a moment of its choice, and how many whole tokens `refill_rate` makes
/// of `elapsed`.
#[derive(Debug)]
pub struct ByteRateLimiter {
    capacity: u64,
    tokens: u64,
    refill_rate: RefillRate,
    last_refill: u64,
}

impl View for ByteRateLimiter {
    type V = Bucket;

    closed spec fn view(&self) -> Bucket {
        Bucket {
            capacity: self.capacity as nat,
            tokens: self.tokens as nat,
            refill_rate: self.refill_rate,
            last_refill: self.last_refill as nat,
        }
    }
}

impl ByteRateLimiter {
    /// The bucket is well formed.
    #[verifier::type_invariant]
    spec fn inv(&self) -> bool {
        self@.wf()
    }

    /// A full limiter.
    pub fn new(capacity: u64, refill_rate: RefillRate, now: u64) -> (r: Self)
        requires
            capacity > 0,
            !refill_rate.at_most_zero(),
        ensures
            r@ == (Bucket {
                capacity: capacity as nat,
                tokens: capacity as nat,
                refill_rate,
                last_refill: now as nat,
            }),
            r@.wf(),
    {
        ByteRateLimiter { capacity, tokens: capacity, refill_rate, last_refill: now }
    }

    /// Refills the bucket and takes `size` tokens out of it, if it holds that many. `credit` is
    /// the number of tokens that came in since the last refill.
    pub fn try_acquire_bytes(&mut self, size: u64, now: u64, credit: u64) -> (r: bool)
        ensures
            r == old(self)@.grants(size as nat, now as nat, credit as nat),
            final(self)@ == old(self)@.asked(size as nat, now as nat, credit as nat),
            final(self)@.wf(),
    {
        self.refill(now, credit);
        proof {
            use_type_invariant(&*self);
        }
        if size <= self.tokens {
            self.tokens = self.tokens - size;
            true
        } else {
            false
        }
    }

    /// The tokens that can be had now.
    pub fn tokens(&self) -> (r: u64)
        ensures
            r == self@.tokens,
            self@.wf(),
    {
        proof {
            use_type_invariant(self);
        }
        self.tokens
    }

    /// The rate at which the bucket fills.
    pub fn refill_rate(&self) -> (r: RefillRate)
        ensures
            r == self@.refill_rate,
            self@.wf(),
    {
        proof {
            use_type_invariant(self);
        }
        self.refill_rate
    }

    /// The nanoseconds since the last refill; none, if that is not in the past.
    pub fn elapsed(&self, now: u64) -> (r: u64)
        ensures
            r == self@.elapsed(now as nat),
            self@.wf(),
    {
        proof {
            use_type_invariant(self);
        }
        now.saturating_sub(self.last_refill)
    }

    /// Sets the rate at which the bucket fills. A rate that is not greater than zero is ignored.
    pub fn set_rate(&mut self, rate: RefillRate)
        ensures
            final(self)@ == if rate.positive() {
                Bucket { refill_rate: rate, ..old(self)@ }
            } else {
                old(self)@
            },
            final(self)@.wf(),
    {
        proof {
            use_type_invariant(&*self);
        }
        if rate.is_positive() {
            self.refill_rate = rate;
        }
    }

    /// Puts `credit` tokens into the bucket. Without credit nothing changes, and no time is lost.
    pub fn refill(&mut self, now: u64, credit: u64)
        ensures
            final(self)@ == old(self)@.refilled(now as nat, credit as nat),
            credit == 0 ==> final(self)@ == old(self)@,
            final(self)@.wf(),
    {
        proof {
            use_type_invariant(&*self);
        }
        if credit > 0 {
            let sum: u64 = self.tokens.saturating_add(credit);
            self.tokens = if sum <= self.capacity {
                sum
            } else {
                self.capacity
            };
            self.last_refill = now;
        }
    }
}

/// A request to a limiter.
pub ghost struct Request {
    pub size: nat,
    pub now: nat,
    pub credit: nat,
}

/// The bucket after a series of requests.
pub open spec fn after_requests(bucket: Bucket, requests: Seq<Request>) -> Bucket
    decreases requests.len(),
{
    if requests.len() == 0 {
        bucket
    } else {
        let r = requests.last();
        after_requests(bucket, requests.drop_last()).asked(r.size, r.now, r.credit)
    }
}

/// The bytes that a series of requests was granted.
pub open spec fn granted(bucket: Bucket, requests: Seq<Request>) -> nat
    decreases requests.len(),
{
    if requests.len() == 0 {
        0
    } else {
        let r = requests.last();
        let before = after_requests(bucket, requests.drop_last());
        granted(bucket, requests.drop_last()) + if before.grants(r.size, r.now, r.credit) {
            r.size
        } else {
            0
        }
    }
}

/// The tokens that came in over a series of requests.
pub open spec fn credited(requests: Seq<Request>) -> nat
    decreases requests.len(),
{
    if requests.len() == 0 {
        0
    } else {
        credited(requests.drop_last()) + requests.last().credit
    }
}

/// Whatever is asked for, the limiter grants no more bytes than it held at the start and was
/// credited with since; what it still holds counts against that too, and is never more than its
/// capacity.
pub proof fn law_no_more_than_credited(bucket: Bucket, requests: Seq<Request>)
    requires
        bucket.wf(),
    ensures
        granted(bucket, requests) + after_requests(bucket, requests).tokens <= bucket.tokens
            + credited(requests),
        after_requests(bucket, requests).tokens <= bucket.capacity,
        after_requests(bucket, requests).capacity == bucket.capacity,
        after_requests(bucket, requests).wf(),
    decreases requests.len(),
{
    if requests.len() > 0 {
        law_no_more_than_credited(bucket, requests.drop_last());
    }
}

/// Nanoseconds in a second.
pub const NANOS: u64 = 1_000_000_000;

/// Whether every credit is earned: no request is credited with more tokens than a rate of
/// `num / den` bytes per second makes of the time since the last refill.
pub open spec fn earned(bucket: Bucket, requests: Seq<Request>, num: nat, den: nat) -> bool
    decreases requests.len(),
{
    requests.len() > 0 ==> {
        let r = requests.last();
        let before = after_requests(bucket, requests.drop_last());
        &&& earned(bucket, requests.drop_last(), num, den)
        &&& r.credit > 0 ==> r.credit * (den * NANOS) <= num * (r.now - before.last_refill)
    }
}

/// A limiter keeps its rate: where every credit is earned at `num / den` bytes per second, the
/// bytes that it grants are no more than what it held at the start and what that rate makes of
/// the time up to its last refill.
pub proof fn law_fractional_rate_is_kept(
    bucket: Bucket,
    requests: Seq<Request>,
    num: nat,
    den: nat,
)
    requires
        bucket.wf(),
        earned(bucket, requests, num, den),
    ensures
        granted(bucket, requests) * (den * NANOS) <= bucket.tokens * (den * NANOS) + num * (
        after_requests(bucket, requests).last_refill - bucket.last_refill),
{
    law_no_more_than_credited(bucket, requests);
    lemma_credit_is_earned(bucket, requests, num, den);
    let g = granted(bucket, requests);
    let c = credited(requests);
    let scale = (den * NANOS) as nat;
    assert(g * scale <= (bucket.tokens + c) * scale) by (nonlinear_arith)
        requires
            g <= bucket.tokens + c,
    ;
    assert((bucket.tokens + c) * scale == bucket.tokens * scale + c * scale) by (nonlinear_arith);
}

/// A limiter keeps a whole rate of `rate` bytes per second.
pub proof fn law_rate_is_kept(bucket: Bucket, requests: Seq<Request>, rate: nat)
    requires
        bucket.wf(),
        earned(bucket, requests, rate, 1),
    ensures
        granted(bucket, requests) * NANOS <= bucket.tokens * NANOS + rate * (after_requests(
            bucket,
            requests,
        ).last_refill - bucket.last_refill),
{
    law_fractional_rate_is_kept(bucket, requests, rate, 1);
}

/// Earned credits add up to no more than the rate makes of the time up to the last refill.
proof fn lemma_credit_is_earned(bucket: Bucket, requests: Seq<Request>, num: nat, den: nat)
    requires
        earned(bucket, requests, num, den),
    ensures
        credited(requests) * (den * NANOS) <= num * (after_requests(bucket, requests).last_refill
            - bucket.last_refill),
    decreases requests.len(),
{
    let scale = (den * NANOS) as nat;
    if requests.len() > 0 {
        let r = requests.last();
        let before = after_requests(bucket, requests.drop_last());
        let old_credit = credited(requests.drop_last());
        lemma_credit_is_earned(bucket, requests.drop_last(), num, den);
        assert((old_credit + r.credit) * scale == old_credit * scale + r.credit * scale)
            by (nonlinear_arith);
        if r.credit > 0 {
            let d1 = before.last_refill - bucket.last_refill;
            let d2 = r.now - before.last_refill;
            assert(num * (d1 + d2) == num * d1 + num * d2) by (nonlinear_arith);
            assert(d1 + d2 == r.now - bucket.last_refill);
        } else {
            assert(r.credit * scale == 0) by (nonlinear_arith)
                requires
                    r.credit == 0,
            ;
        }
    } else {
        assert(num * 0 == 0) by (nonlinear_arith);
        assert(0 * scale == 0) by (nonlinear_arith);
    }
}

/// A request for more than the capacity is refused, however long it waits.
pub proof fn law_oversized_is_refused(bucket: Bucket, size: nat, now: nat, credit: nat)
    requires
        bucket.wf(),
        size > bucket.capacity,
    ensures
        !bucket.grants(size, now, credit),
        bucket.asked(size, now, credit) == bucket.refilled(now, credit),
{
}

/// A request for no more than the capacity is granted once the missing tokens came in.
pub proof fn law_credit_is_usable(bucket: Bucket, size: nat, now: nat, credit: nat)
    requires
        bucket.wf(),
        size <= bucket.capacity,
        size <= bucket.tokens + credit,
    ensures
        bucket.grants(size, now, credit),
{
}

/// A refill too early to earn a whole token changes nothing and loses no time: with any rule that
/// makes tokens of time and rate, a refill at `t1` that earns nothing, followed by one at `t2`,
/// leaves the bucket as the one at `t2` alone does. Frequent requests cannot starve a slow bucket.
pub proof fn law_fractions_accumulate(
    bucket: Bucket,
    t1: nat,
    t2: nat,
    credit: nat,
    credit_of: spec_fn(nat, RefillRate) -> nat,
)
    ensures
        bucket.refilled(t1, 0) == bucket,
        bucket.refilled(t1, 0).refilled(t2, credit) == bucket.refilled(t2, credit),
        credit_of(bucket.elapsed(t1), bucket.refill_rate) == 0 ==> bucket.refilled_by(
            t1,
            credit_of,
        ).refilled_by(t2, credit_of) == bucket.refilled_by(t2, credit_of),
{
}

/// A request that is refused without credit changes nothing, so that it can be made again and
/// again at no cost.
pub proof fn law_refusal_costs_nothing(bucket: Bucket, size: nat, now: nat)
    requires
        !bucket.grants(size, now, 0),
    ensures
        bucket.asked(size, now, 0) == bucket,
{
}

/// No rate is both greater than zero and zero or less.
pub proof fn law_rate_signs_exclude(rate: RefillRate)
    ensures
        !(rate.positive() && rate.at_most_zero()),
{
}

/// The rate of any number of bytes per second but 0 is greater than zero.
pub proof fn law_whole_rates_are_positive(n: u64)
    requires
        n > 0,
    ensures
        0 < RefillRate::whole_bits(n as nat) <= INFINITY_BITS,
{
    let k = exponent(n as nat);
    let p = power2::pow2(k);
    lemma_exponent(n as nat);
    power2::lemma2_to64_rest();
    if k >= 64 {
        if k > 64 {
            power2::lemma_pow2_strictly_increases(64, k);
        }
        power2::lemma2_to64();
    }
    let s = significand(n as nat);
    if p <= LEADING_BIT {
        let scale = LEADING_BIT as nat / p;
        assert(n * scale < 4 * LEADING_BIT) by (nonlinear_arith)
            requires
                n < 2 * p,
                p > 0,
                scale == LEADING_BIT as nat / p,
        ;
    } else {
        let unit = p / LEADING_BIT as nat;
        let q = n as nat / unit;
        assert(q < 4 * LEADING_BIT) by (nonlinear_arith)
            requires
                n < 2 * p,
                p < (unit + 1) * LEADING_BIT,
                unit >= 1,
                q == n as nat / unit,
        ;
    }
    assert(s <= 4 * LEADING_BIT);
}

/// A number lies between its highest power of two and the next one.
proof fn lemma_exponent(n: nat)
    requires
        n > 0,
    ensures
        power2::pow2(exponent(n)) <= n < 2 * power2::pow2(exponent(n)),
    decreases n,
{
    power2::lemma2_to64();
    if n > 1 {
        lemma_exponent(n / 2);
        power2::lemma_pow2_unfold(exponent(n));
    }
}

/// A request first fills the bucket by its credit, up to its capacity. It is granted if and only if
/// the bucket then holds as many tokens as asked for, and takes just these; a refused one takes
/// none. The capacity and the rate stay, and a refill counts from now if it brought something.
pub proof fn law_request_takes_what_it_asks_for(bucket: Bucket, size: nat, now: nat, credit: nat)
    requires
        bucket.wf(),
    ensures
        ({
            let held: nat = if bucket.tokens + credit < bucket.capacity {
                bucket.tokens + credit
            } else {
                bucket.capacity
            };
            let after = bucket.asked(size, now, credit);
            &&& bucket.grants(size, now, credit) <==> size <= held
            &&& size <= held ==> after.tokens == held - size
            &&& size > held ==> after.tokens == held
            &&& after.capacity == bucket.capacity
            &&& after.refill_rate == bucket.refill_rate
            &&& credit > 0 ==> after.last_refill == now
            &&& credit == 0 ==> after.last_refill == bucket.last_refill
            &&& bucket.refilled(now, credit).tokens == held
            &&& bucket.refilled(now, credit).capacity == bucket.capacity
            &&& bucket.refilled(now, credit).refill_rate == bucket.refill_rate
            &&& bucket.refilled(now, credit).last_refill == after.last_refill
        }),
{
}

/// The time since the last refill and that refill's time make up the present, unless the refill is
/// still to come; then no time has passed.
pub proof fn law_elapsed_time_adds_up(bucket: Bucket, now: nat)
    ensures
        now >= bucket.last_refill ==> bucket.last_refill + bucket.elapsed(now) == now,
        now < bucket.last_refill ==> bucket.elapsed(now) == 0,
{
}

/// The sign of a rate is that of a double with its bit pattern: a double is at most zero if it is
/// one of the zeros or has the sign bit and is a number, and it is greater than zero if it has
/// no sign bit, is a number, and is not zero.
pub proof fn law_rate_signs_are_those_of_doubles(rate: RefillRate)
    ensures
        ({
            let sign = rate.bits >= 0x8000_0000_0000_0000;
            let magnitude: int = if sign {
                rate.bits - 0x8000_0000_0000_0000
            } else {
                rate.bits as int
            };
            let number = magnitude <= 0x7ff0_0000_0000_0000;
            &&& rate.positive() <==> number && !sign && magnitude != 0
            &&& rate.at_most_zero() <==> number && (sign || magnitude == 0)
        }),
{
}

/// The double for a whole number is the one nearest to it: with its significand of 53 bits and the
/// unit that its exponent field gives, it is the number itself where the unit is no more than one,
/// and else no further from it than half a unit, and even where it is just that far.
pub proof fn law_whole_rate_is_the_nearest_double(n: u64)
    requires
        n > 0,
    ensures
        ({
            let bits = RefillRate::whole_bits(n as nat);
            let field = bits / 0x10_0000_0000_0000;
            let s = 0x10_0000_0000_0000 + bits % 0x10_0000_0000_0000;
            &&& field <= 1075 ==> s == n * power2::pow2((1075 - field) as nat)
            &&& field > 1075 ==> {
                let unit = power2::pow2((field - 1075) as nat);
                &&& 2 * (s * unit - n) <= unit
                &&& 2 * (n - s * unit) <= unit
                &&& 2 * (s * unit - n) == unit || 2 * (n - s * unit) == unit ==> s % 2 == 0
            }
        }),
{
    let lead: nat = 0x10_0000_0000_0000;
    let k = exponent(n as nat);
    let p = power2::pow2(k);
    let s = significand(n as nat);
    lemma_exponent(n as nat);
    power2::lemma2_to64_rest();
    assert(power2::pow2(52) == lead);
    if p <= lead {
        if k > 52 {
            power2::lemma_pow2_strictly_increases(52, k);
        }
        let scale = lead / p;
        power2::lemma_pow2_subtracts(k, 52);
        power2::lemma_pow2_adds(k, (52 - k) as nat);
        assert(scale == power2::pow2((52 - k) as nat));
        assert(lead <= n * scale < 2 * lead) by (nonlinear_arith)
            requires
                p <= n < 2 * p,
                p * scale == lead,
                scale > 0,
        ;
        lemma_fields(k, s);
    } else {
        if k <= 52 {
            if k < 52 {
                power2::lemma_pow2_strictly_increases(k, 52);
            }
        }
        let unit = p / lead;
        power2::lemma_pow2_subtracts(52, k);
        power2::lemma_pow2_adds(52, (k - 52) as nat);
        assert(unit == power2::pow2((k - 52) as nat));
        let q = n as nat / unit;
        let rest = n as nat % unit;
        vstd::arithmetic::div_mod::lemma_fundamental_div_mod(n as int, unit as int);
        assert(q * unit + rest == n && rest < unit) by (nonlinear_arith)
            requires
                n == unit * q + rest,
                rest == n as nat % unit,
                unit > 0,
        ;
        assert(lead <= q < 2 * lead) by (nonlinear_arith)
            requires
                lead * unit <= n < 2 * (lead * unit),
                q * unit + rest == n,
                0 <= rest < unit,
                unit > 0,
        ;
        assert((q + 1) * unit == q * unit + unit) by (nonlinear_arith);
        if s < 2 * lead {
            lemma_fields(k, s);
        } else {
            lemma_fields(k + 1, lead);
            power2::lemma_pow2_unfold((k + 1 - 52) as nat);
            assert(lead * (2 * unit) == s * unit) by (nonlinear_arith)
                requires
                    s == 2 * lead,
            ;
            assert((1022 + (k + 1)) * lead + lead == (1022 + k) * lead + s) by (nonlinear_arith)
                requires
                    s == 2 * lead,
            ;
        }
    }
}

/// The exponent field and the rest of a bit pattern.
proof fn lemma_fields(k: nat, s: nat)
    requires
        0x10_0000_0000_0000 <= s < 0x20_0000_0000_0000,
    ensures
        ((1022 + k) * 0x10_0000_0000_0000 + s) / 0x10_0000_0000_0000 == 1023 + k,
        ((1022 + k) * 0x10_0000_0000_0000 + s) % 0x10_0000_0000_0000 == s - 0x10_0000_0000_0000,
{
}

} // verus!
