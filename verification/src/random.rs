//! A seeded linear congruential random source.
//!
//! The generator keeps a 48-bit state. Each draw replaces the state `s` by
//! `(s * MULTIPLIER + INCREMENT) mod MODULUS` and hands the new state out;
//! read as a fraction of `MODULUS` it is a sample of the half-open unit
//! interval.

use vstd::prelude::*;
use vstd::arithmetic::div_mod::{
    lemma_add_mod_noop_right,
    lemma_mul_mod_noop_left,
    lemma_small_mod,
};
use std::time::{Duration, SystemTime, SystemTimeError};

verus! {

/// The modulus of the congruence, two to the 48th.
pub const MODULUS: u64 = 281_474_976_710_656;

/// The multiplier of the congruence.
pub const MULTIPLIER: u64 = 0x5DEECE66D;

/// The increment of the congruence.
pub const INCREMENT: u64 = 11;

/// One billion: a clock's sub-second nanoseconds stay below it.
pub const NANOS_PER_SECOND: u32 = 1_000_000_000;

/// The state that follows `s`.
pub open spec fn next_state(s: u64) -> u64 {
    ((s * MULTIPLIER + INCREMENT) % (MODULUS as int)) as u64
}

/// The decimal digits of `t`, read from the last to the first, written
/// behind the digits of `acc`.
pub open spec fn reversed_onto(acc: nat, t: nat) -> nat
    decreases t,
{
    if t == 0 {
        acc
    } else {
        reversed_onto(acc * 10 + t % 10, t / 10)
    }
}

/// The number whose decimal digits are those of `t` in reverse order.
pub open spec fn reversed(t: nat) -> nat {
    reversed_onto(0, t)
}

/// The seed drawn from a clock reading: the nanoseconds are squared, the
/// digits of the square are reversed, a zero digit is appended, and the
/// result is reduced modulo `MODULUS`.
pub open spec fn scrambled_seed(nanos: nat) -> u64 {
    ((10 * reversed(nanos * nanos)) % (MODULUS as nat)) as u64
}

/// Ten to the `k`.
spec fn pow10(k: nat) -> nat
    decreases k,
{
    if k == 0 {
        1
    } else {
        10 * pow10((k - 1) as nat)
    }
}

proof fn lemma_pow10_monotonic(j: nat, k: nat)
    requires
        j <= k,
    ensures
        pow10(j) <= pow10(k),
        pow10(j) > 0,
    decreases k,
{
    if j < k {
        lemma_pow10_monotonic(j, (k - 1) as nat);
    } else if k > 0 {
        lemma_pow10_monotonic((j - 1) as nat, (k - 1) as nat);
    }
}

proof fn lemma_pow10_19()
    ensures
        pow10(18) == 1_000_000_000_000_000_000,
        pow10(19) == 10_000_000_000_000_000_000,
{
    reveal_with_fuel(pow10, 20);
}

/// One round of double-and-add keeps `acc + a * b` in its residue class.
proof fn lemma_double_and_add(acc: int, a: int, b: int, m: int)
    requires
        0 < m,
        0 <= acc,
        0 <= a,
        0 <= b,
    ensures
        ((if b % 2 == 1 {
            (acc + a) % m
        } else {
            acc
        }) + ((a * 2) % m) * (b / 2)) % m == (acc + a * b) % m,
{
    let h = b / 2;
    let a2 = (a * 2) % m;
    lemma_mul_mod_noop_left(a * 2, h, m);
    assert((a2 * h) % m == (a * 2 * h) % m);
    if b % 2 == 1 {
        let x = (acc + a) % m;
        assert(a * b == a * 2 * h + a) by (nonlinear_arith)
            requires
                b == 2 * h + 1,
        ;
        lemma_add_mod_noop_right(x, a * 2 * h, m);
        lemma_add_mod_noop_right(a * 2 * h, acc + a, m);
        assert((x + a2 * h) % m == (x + (a2 * h) % m) % m) by {
            lemma_add_mod_noop_right(x, a2 * h, m);
        }
        assert((x + a * 2 * h) % m == (x + (a * 2 * h) % m) % m);
        assert((a * 2 * h + x) % m == (a * 2 * h + (acc + a)) % m);
    } else {
        assert(a * b == a * 2 * h) by (nonlinear_arith)
            requires
                b == 2 * h,
        ;
        lemma_add_mod_noop_right(acc, a2 * h, m);
        lemma_add_mod_noop_right(acc, a * 2 * h, m);
    }
}

/// A generator of pseudo-random numbers, fully determined by its state.
#[derive(Debug)]
pub struct SimpleDeterministicRandomGenerator {
    seed: u64,
}

impl View for SimpleDeterministicRandomGenerator {
    type V = u64;

    /// The current state.
    closed spec fn view(&self) -> u64 {
        self.seed
    }
}

/// A reading of the wall clock, opaque to the proofs.
#[verifier::external_type_specification]
#[verifier::external_body]
pub struct ExSystemTime(SystemTime);

/// The error of a clock reading that lies before the reference point.
#[verifier::external_type_specification]
#[verifier::external_body]
pub struct ExSystemTimeError(SystemTimeError);

/// `SystemTime::now` reads the wall clock; nothing is claimed of the
/// reading.
pub assume_specification[ SystemTime::now ]() -> SystemTime;

/// `Duration::subsec_nanos` returns the fractional part of the duration in
/// nanoseconds, which is always less than one billion.
pub assume_specification[ Duration::subsec_nanos ](d: &Duration) -> (n: u32)
    ensures
        n < 1_000_000_000,
;

/// The time elapsed between the Unix epoch and `now`, by
/// `SystemTime::duration_since`; an error when `now` lies before the epoch.
#[verifier::external_body]
fn since_epoch(now: &SystemTime) -> Result<Duration, SystemTimeError> {
    now.duration_since(std::time::UNIX_EPOCH)
}

impl SimpleDeterministicRandomGenerator {
    /// A generator seeded from the wall clock's sub-second nanoseconds. A
    /// clock that reads before the Unix epoch seeds as zero nanoseconds.
    pub fn new() -> (g: Self)
        ensures
            exists|nanos: nat| nanos < NANOS_PER_SECOND && g@ == #[trigger] scrambled_seed(nanos),
    {
        let now = SystemTime::now();
        let nanos: u32 = match since_epoch(&now) {
            Ok(elapsed) => elapsed.subsec_nanos(),
            Err(_) => 0,
        };
        Self::from_clock_nanos(nanos)
    }

    /// A generator seeded from a clock's sub-second nanoseconds.
    pub fn from_clock_nanos(nanos: u32) -> (g: Self)
        requires
            nanos < NANOS_PER_SECOND,
        ensures
            g@ == scrambled_seed(nanos as nat),
    {
        let ghost t0: nat = (nanos as nat) * (nanos as nat);
        assert(t0 < 1_000_000_000_000_000_000) by (nonlinear_arith)
            requires
                t0 == (nanos as nat) * (nanos as nat),
                nanos < 1_000_000_000,
        ;
        let mut t: u64 = nanos as u64;
        t = t * t;
        let mut seed: u64 = t % 10;
        let ghost mut k: nat = 0;
        proof {
            lemma_pow10_19();
            reveal_with_fuel(pow10, 2);
            reveal_with_fuel(reversed_onto, 2);
        }
        while t > 0
            invariant
                k <= 18,
                t < pow10((18 - k) as nat),
                seed < pow10(k + 1),
                t0 < pow10(18),
                (if t == 0 {
                    seed as nat
                } else {
                    10 * reversed_onto(seed as nat, t as nat / 10)
                }) == 10 * reversed(t0),
            decreases t,
        {
            proof {
                lemma_pow10_19();
                assert(k <= 17) by {
                    if k == 18 {
                        assert(pow10(0) == 1);
                    }
                }
                lemma_pow10_monotonic(k + 2, 19);
                assert(pow10(k + 2) == 10 * pow10(k + 1));
                assert(pow10((18 - k) as nat) == 10 * pow10((17 - k) as nat));
                reveal_with_fuel(reversed_onto, 2);
            }
            t = t / 10;
            seed = seed * 10 + (t % 10);
            proof {
                k = k + 1;
            }
        }
        seed = seed % MODULUS;
        SimpleDeterministicRandomGenerator { seed }
    }

    /// A generator that starts from the given state.
    pub fn new_seeded(seed: u64) -> (g: Self)
        ensures
            g@ == seed,
    {
        SimpleDeterministicRandomGenerator { seed }
    }

    /// Advances the state and returns it. The result, as the numerator of a
    /// fraction over `MODULUS`, is the next sample of `[0, 1)`.
    pub fn rand(&mut self) -> (r: u64)
        ensures
            final(self)@ == next_state(old(self)@),
            r == final(self)@,
            r < MODULUS,
    {
        let ghost m: int = MODULUS as int;
        let ghost target: int = (self.seed * MULTIPLIER) % m;
        let mut acc: u64 = 0;
        let mut a: u64 = self.seed % MODULUS;
        let mut b: u64 = MULTIPLIER;
        proof {
            lemma_mul_mod_noop_left(self.seed as int, MULTIPLIER as int, m);
        }
        while b > 0
            invariant
                m == MODULUS,
                acc < MODULUS,
                a < MODULUS,
                b <= MULTIPLIER,
                (acc + a * b) % m == target,
            decreases b,
        {
            proof {
                lemma_double_and_add(acc as int, a as int, b as int, m);
            }
            if b % 2 == 1 {
                acc = (acc + a) % MODULUS;
            }
            a = (a * 2) % MODULUS;
            b = b / 2;
        }
        proof {
            assert(a * b == 0) by (nonlinear_arith)
                requires
                    b == 0,
            ;
            lemma_small_mod(acc as nat, MODULUS as nat);
            lemma_add_mod_noop_right(INCREMENT as int, self.seed * MULTIPLIER, m);
        }
        acc = (acc + INCREMENT) % MODULUS;
        self.seed = acc;
        acc
    }
}

} // verus!
