use pathtracer::random::{
    SimpleDeterministicRandomGenerator, INCREMENT, MODULUS, MULTIPLIER, NANOS_PER_SECOND,
};

fn expected_next(state: u64) -> u64 {
    ((state as u128 * MULTIPLIER as u128 + INCREMENT as u128) % MODULUS as u128) as u64
}

fn expected_seed(nanos: u32) -> u64 {
    let square = nanos as u128 * nanos as u128;
    let mut digits: Vec<u8> = square.to_string().into_bytes();
    digits.reverse();
    let mut value: u128 = 0;
    for d in digits {
        value = value * 10 + (d - b'0') as u128;
    }
    ((value * 10) % MODULUS as u128) as u64
}

#[test]
fn constants_are_the_48_bit_congruence() {
    assert_eq!(MODULUS, 1u64 << 48);
    assert_eq!(MULTIPLIER, 25_214_903_917);
    assert_eq!(INCREMENT, 11);
    assert_eq!(NANOS_PER_SECOND, 1_000_000_000);
}

#[test]
fn rand_from_seed_zero() {
    let mut g = SimpleDeterministicRandomGenerator::new_seeded(0);
    assert_eq!(g.rand(), 11);
    assert_eq!(g.rand(), 277_363_943_098);
}

#[test]
fn rand_from_seed_one() {
    let mut g = SimpleDeterministicRandomGenerator::new_seeded(1);
    assert_eq!(g.rand(), 25_214_903_928);
}

#[test]
fn rand_follows_the_congruence() {
    let mut g = SimpleDeterministicRandomGenerator::new_seeded(123_456_789);
    let mut state: u64 = 123_456_789;
    for _ in 0..10_000 {
        state = expected_next(state);
        assert_eq!(g.rand(), state);
    }
}

#[test]
fn rand_stays_below_the_modulus() {
    let mut g = SimpleDeterministicRandomGenerator::new_seeded(42);
    for _ in 0..10_000 {
        assert!(g.rand() < MODULUS);
    }
}

#[test]
fn rand_wraps_where_the_increment_crosses_the_modulus() {
    // Find the state whose product is MODULUS - 1 modulo MODULUS: the
    // multiplier is odd, so it has an inverse modulo a power of two.
    let mut inverse: u64 = 1;
    for _ in 0..6 {
        inverse = inverse.wrapping_mul(2u64.wrapping_sub(MULTIPLIER.wrapping_mul(inverse)));
    }
    let state = inverse.wrapping_mul(MODULUS - 1) % MODULUS;
    assert_eq!((state as u128 * MULTIPLIER as u128) % MODULUS as u128, (MODULUS - 1) as u128);
    let mut g = SimpleDeterministicRandomGenerator::new_seeded(state);
    assert_eq!(g.rand(), 10);
}

#[test]
fn rand_accepts_every_seed() {
    for seed in [u64::MAX, u64::MAX - 1, 1u64 << 63, (1u64 << 63) + 12345, MODULUS, MODULUS - 1] {
        let mut g = SimpleDeterministicRandomGenerator::new_seeded(seed);
        let first = g.rand();
        assert_eq!(first, expected_next(seed));
        assert_eq!(g.rand(), expected_next(first));
    }
}

#[test]
fn equal_seeds_give_equal_sequences() {
    let mut a = SimpleDeterministicRandomGenerator::new_seeded(2024);
    let mut b = SimpleDeterministicRandomGenerator::new_seeded(2024);
    for _ in 0..1000 {
        assert_eq!(a.rand(), b.rand());
    }
}

#[test]
fn different_seeds_give_different_first_draws() {
    let mut a = SimpleDeterministicRandomGenerator::new_seeded(1);
    let mut b = SimpleDeterministicRandomGenerator::new_seeded(2);
    assert_ne!(a.rand(), b.rand());
}

#[test]
fn clock_seed_of_twelve_nanoseconds() {
    // 12 * 12 = 144, reversed 441, with a zero appended 4410.
    let mut g = SimpleDeterministicRandomGenerator::from_clock_nanos(12);
    assert_eq!(g.rand(), expected_next(4410));
}

#[test]
fn clock_seed_of_zero_nanoseconds() {
    let mut g = SimpleDeterministicRandomGenerator::from_clock_nanos(0);
    assert_eq!(g.rand(), 11);
}

#[test]
fn clock_seed_drops_the_zeros_that_end_the_square() {
    // 100 * 100 = 10000, reversed 1, with a zero appended 10.
    let mut g = SimpleDeterministicRandomGenerator::from_clock_nanos(100);
    assert_eq!(g.rand(), expected_next(10));
}

#[test]
fn clock_seed_of_the_largest_reading() {
    // 999999999 squared is 999999998000000001; reversed and with a zero
    // appended it is 1000000008999999990, which is reduced modulo 2^48.
    let seed = 1_000_000_008_999_999_990u64 % MODULUS;
    assert_eq!(expected_seed(999_999_999), seed);
    let mut g = SimpleDeterministicRandomGenerator::from_clock_nanos(999_999_999);
    assert_eq!(g.rand(), expected_next(seed));
}

#[test]
fn clock_seed_matches_digit_reversal() {
    for nanos in [1u32, 9, 10, 11, 99, 12_345, 123_456_789, 500_000_000, 987_654_321] {
        let mut g = SimpleDeterministicRandomGenerator::from_clock_nanos(nanos);
        assert_eq!(g.rand(), expected_next(expected_seed(nanos)));
    }
}

#[test]
fn new_reads_the_clock_and_draws() {
    let mut g = SimpleDeterministicRandomGenerator::new();
    let first = g.rand();
    assert!(first < MODULUS);
    assert_eq!(g.rand(), expected_next(first));
}
