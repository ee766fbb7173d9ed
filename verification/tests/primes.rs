use strain::primes::{is_prime, PrimeGenerator, CURSOR_LIMIT, SAFETY_MARGIN};

fn reference_is_prime(n: u32) -> bool {
    if n < 2 {
        return false;
    }
    let mut d: u64 = 2;
    while d * d <= n as u64 {
        if n as u64 % d == 0 {
            return false;
        }
        d += 1;
    }
    true
}

#[test]
fn small_numbers_are_classified() {
    let primes = [2u32, 3, 5, 7, 11, 13, 97, 7919, 65537];
    for p in primes {
        assert!(is_prime(p), "{p} is prime");
    }
    let others = [0u32, 1, 4, 6, 8, 9, 15, 25, 49, 91, 7917, 65535];
    for c in others {
        assert!(!is_prime(c), "{c} is not prime");
    }
}

#[test]
fn squares_of_primes_are_not_prime() {
    assert!(!is_prime(65521 * 65521));
    assert!(!is_prime(4));
    assert!(!is_prime(9));
    assert!(!is_prime(1_000_003 * 4_001));
}

#[test]
fn the_largest_values_are_classified() {
    assert!(is_prime(4_294_967_291));
    assert!(!is_prime(u32::MAX));
    assert!(!is_prime(u32::MAX - 1));
}

#[test]
fn is_prime_agrees_with_the_reference_up_to_100000() {
    for n in 0..=100_000u32 {
        assert_eq!(is_prime(n), reference_is_prime(n), "at {n}");
    }
}

#[test]
fn generator_emits_every_prime_in_rising_order() {
    let mut generator = PrimeGenerator::new(0);
    let mut previous = 0u32;
    let mut count = 0usize;
    loop {
        let p = generator.next().unwrap();
        if p > 100_000 {
            break;
        }
        assert!(p > previous);
        assert!(reference_is_prime(p));
        for skipped in (previous + 1)..p {
            assert!(!reference_is_prime(skipped));
        }
        assert_eq!(generator.position(), p);
        previous = p;
        count += 1;
    }
    assert_eq!(count, 9592);
}

#[test]
fn generator_starts_above_its_start_value() {
    let mut generator = PrimeGenerator::new(1000);
    assert_eq!(generator.position(), 1000);
    assert_eq!(generator.next(), Some(1009));
    assert_eq!(generator.next(), Some(1013));
    assert_eq!(generator.next(), Some(1019));
    let mut at_a_prime = PrimeGenerator::new(1009);
    assert_eq!(at_a_prime.next(), Some(1013));
}

#[test]
fn generators_are_independent_of_each_other() {
    let mut first = PrimeGenerator::new(1000);
    for _ in 0..10 {
        first.next();
    }
    let mut second = PrimeGenerator::new(1000);
    assert_eq!(second.next(), Some(1009));
    assert_eq!(first.next(), Some(1063));
}

#[test]
fn generator_is_exhausted_near_the_maximum() {
    let mut generator = PrimeGenerator::new(u32::MAX - 100);
    assert_eq!(generator.next(), Some(4_294_967_197));
    assert_eq!(generator.next(), Some(4_294_967_231));
    assert_eq!(generator.next(), Some(4_294_967_279));
    assert_eq!(generator.next(), Some(4_294_967_291));
    assert_eq!(generator.next(), None);
    assert_eq!(generator.position(), CURSOR_LIMIT);
    assert_eq!(generator.next(), None);
    assert_eq!(generator.position(), CURSOR_LIMIT);
}

#[test]
fn generator_at_the_maximum_gives_nothing() {
    let mut at_max = PrimeGenerator::new(u32::MAX);
    assert_eq!(at_max.next(), None);
    assert_eq!(at_max.position(), u32::MAX);
    let mut at_limit = PrimeGenerator::new(CURSOR_LIMIT);
    assert_eq!(at_limit.next(), None);
    assert_eq!(at_limit.position(), CURSOR_LIMIT);
}

#[test]
fn the_limit_lies_the_margin_below_the_maximum() {
    assert_eq!(SAFETY_MARGIN, 1);
    assert_eq!(CURSOR_LIMIT, 4_294_967_294);
}
