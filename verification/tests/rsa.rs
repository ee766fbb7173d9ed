use strain::natural::{Natural, ParseNaturalError};
use strain::rsa::{FermatSearch, RaceResult, RSA, RSA_1536};
use strain::strategy::StressStrategy;

fn run_until_found(search: &mut FermatSearch, limit: usize) -> Option<(RaceResult, usize)> {
    for round in 0..limit {
        if let Some(pair) = search.step() {
            return Some((pair, round));
        }
    }
    None
}

fn decimal_factors(pair: &RaceResult) -> (String, String) {
    let (p, q) = pair.factors().unwrap();
    (p.to_decimal(), q.to_decimal())
}

#[test]
fn close_primes_are_recovered_at_the_first_trial() {
    let strategy = RSA::new(1, "8989");
    let mut search = strategy.worker(0);
    let (pair, round) = run_until_found(&mut search, 10).unwrap();
    assert_eq!(round, 0);
    assert_eq!(pair.a.to_decimal(), "95");
    assert_eq!(pair.b.to_decimal(), "6");
    assert_eq!(decimal_factors(&pair), ("101".to_string(), "89".to_string()));
}

#[test]
fn primes_further_apart_take_more_trials() {
    let strategy = RSA::new(1, "5917");
    let mut search = strategy.worker(0);
    let (pair, round) = run_until_found(&mut search, 10).unwrap();
    assert_eq!(round, 2);
    assert_eq!(pair.a.to_decimal(), "79");
    assert_eq!(pair.b.to_decimal(), "18");
    assert_eq!(decimal_factors(&pair), ("97".to_string(), "61".to_string()));
}

#[test]
fn the_pair_is_half_the_sum_and_half_the_difference() {
    let (p, q) = (1_000_033u64, 1_000_003u64);
    let strategy = RSA::new(1, &(p * q).to_string());
    let mut search = strategy.worker(0);
    let (pair, _) = run_until_found(&mut search, 10).unwrap();
    assert_eq!(pair.a.to_decimal(), ((p + q) / 2).to_string());
    assert_eq!(pair.b.to_decimal(), ((p - q) / 2).to_string());
    assert_eq!(decimal_factors(&pair), (p.to_string(), q.to_string()));
}

#[test]
fn factors_of_a_large_modulus_are_recovered() {
    let modulus = "100000000000000000000000000000000000005120000000000000000000000000000000000047311";
    let strategy = RSA::new(4, modulus);
    let mut search = strategy.worker(0);
    let (pair, round) = run_until_found(&mut search, 4).unwrap();
    assert_eq!(round, 0);
    assert_eq!(pair.a.to_decimal(), "10000000000000000000000000000000000000256");
    assert_eq!(pair.b.to_decimal(), "135");
    assert_eq!(
        decimal_factors(&pair),
        (
            "10000000000000000000000000000000000000391".to_string(),
            "10000000000000000000000000000000000000121".to_string()
        )
    );
}

#[test]
fn factors_come_from_a_given_pair() {
    let pair = RaceResult { a: Natural::from_u64(79), b: Natural::from_u64(18) };
    assert_eq!(decimal_factors(&pair), ("97".to_string(), "61".to_string()));
    let square = RaceResult { a: Natural::from_u64(7), b: Natural::from_u64(0) };
    assert_eq!(decimal_factors(&square), ("7".to_string(), "7".to_string()));
    let trivial = RaceResult { a: Natural::from_u64(8), b: Natural::from_u64(7) };
    assert_eq!(decimal_factors(&trivial), ("15".to_string(), "1".to_string()));
}

#[test]
fn a_pair_with_the_greater_companion_has_no_factors() {
    let pair = RaceResult { a: Natural::from_u64(3), b: Natural::from_u64(4) };
    assert!(pair.factors().is_none());
}

#[test]
fn workers_start_one_apart_and_move_by_the_worker_count() {
    // 5917 has the root 76: worker t starts at 77 + t and moves by 3.
    let strategy = RSA::new(3, "5917");
    let mut first = strategy.worker(0);
    let mut second = strategy.worker(1);
    let mut third = strategy.worker(2);
    // worker 0 tries 77, 80, ...; worker 1 tries 78, 81, ...; worker 2 tries 79.
    assert!(first.step().is_none());
    assert!(second.step().is_none());
    let found = third.step().unwrap();
    assert_eq!(found.a.to_decimal(), "79");
    // a successful trial leaves the search where it is
    assert_eq!(third.step().unwrap().a.to_decimal(), "79");
    // both ways to write 5917 as a difference of squares, at 79 and at 2959,
    // belong to worker 2: the others find nothing
    assert!(run_until_found(&mut first, 1000).is_none());
    assert!(run_until_found(&mut second, 1000).is_none());
}

#[test]
fn the_search_of_a_perfect_square_starts_above_its_root() {
    // 49 has the root 7; the first candidate is 8, and 25 * 25 - 24 * 24 = 49.
    let strategy = RSA::new(1, "49");
    let mut search = strategy.worker(0);
    let (pair, round) = run_until_found(&mut search, 100).unwrap();
    assert_eq!(pair.a.to_decimal(), "25");
    assert_eq!(pair.b.to_decimal(), "24");
    assert_eq!(round, 17);
    assert_eq!(decimal_factors(&pair), ("49".to_string(), "1".to_string()));
}

#[test]
fn zero_is_factored_at_once() {
    let strategy = RSA::new(1, "0");
    let mut search = strategy.worker(0);
    let pair = search.step().unwrap();
    assert_eq!(pair.a.to_decimal(), "1");
    assert_eq!(pair.b.to_decimal(), "1");
    assert_eq!(decimal_factors(&pair), ("2".to_string(), "0".to_string()));
}

#[test]
fn searches_hold_one_search_per_worker() {
    for n in [1usize, 2, 8] {
        let strategy = RSA::new(n, "5917");
        assert_eq!(strategy.num_threads(), n);
        let mut searches = strategy.searches();
        assert_eq!(searches.len(), n);
        if n > 2 {
            // only the worker that starts at 79 succeeds at its first trial
            for (t, search) in searches.iter_mut().enumerate() {
                assert_eq!(search.step().is_some(), t == 2);
            }
        }
    }
}

#[test]
fn try_new_refuses_what_is_no_natural_number() {
    assert_eq!(RSA::try_new(2, "not a number").unwrap_err(), ParseNaturalError::Invalid);
    assert_eq!(RSA::try_new(2, "").unwrap_err(), ParseNaturalError::Invalid);
    assert_eq!(RSA::try_new(2, "12x").unwrap_err(), ParseNaturalError::Invalid);
    assert_eq!(RSA::try_new(2, "-5917").unwrap_err(), ParseNaturalError::Negative);
}

#[test]
fn try_new_accepts_a_decimal_modulus() {
    let strategy = RSA::try_new(2, "5917").unwrap();
    assert_eq!(strategy.num_threads(), 2);
    let mut search = strategy.worker(0);
    assert!(search.step().is_none());
    assert_eq!(search.step().unwrap().a.to_decimal(), "79");
}

#[test]
fn the_default_modulus_is_accepted() {
    let strategy = RSA::try_new(8, RSA_1536).unwrap();
    assert_eq!(strategy.num_threads(), 8);
    assert_eq!(RSA_1536.len(), 463);
    let mut search = strategy.worker(0);
    // the factors are too far apart to be found in a few trials
    assert!(search.step().is_none());
}

#[test]
fn rsa_name_is_constant() {
    let strategy = RSA::new(2, "5917");
    let first = strategy.name();
    let _ = strategy.worker(0).step();
    assert_eq!(strategy.name(), first);
    assert_eq!(first, "RSA-1536 factorization");
}

#[test]
fn run_stops_at_the_first_success() {
    let strategy = RSA::new(1, "5917");
    let mut search = strategy.worker(0);
    // candidates 77 and 78 find nothing
    assert!(search.run(2).is_none());
    // the next is 79
    let pair = search.run(5).unwrap();
    assert_eq!(pair.a.to_decimal(), "79");
    assert_eq!(pair.b.to_decimal(), "18");
    // the search rests at 79
    assert_eq!(search.run(1).unwrap().a.to_decimal(), "79");
}

#[test]
fn run_without_trials_finds_nothing_and_does_not_move() {
    let strategy = RSA::new(1, "8989");
    let mut search = strategy.worker(0);
    assert!(search.run(0).is_none());
    assert_eq!(search.step().unwrap().a.to_decimal(), "95");
}

#[test]
fn run_moves_on_by_its_trials() {
    // 49: root 7, candidates from 8; the first success is at 25
    let strategy = RSA::new(1, "49");
    let mut search = strategy.worker(0);
    assert!(search.run(17).is_none());
    let pair = search.step().unwrap();
    assert_eq!(pair.a.to_decimal(), "25");
}
