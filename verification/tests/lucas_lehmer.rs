use strain::lucas_lehmer::{is_mersenne_prime, Action, Dispatcher, LucasLehmer, Phase, FIRST_CURSOR};
use strain::strategy::StressStrategy;

#[test]
fn known_mersenne_exponents_pass() {
    for p in [2u32, 3, 5, 7, 13, 17, 19, 31] {
        assert!(is_mersenne_prime(p), "2^{p} - 1 is prime");
    }
}

#[test]
fn exponent_eleven_fails() {
    assert!(!is_mersenne_prime(11));
}

#[test]
fn larger_exponents_are_decided() {
    for p in [61u32, 89, 107, 127, 521, 607] {
        assert!(is_mersenne_prime(p), "2^{p} - 1 is prime");
    }
    for p in [23u32, 29, 37, 41, 43, 47, 53, 59, 67, 1009, 1013] {
        assert!(!is_mersenne_prime(p), "2^{p} - 1 is not prime");
    }
}

#[test]
fn composite_exponents_fail() {
    for p in [4u32, 6, 8, 9, 10, 12, 15, 21, 25] {
        assert!(!is_mersenne_prime(p));
    }
}

#[test]
fn exponents_below_two_fail_without_a_panic() {
    assert!(!is_mersenne_prime(0));
    assert!(!is_mersenne_prime(1));
}

#[test]
fn exactly_the_mersenne_exponents_below_130_pass() {
    let passing: Vec<u32> = (0..130u32).filter(|p| is_mersenne_prime(*p)).collect();
    assert_eq!(passing, vec![2, 3, 5, 7, 13, 17, 19, 31, 61, 89, 107, 127]);
}

#[test]
fn dispatcher_spawns_then_feeds_the_workers_in_turn() {
    let mut dispatcher = Dispatcher::new(3);
    assert_eq!(dispatcher.current_phase(), Phase::Idle);
    assert_eq!(dispatcher.step(), Action::Spawn { workers: 3 });
    assert_eq!(dispatcher.current_phase(), Phase::Dispatching);
    assert_eq!(dispatcher.step(), Action::Send { worker: 0, exponent: 1009 });
    assert_eq!(dispatcher.step(), Action::Send { worker: 1, exponent: 1013 });
    assert_eq!(dispatcher.step(), Action::Send { worker: 2, exponent: 1019 });
    assert_eq!(dispatcher.step(), Action::Send { worker: 0, exponent: 1021 });
    assert_eq!(dispatcher.step(), Action::Send { worker: 1, exponent: 1031 });
    assert_eq!(dispatcher.current_phase(), Phase::Dispatching);
}

#[test]
fn dispatcher_with_one_worker_sends_everything_to_it() {
    let mut dispatcher = Dispatcher::new(1);
    assert_eq!(dispatcher.step(), Action::Spawn { workers: 1 });
    assert_eq!(dispatcher.step(), Action::Send { worker: 0, exponent: 1009 });
    assert_eq!(dispatcher.step(), Action::Send { worker: 0, exponent: 1013 });
}

#[test]
fn dispatcher_spawns_exactly_the_configured_workers() {
    for n in [1usize, 2, 8] {
        let mut dispatcher = LucasLehmer::new(n).dispatcher();
        assert_eq!(dispatcher.step(), Action::Spawn { workers: n });
        let mut seen = vec![0usize; n];
        for round in 0..(3 * n) {
            match dispatcher.step() {
                Action::Send { worker, exponent } => {
                    assert_eq!(worker, round % n);
                    assert!(exponent > FIRST_CURSOR);
                    seen[worker] += 1;
                }
                other => panic!("unexpected action {other:?}"),
            }
        }
        assert_eq!(seen, vec![3usize; n]);
    }
}

#[test]
fn dispatcher_drains_when_the_exponents_run_out() {
    let mut dispatcher = Dispatcher::starting_at(2, u32::MAX - 20);
    assert_eq!(dispatcher.step(), Action::Spawn { workers: 2 });
    assert_eq!(dispatcher.step(), Action::Send { worker: 0, exponent: 4_294_967_279 });
    assert_eq!(dispatcher.step(), Action::Send { worker: 1, exponent: 4_294_967_291 });
    assert_eq!(dispatcher.step(), Action::Drain);
    assert_eq!(dispatcher.current_phase(), Phase::Draining);
    assert_eq!(dispatcher.step(), Action::Finish);
    assert_eq!(dispatcher.current_phase(), Phase::Done);
    assert_eq!(dispatcher.step(), Action::Finish);
    assert_eq!(dispatcher.current_phase(), Phase::Done);
}

#[test]
fn dispatcher_without_workers_drains_at_once() {
    let mut dispatcher = Dispatcher::new(0);
    assert_eq!(dispatcher.step(), Action::Spawn { workers: 0 });
    assert_eq!(dispatcher.step(), Action::Drain);
    assert_eq!(dispatcher.step(), Action::Finish);
    assert_eq!(dispatcher.current_phase(), Phase::Done);
}

#[test]
fn lucas_lehmer_keeps_its_worker_count() {
    for n in [1usize, 2, 8] {
        assert_eq!(LucasLehmer::new(n).num_threads(), n);
    }
}

#[test]
fn lucas_lehmer_name_is_constant() {
    let strategy = LucasLehmer::new(4);
    let first = strategy.name();
    let _ = strategy.dispatcher().step();
    assert_eq!(strategy.name(), first);
    assert_eq!(first, "Lucas-Lehmer primality test");
    assert_eq!(LucasLehmer::new(1).name(), first);
}
