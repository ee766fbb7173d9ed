//! The Lucas-Lehmer strategy: the primality test for Mersenne numbers that
//! every worker runs, and the controller that feeds the workers prime
//! exponents in turn.

use crate::natural::Natural;
use crate::primes::is_next_prime;
use crate::primes::no_prime_left;
use crate::primes::PrimeGenerator;
use crate::primes::CURSOR_LIMIT;
use crate::strategy::StressStrategy;
use vstd::arithmetic::power2::lemma2_to64;
use vstd::arithmetic::power2::lemma_pow2_strictly_increases;
use vstd::arithmetic::power2::pow2;
use vstd::prelude::*;

verus! {

/// The value above which the controller looks for its first exponent.
pub const FIRST_CURSOR: u32 = 1000;

/// The Mersenne number with exponent `p`: 2^p - 1.
pub open spec fn mersenne(p: nat) -> int {
    pow2(p) - 1
}

/// The Lucas-Lehmer sequence modulo `m` after `steps` steps: it starts at 4,
/// and each step squares, takes 2 away and reduces modulo `m`.
pub open spec fn lucas_lehmer_residue(m: int, steps: nat) -> int
    decreases steps,
{
    if steps == 0 {
        4
    } else {
        let s = lucas_lehmer_residue(m, (steps - 1) as nat);
        (s * s - 2) % m
    }
}

/// What the test says of the Mersenne number with exponent `p`.
///
/// From 3 on, the number passes when the sequence modulo it stands at zero
/// after `p - 2` steps. The sequence says nothing of exponent 2, whose
/// number 3 is prime; below 2 there is no Mersenne prime.
pub open spec fn passes_lucas_lehmer(p: nat) -> bool {
    p == 2 || (p > 2 && lucas_lehmer_residue(mersenne(p), (p - 2) as nat) == 0)
}

/// From exponent 3 on, a Mersenne number is at least 7.
proof fn lemma_mersenne_from_three(p: nat)
    requires
        p >= 3,
    ensures
        mersenne(p) >= 7,
{
    lemma2_to64();
    if p > 3 {
        lemma_pow2_strictly_increases(3, p);
    }
}

/// Runs the Lucas-Lehmer test on the Mersenne number with exponent `p`.
pub fn is_mersenne_prime(p: u32) -> (b: bool)
    ensures
        b == passes_lucas_lehmer(p as nat),
{
    if p < 2 {
        return false;
    }
    if p == 2 {
        return true;
    }
    proof {
        lemma_mersenne_from_three(p as nat);
    }
    let one = Natural::from_u64(1);
    let two = Natural::from_u64(2);
    let m = Natural::power_of_two(p).minus(&one);
    let mut s = Natural::from_u64(4);
    let mut i: u32 = 0;
    while i < p - 2
        invariant
            p >= 3,
            i <= p - 2,
            two@ == 2,
            m@ == mersenne(p as nat),
            m@ >= 7,
            s@ == lucas_lehmer_residue(mersenne(p as nat), i as nat),
        decreases p - 2 - i,
    {
        let shifted = s.square().plus(&m).minus(&two);
        proof {
            vstd::arithmetic::div_mod::lemma_mod_add_multiples_vanish(
                s@ * s@ - 2,
                m@ as int,
            );
            assert((shifted@ as int) == m@ + (s@ * s@ - 2));
        }
        s = shifted.modulo(&m);
        i += 1;
    }
    s.is_zero()
}

/// Where a run of the strategy stands.
#[derive(Debug, Copy, Clone, PartialEq, Eq, Structural)]
pub enum Phase {
    /// Nothing has been started.
    Idle,
    /// The workers run and are fed exponents.
    Dispatching,
    /// No exponent is left: the channels are being closed and the workers joined.
    Draining,
    /// Every worker has been joined.
    Done,
}

/// What the driver is to do next.
#[derive(Debug, Copy, Clone, PartialEq, Eq, Structural)]
pub enum Action {
    /// Spawn this many workers, each waiting on a channel of its own.
    Spawn { workers: usize },
    /// Send the exponent to the worker with this index.
    Send { worker: usize, exponent: u32 },
    /// Close every channel and join every worker.
    Drain,
    /// Return: the run is over.
    Finish,
}

/// The worker whose turn comes after `turn`, among `workers` of them.
pub open spec fn turn_after(turn: nat, workers: nat) -> nat {
    if workers == 0 {
        0
    } else {
        (turn + 1) % workers
    }
}

/// The controller of a run: it decides, step by step, what the driver does.
#[derive(Debug)]
pub struct Dispatcher {
    phase: Phase,
    generator: PrimeGenerator,
    workers: usize,
    turn: usize,
}

impl Dispatcher {
    #[verifier::type_invariant]
    spec fn well_formed(&self) -> bool {
        self.turn < self.workers || (self.turn == 0 && self.workers == 0)
    }

    /// Where the run stands.
    pub closed spec fn phase(&self) -> Phase {
        self.phase
    }

    /// The number of workers.
    pub closed spec fn workers(&self) -> nat {
        self.workers as nat
    }

    /// The worker that the next exponent goes to.
    pub closed spec fn turn(&self) -> nat {
        self.turn as nat
    }

    /// The exponent handed out last, or the starting value.
    pub closed spec fn cursor(&self) -> nat {
        self.generator.cursor()
    }

    /// A controller for so many workers, before anything is started. Its
    /// first exponent is the first prime above [`FIRST_CURSOR`].
    pub fn new(workers: usize) -> (d: Self)
        ensures
            d.phase() == Phase::Idle,
            d.workers() == workers,
            d.turn() == 0,
            d.cursor() == FIRST_CURSOR,
    {
        Dispatcher::starting_at(workers, FIRST_CURSOR)
    }

    /// As [`Dispatcher::new`], with the exponents taken from above `cursor`.
    pub fn starting_at(workers: usize, cursor: u32) -> (d: Self)
        ensures
            d.phase() == Phase::Idle,
            d.workers() == workers,
            d.turn() == 0,
            d.cursor() == cursor,
    {
        Dispatcher { phase: Phase::Idle, generator: PrimeGenerator::new(cursor), workers, turn: 0 }
    }

    /// Where the run stands.
    pub fn current_phase(&self) -> (p: Phase)
        ensures
            p == self.phase(),
    {
        self.phase
    }

    /// Decides the driver's next action and moves the run on.
    ///
    /// From `Idle` the workers are spawned. While `Dispatching`, the first
    /// prime above the cursor goes to the worker whose turn it is, and the
    /// turn passes to the next worker; when no prime is left, or there is no
    /// worker to send to, the run starts `Draining`. After the drain the run
    /// is `Done` and stays so.
    pub fn step(&mut self) -> (action: Action)
        ensures
            final(self).workers() == old(self).workers(),
            match old(self).phase() {
                Phase::Idle => {
                    &&& action == (Action::Spawn { workers: old(self).workers() as usize })
                    &&& final(self).phase() == Phase::Dispatching
                    &&& final(self).turn() == old(self).turn()
                    &&& final(self).cursor() == old(self).cursor()
                },
                Phase::Dispatching => match action {
                    Action::Send { worker, exponent } => {
                        &&& old(self).workers() > 0
                        &&& worker == old(self).turn()
                        &&& worker < old(self).workers()
                        &&& is_next_prime(old(self).cursor(), exponent as nat)
                        &&& exponent <= CURSOR_LIMIT
                        &&& final(self).phase() == Phase::Dispatching
                        &&& final(self).turn() == turn_after(old(self).turn(), old(self).workers())
                        &&& final(self).cursor() == exponent
                    },
                    Action::Drain => {
                        &&& old(self).workers() == 0 || no_prime_left(old(self).cursor())
                        &&& final(self).phase() == Phase::Draining
                        &&& final(self).turn() == old(self).turn()
                        &&& final(self).cursor() == if old(self).workers() == 0 || old(
                            self,
                        ).cursor() >= CURSOR_LIMIT {
                            old(self).cursor()
                        } else {
                            CURSOR_LIMIT as nat
                        }
                    },
                    _ => false,
                },
                Phase::Draining => {
                    &&& action == Action::Finish
                    &&& final(self).phase() == Phase::Done
                    &&& final(self).turn() == old(self).turn()
                    &&& final(self).cursor() == old(self).cursor()
                },
                Phase::Done => {
                    &&& action == Action::Finish
                    &&& final(self).phase() == Phase::Done
                    &&& final(self).turn() == old(self).turn()
                    &&& final(self).cursor() == old(self).cursor()
                },
            },
    {
        proof {
            use_type_invariant(&*self);
        }
        match self.phase {
            Phase::Idle => {
                self.phase = Phase::Dispatching;
                Action::Spawn { workers: self.workers }
            },
            Phase::Dispatching => {
                if self.workers == 0 {
                    self.phase = Phase::Draining;
                    return Action::Drain;
                }
                match self.generator.next() {
                    Some(exponent) => {
                        let worker = self.turn;
                        proof {
                            if worker + 1 == self.workers {
                                vstd::arithmetic::div_mod::lemma_mod_self_0(self.workers as int);
                            } else {
                                vstd::arithmetic::div_mod::lemma_small_mod(
                                    (worker + 1) as nat,
                                    self.workers as nat,
                                );
                            }
                        }
                        self.turn = if worker + 1 == self.workers {
                            0
                        } else {
                            worker + 1
                        };
                        Action::Send { worker, exponent }
                    },
                    None => {
                        self.phase = Phase::Draining;
                        Action::Drain
                    },
                }
            },
            Phase::Draining => {
                self.phase = Phase::Done;
                Action::Finish
            },
            Phase::Done => Action::Finish,
        }
    }
}

/// The exponents go round the workers: where exponent number `k`, counted
/// from zero, goes to worker `k % workers`, the next one goes to worker
/// `(k + 1) % workers`, and no worker's index reaches the number of workers.
pub proof fn lemma_turns_go_round(workers: nat, k: nat)
    requires
        workers > 0,
    ensures
        turn_after(k % workers, workers) == (k + 1) % workers,
        k % workers < workers,
{
    vstd::arithmetic::div_mod::lemma_add_mod_noop(k as int, 1, workers as int);
    vstd::arithmetic::div_mod::lemma_mod_bound(k as int, workers as int);
    if workers == 1 {
        assert((k % workers + 1) % workers == 0);
    } else {
        vstd::arithmetic::div_mod::lemma_small_mod(1, workers);
    }
}

/// The strategy that tests Mersenne numbers for primality without end.
#[derive(Debug)]
pub struct LucasLehmer {
    num_threads: usize,
}

impl LucasLehmer {
    /// A strategy that keeps `num_threads` workers busy.
    pub fn new(num_threads: usize) -> (s: Self)
        ensures
            s.workers() == num_threads,
    {
        LucasLehmer { num_threads }
    }

    /// The controller of one run of this strategy.
    pub fn dispatcher(&self) -> (d: Dispatcher)
        ensures
            d.phase() == Phase::Idle,
            d.workers() == self.workers(),
            d.turn() == 0,
            d.cursor() == FIRST_CURSOR,
    {
        Dispatcher::new(self.num_threads)
    }
}

impl StressStrategy for LucasLehmer {
    open spec fn label() -> Seq<char> {
        "Lucas-Lehmer primality test"@
    }

    closed spec fn workers(&self) -> nat {
        self.num_threads as nat
    }

    fn name<'a>(&self) -> (s: &'a str) {
        "Lucas-Lehmer primality test"
    }

    fn num_threads(&self) -> (n: usize) {
        self.num_threads
    }
}

} // verus!
