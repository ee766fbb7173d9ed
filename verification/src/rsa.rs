//! The factorization strategy: workers race to write a modulus as a
//! difference of two squares, each on candidates of its own.
//!
//! A worker tries `a`, looks whether `a * a - n` is a square `b * b`, and
//! moves on by the number of workers if it is not. The first pair found
//! gives the factors `a + b` and `a - b`.

use crate::fermat::first_candidate;
use crate::fermat::first_success;
use crate::fermat::is_fermat_pair;
use crate::fermat::trial_succeeds;
use crate::natural::lemma_sqrt_of_square;
use crate::natural::lemma_square_monotonic;
use crate::natural::parsed_integer;
use crate::natural::Natural;
use crate::natural::ParseNaturalError;
use crate::strategy::StressStrategy;
use vstd::prelude::*;

verus! {

/// A modulus of 1536 bits: the number to factor where no other is given.
pub const RSA_1536: &'static str =
    "1847699703211741474306835620200164403018549338663410171471785774910651696711161249859337684305435744585616061544571794052229717732524660960646946071249623720442022269756756687378427562389508764678440933285157496578843415088475528298186726451339863364931908084671990431874381283363502795470282653297802934916155811881049844908319545009848393775227257052578591944993870073695755688436933812779613089230392569695253261620823676490316036551371447913932347169566988069";

/// The pair that a worker found: a candidate and its companion.
#[derive(Debug)]
pub struct RaceResult {
    pub a: Natural,
    pub b: Natural,
}

impl RaceResult {
    /// The two factors that the pair stands for, the greater first: `a + b`
    /// and `a - b`. There are none where `b` is greater than `a`.
    pub fn factors(&self) -> (r: Option<(Natural, Natural)>)
        ensures
            r is Some <==> self.b@ <= self.a@,
            r matches Some(pq) ==> pq.0@ == self.a@ + self.b@ && pq.1@ == self.a@ - self.b@,
    {
        if self.b.at_most(&self.a) {
            Some((self.a.plus(&self.b), self.a.minus(&self.b)))
        } else {
            None
        }
    }
}

/// The search of one worker.
#[derive(Debug)]
pub struct FermatSearch {
    modulus: Natural,
    candidate: Natural,
    stride: Natural,
}

impl FermatSearch {
    #[verifier::type_invariant]
    spec fn well_formed(&self) -> bool {
        self.candidate@ * self.candidate@ >= self.modulus@
    }

    /// The number to factor.
    pub closed spec fn modulus(&self) -> nat {
        self.modulus@
    }

    /// The value that the next trial looks at.
    pub closed spec fn candidate(&self) -> nat {
        self.candidate@
    }

    /// How far the search moves after a trial that found nothing.
    pub closed spec fn stride(&self) -> nat {
        self.stride@
    }

    /// One trial.
    ///
    /// Where the square of the candidate exceeds the modulus by a square, the
    /// candidate and the root of that square are the result, and the search
    /// stays where it is. Otherwise the candidate moves on by the stride.
    pub fn step(&mut self) -> (r: Option<RaceResult>)
        ensures
            final(self).modulus() == old(self).modulus(),
            final(self).stride() == old(self).stride(),
            old(self).candidate() * old(self).candidate() >= old(self).modulus(),
            r is Some <==> trial_succeeds(old(self).modulus(), old(self).candidate()),
            r matches Some(pair) ==> {
                &&& pair.a@ == old(self).candidate()
                &&& is_fermat_pair(old(self).modulus(), pair.a@, pair.b@)
                &&& final(self).candidate() == old(self).candidate()
            },
            r is None ==> final(self).candidate() == old(self).candidate() + old(self).stride(),
    {
        proof {
            use_type_invariant(&*self);
        }
        let excess = self.candidate.square().minus(&self.modulus);
        if excess.is_perfect_square() {
            let b = excess.sqrt();
            proof {
                lemma_sqrt_of_square(b@, excess@);
            }
            Some(RaceResult { a: self.candidate.clone(), b })
        } else {
            let next = self.candidate.plus(&self.stride);
            proof {
                lemma_square_monotonic(self.candidate@, next@);
            }
            self.candidate = next;
            None
        }
    }
}

impl FermatSearch {
    /// Up to `trials` trials, one after the other, until one finds a pair.
    ///
    /// The result is the pair of the first candidate whose trial succeeds,
    /// and the search then rests at that candidate. Where none of them
    /// succeeds, the search has moved on by `trials` strides.
    pub fn run(&mut self, trials: u64) -> (r: Option<RaceResult>)
        ensures
            final(self).modulus() == old(self).modulus(),
            final(self).stride() == old(self).stride(),
            match first_success(
                old(self).modulus(),
                old(self).candidate(),
                old(self).stride(),
                trials as nat,
            ) {
                Some(a) => {
                    &&& r matches Some(pair) && pair.a@ == a && is_fermat_pair(
                        old(self).modulus(),
                        a,
                        pair.b@,
                    )
                    &&& final(self).candidate() == a
                },
                None => {
                    &&& r is None
                    &&& final(self).candidate() == old(self).candidate() + trials * old(
                        self,
                    ).stride()
                },
            },
    {
        let mut left: u64 = trials;
        while left > 0
            invariant
                left <= trials,
                self.modulus() == old(self).modulus(),
                self.stride() == old(self).stride(),
                self.candidate() == old(self).candidate() + (trials - left) * old(self).stride(),
                first_success(
                    old(self).modulus(),
                    old(self).candidate(),
                    old(self).stride(),
                    trials as nat,
                ) == first_success(self.modulus(), self.candidate(), self.stride(), left as nat),
            decreases left,
        {
            match self.step() {
                Some(pair) => {
                    return Some(pair);
                },
                None => {},
            }
            proof {
                let stride = old(self).stride();
                assert((trials - left) * stride + stride == (trials - (left - 1)) * stride)
                    by (nonlinear_arith);
            }
            left -= 1;
        }
        proof {
            assert((trials - 0) * old(self).stride() == trials * old(self).stride());
        }
        None
    }
}

/// The strategy that factors a modulus by a race of workers.
#[derive(Debug)]
pub struct RSA {
    num_threads: usize,
    modulus: Natural,
}

impl RSA {
    /// The number to factor.
    pub closed spec fn modulus(&self) -> nat {
        self.modulus@
    }

    /// A strategy that factors the modulus written in `modulus` with
    /// `num_threads` workers. The text must write a natural number.
    pub fn new(num_threads: usize, modulus: &str) -> (s: Self)
        requires
            parsed_integer(modulus@) matches Some(v) && v >= 0,
        ensures
            s.workers() == num_threads,
            parsed_integer(modulus@) == Some(s.modulus() as int),
    {
        match Natural::from_decimal(modulus) {
            Ok(n) => RSA { num_threads, modulus: n },
            Err(_) => vstd::pervasive::unreached(),
        }
    }

    /// As [`RSA::new`], for any text: one that writes no natural number is
    /// refused, with the reason.
    pub fn try_new(num_threads: usize, modulus: &str) -> (r: Result<Self, ParseNaturalError>)
        ensures
            r matches Ok(s) <==> (parsed_integer(modulus@) matches Some(v) && v >= 0),
            r matches Ok(s) ==> s.workers() == num_threads && parsed_integer(modulus@) == Some(
                s.modulus() as int,
            ),
            r matches Err(e) ==> e == (if parsed_integer(modulus@) is None {
                ParseNaturalError::Invalid
            } else {
                ParseNaturalError::Negative
            }),
    {
        match Natural::from_decimal(modulus) {
            Ok(_) => Ok(RSA::new(num_threads, modulus)),
            Err(e) => Err(e),
        }
    }

    /// The search of the worker with the given number: it starts at the
    /// worker's first candidate and moves by the number of workers.
    pub fn worker(&self, thread_id: usize) -> (w: FermatSearch)
        ensures
            w.modulus() == self.modulus(),
            w.candidate() == first_candidate(self.modulus(), thread_id as nat),
            w.stride() == self.workers(),
    {
        let root = self.modulus.sqrt();
        let candidate = root.plus(&Natural::from_u64(1)).plus(&Natural::from_u64(thread_id as u64));
        proof {
            lemma_square_monotonic(root@ + 1, candidate@);
        }
        FermatSearch {
            modulus: self.modulus.clone(),
            candidate,
            stride: Natural::from_u64(self.num_threads as u64),
        }
    }
}

impl RSA {
    /// The searches of all workers, in the order of the workers.
    pub fn searches(&self) -> (r: Vec<FermatSearch>)
        ensures
            r@.len() == self.workers(),
            forall|i: int|
                0 <= i < r@.len() ==> {
                    &&& (#[trigger] r@[i]).modulus() == self.modulus()
                    &&& r@[i].candidate() == first_candidate(self.modulus(), i as nat)
                    &&& r@[i].stride() == self.workers()
                },
    {
        let mut all: Vec<FermatSearch> = Vec::new();
        let mut thread_id: usize = 0;
        while thread_id < self.num_threads
            invariant
                thread_id <= self.num_threads,
                all@.len() == thread_id,
                forall|i: int|
                    0 <= i < all@.len() ==> {
                        &&& (#[trigger] all@[i]).modulus() == self.modulus()
                        &&& all@[i].candidate() == first_candidate(self.modulus(), i as nat)
                        &&& all@[i].stride() == self.workers()
                    },
            decreases self.num_threads - thread_id,
        {
            all.push(self.worker(thread_id));
            thread_id += 1;
        }
        all
    }
}

impl StressStrategy for RSA {
    open spec fn label() -> Seq<char> {
        "RSA-1536 factorization"@
    }

    closed spec fn workers(&self) -> nat {
        self.num_threads as nat
    }

    fn name<'a>(&self) -> (s: &'a str) {
        "RSA-1536 factorization"
    }

    fn num_threads(&self) -> (n: usize) {
        self.num_threads
    }
}

} // verus!
