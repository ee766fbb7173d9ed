//! Primes among the 32-bit numbers: a test by trial division and a generator
//! that hands out the primes above a starting value, in order.

use vstd::prelude::*;

verus! {

/// How far below `u32::MAX` the generator stops, so that moving its cursor on
/// by one never overflows.
pub const SAFETY_MARGIN: u32 = 1;

/// The largest value the generator's cursor moves to.
pub const CURSOR_LIMIT: u32 = u32::MAX - SAFETY_MARGIN;

/// Whether `d` divides `n`.
pub open spec fn divides(d: nat, n: nat) -> bool {
    d > 0 && n % d == 0
}

/// Whether `n` is a prime number.
pub open spec fn is_prime_number(n: nat) -> bool {
    n >= 2 && forall|d: nat| 2 <= d < n ==> !#[trigger] divides(d, n)
}

/// Whether `p` is the first prime above `cursor`.
pub open spec fn is_next_prime(cursor: nat, p: nat) -> bool {
    &&& cursor < p
    &&& is_prime_number(p)
    &&& forall|k: nat| cursor < k < p ==> !#[trigger] is_prime_number(k)
}

/// Whether no prime lies above `cursor` and at or below the cursor limit.
pub open spec fn no_prime_left(cursor: nat) -> bool {
    forall|k: nat| cursor < k <= CURSOR_LIMIT ==> !#[trigger] is_prime_number(k)
}

/// What a generator whose cursor stands at `cursor` hands out next: the first
/// prime above the cursor, unless that lies beyond the cursor limit.
pub open spec fn next_prime(cursor: nat) -> Option<nat> {
    if exists|p: nat| #[trigger] is_next_prime(cursor, p) && p <= CURSOR_LIMIT {
        Some(choose|p: nat| #[trigger] is_next_prime(cursor, p) && p <= CURSOR_LIMIT)
    } else {
        None
    }
}

/// The result of call number `k`, counted from zero, on a generator that was
/// made with the start value `start`.
pub open spec fn emitted(start: nat, k: nat) -> Option<nat>
    decreases k,
{
    if k == 0 {
        next_prime(start)
    } else {
        match emitted(start, (k - 1) as nat) {
            Some(p) => next_prime(p),
            None => None,
        }
    }
}

/// A divisor of `n` comes with a second one, and their product is `n`.
proof fn lemma_cofactor(k: nat, n: nat)
    requires
        divides(k, n),
    ensures
        divides(n / k, n) || n == 0,
        (n / k) * k == n,
{
    let q = n / k;
    assert(n == k * q + n % k) by {
        vstd::arithmetic::div_mod::lemma_fundamental_div_mod(n as int, k as int);
    }
    assert(q * k == n) by (nonlinear_arith)
        requires
            n == k * q + 0,
    ;
    if n > 0 {
        assert(q > 0) by (nonlinear_arith)
            requires
                q * k == n,
                n > 0,
        ;
        assert(n % q == 0) by {
            vstd::arithmetic::div_mod::lemma_mod_multiples_basic(k as int, q as int);
            assert(k * q == q * k) by (nonlinear_arith);
        }
    }
}

/// A number of at least 2 with no divisor from 2 up to its square root is prime.
proof fn lemma_no_small_divisor(n: nat, d: nat)
    requires
        n >= 2,
        d >= 2,
        d * d > n,
        forall|k: nat| 2 <= k < d ==> !#[trigger] divides(k, n),
    ensures
        is_prime_number(n),
{
    assert forall|k: nat| 2 <= k < n implies !#[trigger] divides(k, n) by {
        if divides(k, n) {
            let q = n / k;
            lemma_cofactor(k, n);
            assert(q >= 2) by (nonlinear_arith)
                requires
                    q * k == n,
                    k < n,
                    k >= 2,
            ;
            if k >= d {
                assert(q < d) by (nonlinear_arith)
                    requires
                        q * k == n,
                        k >= d,
                        d * d > n,
                        d >= 2,
                ;
                assert(divides(q, n));
            }
        }
    }
}

/// Tests a number for primality by trial division, from 2 up to the square
/// root of the number.
pub fn is_prime(n: u32) -> (b: bool)
    ensures
        b == is_prime_number(n as nat),
    no_unwind
{
    if n < 2 {
        return false;
    }
    let mut d: u32 = 2;
    while d <= n / d
        invariant
            n >= 2,
            d >= 2,
            forall|k: nat| 2 <= k < d ==> !#[trigger] divides(k, n as nat),
        decreases n - d,
    {
        assert(d * d <= n) by (nonlinear_arith)
            requires
                d <= n / d,
                d >= 2,
        ;
        assert(d < n) by (nonlinear_arith)
            requires
                d * d <= n,
                d >= 2,
        ;
        if n % d == 0 {
            assert(divides(d as nat, n as nat));
            return false;
        }
        d += 1;
    }
    proof {
        assert(d * d > n) by (nonlinear_arith)
            requires
                d > n / d,
                d >= 2,
        ;
        lemma_no_small_divisor(n as nat, d as nat);
    }
    true
}

/// Hands out the primes above its starting value, each once, in rising order.
#[derive(Debug)]
pub struct PrimeGenerator {
    current: u32,
}

impl PrimeGenerator {
    /// The value above which the next prime is looked for.
    pub closed spec fn cursor(&self) -> nat {
        self.current as nat
    }

    /// A generator of the primes above `start`.
    pub fn new(start: u32) -> (g: Self)
        ensures
            g.cursor() == start,
    {
        PrimeGenerator { current: start }
    }

    /// The value above which the next prime is looked for.
    pub fn position(&self) -> (c: u32)
        ensures
            c == self.cursor(),
    {
        self.current
    }

    /// Hands out the first prime above the cursor and moves the cursor to it.
    ///
    /// `None` says that no prime is left at or below [`CURSOR_LIMIT`]; the
    /// cursor then rests at the limit, or where it was if that was beyond it,
    /// and every later call gives `None` again.
    pub fn next(&mut self) -> (r: Option<u32>)
        ensures
            next_prime(old(self).cursor()) == match r {
                Some(p) => Some(p as nat),
                None => None,
            },
            match r {
                Some(p) => {
                    &&& is_next_prime(old(self).cursor(), p as nat)
                    &&& p <= CURSOR_LIMIT
                    &&& final(self).cursor() == p
                },
                None => {
                    &&& no_prime_left(old(self).cursor())
                    &&& final(self).cursor() >= CURSOR_LIMIT
                    &&& final(self).cursor() >= old(self).cursor()
                    &&& final(self).cursor() == old(self).cursor() || final(self).cursor()
                        == CURSOR_LIMIT
                },
            },
        no_unwind
    {
        while self.current < CURSOR_LIMIT
            invariant
                old(self).cursor() <= self.cursor(),
                self.cursor() == old(self).cursor() || self.cursor() <= CURSOR_LIMIT,
                forall|k: nat|
                    old(self).cursor() < k <= self.cursor() ==> !#[trigger] is_prime_number(k),
            decreases CURSOR_LIMIT - self.current,
        {
            self.current += 1;
            if is_prime(self.current) {
                proof {
                    lemma_next_prime_found(old(self).cursor(), self.cursor());
                }
                return Some(self.current);
            }
        }
        None
    }
}

/// The first prime above a cursor is unique.
pub proof fn lemma_next_prime_is_unique(cursor: nat, p: nat, q: nat)
    requires
        is_next_prime(cursor, p),
        is_next_prime(cursor, q),
    ensures
        p == q,
{
}

/// The first prime above a cursor, if within the limit, is what comes next.
proof fn lemma_next_prime_found(cursor: nat, p: nat)
    requires
        is_next_prime(cursor, p),
        p <= CURSOR_LIMIT,
    ensures
        next_prime(cursor) == Some(p),
{
    let q = choose|q: nat| #[trigger] is_next_prime(cursor, q) && q <= CURSOR_LIMIT;
    lemma_next_prime_is_unique(cursor, p, q);
}

/// What comes next is a prime above the cursor and within the limit, with no
/// prime between the cursor and it.
pub proof fn lemma_next_prime_is_prime(cursor: nat)
    ensures
        next_prime(cursor) matches Some(p) ==> is_next_prime(cursor, p) && p <= CURSOR_LIMIT,
        next_prime(cursor) is None ==> no_prime_left(cursor),
{
    if next_prime(cursor) is None {
        assert forall|k: nat| cursor < k <= CURSOR_LIMIT implies !#[trigger] is_prime_number(k) by {
            if is_prime_number(k) {
                lemma_first_prime_up_to(cursor, k, k);
            }
        }
    }
}

/// Where a prime lies above the cursor and at or below `top`, there is a
/// first prime above the cursor, and it is no greater.
proof fn lemma_first_prime_up_to(cursor: nat, k: nat, top: nat)
    requires
        cursor < k <= top,
        is_prime_number(k),
    ensures
        exists|p: nat| #[trigger] is_next_prime(cursor, p) && p <= top,
    decreases k - cursor,
{
    if exists|j: nat| cursor < j < k && #[trigger] is_prime_number(j) {
        let j = choose|j: nat| cursor < j < k && #[trigger] is_prime_number(j);
        lemma_first_prime_up_to(cursor, j, top);
    } else {
        assert(is_next_prime(cursor, k));
    }
}

/// The sequence that a generator produces holds primes only and rises
/// strictly: every result is a prime, greater than the start value and than
/// every result before it.
pub proof fn lemma_sequence_rises(start: nat, j: nat, k: nat)
    requires
        j < k,
    ensures
        emitted(start, k) matches Some(q) ==> is_prime_number(q) && start < q && (emitted(
            start,
            j,
        ) matches Some(p) && is_prime_number(p) && start < p < q),
    decreases k,
{
    lemma_sequence_grows(start, j);
    lemma_sequence_grows(start, k);
    if emitted(start, k) is Some {
        let before = emitted(start, (k - 1) as nat);
        lemma_sequence_grows(start, (k - 1) as nat);
        lemma_next_prime_is_prime(before->Some_0);
        if j < k - 1 {
            lemma_sequence_rises(start, j, (k - 1) as nat);
        }
    }
}

/// Result number `k` of a generator, if there is one, is a prime that lies
/// more than `k` above the start value and within the cursor limit.
pub proof fn lemma_sequence_grows(start: nat, k: nat)
    ensures
        emitted(start, k) matches Some(p) ==> is_prime_number(p) && start + k < p <= CURSOR_LIMIT,
    decreases k,
{
    if k == 0 {
        lemma_next_prime_is_prime(start);
    } else {
        lemma_sequence_grows(start, (k - 1) as nat);
        if let Some(p) = emitted(start, (k - 1) as nat) {
            lemma_next_prime_is_prime(p);
        }
    }
}

/// The sequence that a generator produces ends: from call number
/// `CURSOR_LIMIT - start` on, and from the first call on where the start
/// value is at the limit or beyond, every result is `None`.
pub proof fn lemma_sequence_ends(start: nat, k: nat)
    requires
        start + k >= CURSOR_LIMIT,
    ensures
        emitted(start, k) is None,
{
    lemma_sequence_grows(start, k);
}

/// Once a generator has given `None`, it gives `None` ever after.
pub proof fn lemma_exhausted_stays_exhausted(start: nat, j: nat, k: nat)
    requires
        j <= k,
        emitted(start, j) is None,
    ensures
        emitted(start, k) is None,
    decreases k,
{
    if j < k {
        lemma_exhausted_stays_exhausted(start, j, (k - 1) as nat);
    }
}

} // verus!
