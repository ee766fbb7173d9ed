//! The arithmetic of factoring by a difference of squares: which candidates
//! the workers try, when a trial succeeds, and what a success says of the
//! factors.

use crate::natural::floor_sqrt;
use crate::natural::is_square;
use crate::natural::lemma_floor_sqrt_exists;
use crate::natural::lemma_square_monotonic;
use crate::natural::square;
use crate::primes::divides;
use crate::primes::is_prime_number;
use vstd::prelude::*;

verus! {

/// The first candidate of worker `thread_id`: as far above the square root of
/// the modulus, rounded down, as the worker's number plus one.
pub open spec fn first_candidate(modulus: nat, thread_id: nat) -> nat {
    floor_sqrt(modulus) + 1 + thread_id
}

/// The candidate of worker `thread_id` in a given round, among `workers` workers.
pub open spec fn candidate_in_round(modulus: nat, workers: nat, thread_id: nat, round: nat) -> nat {
    first_candidate(modulus, thread_id) + round * workers
}

/// Whether `a` and `b` write `modulus` as the difference of their squares.
pub open spec fn is_fermat_pair(modulus: nat, a: nat, b: nat) -> bool {
    a * a == modulus + b * b
}

/// Whether the trial of candidate `a` finds a pair: the square of `a` exceeds
/// the modulus by a square.
pub open spec fn trial_succeeds(modulus: nat, a: nat) -> bool {
    a * a >= modulus && is_square((a * a - modulus) as nat)
}

/// The first candidate whose trial succeeds, among `trials` candidates that
/// start at `a` and lie `stride` apart.
pub open spec fn first_success(modulus: nat, a: nat, stride: nat, trials: nat) -> Option<nat>
    decreases trials,
{
    if trials == 0 {
        None
    } else if trial_succeeds(modulus, a) {
        Some(a)
    } else {
        first_success(modulus, a + stride, stride, (trials - 1) as nat)
    }
}

/// A pair whose squares differ by the modulus gives two factors of it.
pub proof fn lemma_pair_gives_factors(modulus: nat, a: nat, b: nat)
    requires
        is_fermat_pair(modulus, a, b),
    ensures
        b <= a,
        (a + b) * (a - b) == modulus,
{
    if b > a {
        lemma_square_monotonic(a, b);
    }
    assert((a + b) * (a - b) == a * a - b * b) by (nonlinear_arith);
}

/// Two factors of equal parity are recovered from half their sum and half
/// their difference: the pair writes their product as a difference of
/// squares, and its sum and difference are the factors again.
pub proof fn lemma_factors_recovered(p: nat, q: nat)
    requires
        q <= p,
        (p + q) % 2 == 0,
    ensures
        is_fermat_pair(p * q, (p + q) / 2, ((p - q) / 2) as nat),
        (p + q) / 2 + (p - q) / 2 == p,
        (p + q) / 2 - (p - q) / 2 == q,
{
    let a = (p + q) / 2;
    let b = ((p - q) / 2) as nat;
    assert(2 * a == p + q);
    assert(2 * b == p - q);
    assert(a * a == p * q + b * b) by (nonlinear_arith)
        requires
            2 * a == p + q,
            2 * b == p - q,
    ;
}

/// Half the sum of two different factors of equal parity lies above the
/// square root of their product: some worker has it among its candidates.
pub proof fn lemma_half_sum_is_a_candidate(p: nat, q: nat)
    requires
        q < p,
        (p + q) % 2 == 0,
    ensures
        (p + q) / 2 > floor_sqrt(p * q),
{
    let a = (p + q) / 2;
    let root = floor_sqrt(p * q);
    lemma_floor_sqrt_exists(p * q);
    assert(a * a > p * q) by (nonlinear_arith)
        requires
            2 * a == p + q,
            q < p,
    ;
    if a <= root {
        lemma_square_monotonic(a, root);
    }
}

/// Every value above the square root of the modulus is the candidate of
/// exactly one worker, in exactly one round.
pub proof fn lemma_candidates_partition(modulus: nat, workers: nat, a: nat)
    requires
        workers > 0,
        a > floor_sqrt(modulus),
    ensures
        ({
            let offset = (a - floor_sqrt(modulus) - 1) as nat;
            &&& offset % workers < workers
            &&& candidate_in_round(modulus, workers, offset % workers, offset / workers) == a
        }),
        forall|t: nat, k: nat|
            t < workers && #[trigger] candidate_in_round(modulus, workers, t, k) == a ==> t == (a
                - floor_sqrt(modulus) - 1) % (workers as int) && k == (a - floor_sqrt(modulus) - 1)
                / (workers as int),
{
    let offset = (a - floor_sqrt(modulus) - 1) as nat;
    vstd::arithmetic::div_mod::lemma_fundamental_div_mod(offset as int, workers as int);
    assert((offset / workers) * workers == workers * (offset / workers)) by (nonlinear_arith);
    assert forall|t: nat, k: nat|
        t < workers && #[trigger] candidate_in_round(modulus, workers, t, k) == a implies t
        == offset % workers && k == offset / workers by {
        assert(offset == k * workers + t);
        vstd::arithmetic::div_mod::lemma_fundamental_div_mod_converse(
            offset as int,
            workers as int,
            k as int,
            t as int,
        );
    }
}

/// A search that has a succeeding candidate among its trials finds a pair,
/// at that candidate or before it.
pub proof fn lemma_search_reaches_success(
    modulus: nat,
    start: nat,
    stride: nat,
    trials: nat,
    k: nat,
)
    requires
        k < trials,
        trial_succeeds(modulus, start + k * stride),
    ensures
        first_success(modulus, start, stride, trials) matches Some(a) && a <= start + k * stride
            && trial_succeeds(modulus, a),
    decreases k,
{
    if trial_succeeds(modulus, start) {
        assert(k * stride >= 0) by (nonlinear_arith);
    } else {
        assert(k > 0) by {
            if k == 0 {
                assert(k * stride == 0) by (nonlinear_arith)
                    requires
                        k == 0,
                ;
            }
        }
        assert(start + k * stride == (start + stride) + (k - 1) * stride) by (nonlinear_arith)
            requires
                k > 0,
        ;
        lemma_search_reaches_success(
            modulus,
            start + stride,
            stride,
            (trials - 1) as nat,
            (k - 1) as nat,
        );
    }
}

/// A multiple of `p` is divisible by `p`.
proof fn lemma_multiple_is_divisible(p: nat, k: nat)
    requires
        p > 0,
    ensures
        divides(p, p * k),
{
    vstd::arithmetic::div_mod::lemma_mod_multiples_basic(k as int, p as int);
    assert(p * k == k * p) by (nonlinear_arith);
}

/// What `p` divides is a multiple of `p`.
proof fn lemma_divisible_is_multiple(p: nat, n: nat)
    requires
        divides(p, n),
    ensures
        n == p * (n / p),
{
    vstd::arithmetic::div_mod::lemma_fundamental_div_mod(n as int, p as int);
}

/// A prime that divides a product with a factor below it divides the other factor.
proof fn lemma_prime_divides_cofactor(p: nat, x: nat, y: nat)
    requires
        is_prime_number(p),
        0 < x < p,
        divides(p, x * y),
    ensures
        divides(p, y),
    decreases x,
{
    if x == 1 {
        assert(x * y == y) by (nonlinear_arith)
            requires
                x == 1,
        ;
    } else {
        let m = p / x;
        let r = p % x;
        vstd::arithmetic::div_mod::lemma_fundamental_div_mod(p as int, x as int);
        vstd::arithmetic::div_mod::lemma_mod_bound(p as int, x as int);
        assert(!divides(x, p));
        assert(0 < r < x);
        let k = (x * y) / p;
        lemma_divisible_is_multiple(p, x * y);
        assert(m >= 0) by {
            vstd::arithmetic::div_mod::lemma_div_pos_is_pos(p as int, x as int);
        }
        assert(r * y == p * (y - m * k)) by (nonlinear_arith)
            requires
                p == x * m + r,
                x * y == p * k,
        ;
        assert(y - m * k >= 0) by (nonlinear_arith)
            requires
                r * y == p * (y - m * k),
                p > 0,
                r >= 0,
                y >= 0,
        ;
        lemma_multiple_is_divisible(p, (y - m * k) as nat);
        lemma_prime_divides_cofactor(p, r as nat, y);
    }
}

/// A prime that divides a product divides one of its factors.
pub proof fn lemma_prime_divides_a_factor(p: nat, x: nat, y: nat)
    requires
        is_prime_number(p),
        divides(p, x * y),
    ensures
        divides(p, x) || divides(p, y),
{
    let r = x % p;
    let m = x / p;
    vstd::arithmetic::div_mod::lemma_fundamental_div_mod(x as int, p as int);
    vstd::arithmetic::div_mod::lemma_mod_bound(x as int, p as int);
    if r != 0 {
        let k = (x * y) / p;
        lemma_divisible_is_multiple(p, x * y);
        assert(m >= 0) by {
            vstd::arithmetic::div_mod::lemma_div_pos_is_pos(x as int, p as int);
        }
        assert(r * y == p * (k - m * y)) by (nonlinear_arith)
            requires
                x == p * m + r,
                x * y == p * k,
        ;
        assert(k - m * y >= 0) by (nonlinear_arith)
            requires
                r * y == p * (k - m * y),
                p > 0,
                r >= 0,
                y >= 0,
        ;
        lemma_multiple_is_divisible(p, (k - m * y) as nat);
        lemma_prime_divides_cofactor(p, r as nat, y);
    }
}

/// A prime is written as a product of two numbers in two ways only: one of
/// the two is 1.
proof fn lemma_prime_as_product(q: nat, x: nat, y: nat)
    requires
        is_prime_number(q),
        x * y == q,
    ensures
        (x == 1 && y == q) || (x == q && y == 1),
{
    assert(x > 0 && y > 0) by (nonlinear_arith)
        requires
            x * y == q,
            q >= 2,
    ;
    assert(x <= q) by (nonlinear_arith)
        requires
            x * y == q,
            y > 0,
    ;
    lemma_multiple_is_divisible(x, y);
    assert(divides(x, q));
    if x == 1 {
        assert(y == q) by (nonlinear_arith)
            requires
                x * y == q,
                x == 1,
        ;
    } else {
        assert(x == q);
        assert(y == 1) by (nonlinear_arith)
            requires
                x * y == q,
                x == q,
                q >= 2,
        ;
    }
}

/// The product of two primes is written as a product of two numbers in four
/// ways only: the primes in either order, and 1 with the product.
pub proof fn lemma_factor_pairs_of_semiprime(p: nat, q: nat, x: nat, y: nat)
    requires
        is_prime_number(p),
        is_prime_number(q),
        x * y == p * q,
    ensures
        (x == p && y == q) || (x == q && y == p) || (x == 1 && y == p * q) || (x == p * q && y
            == 1),
{
    lemma_multiple_is_divisible(p, q);
    lemma_prime_divides_a_factor(p, x, y);
    if divides(p, x) {
        let x1 = x / p;
        lemma_divisible_is_multiple(p, x);
        assert(x1 * y == q) by (nonlinear_arith)
            requires
                x == p * x1,
                x * y == p * q,
                p > 0,
        ;
        lemma_prime_as_product(q, x1, y);
        if x1 == 1 {
            assert(x == p) by (nonlinear_arith)
                requires
                    x == p * x1,
                    x1 == 1,
            ;
        } else {
            assert(x == p * q);
        }
    } else {
        let y1 = y / p;
        lemma_divisible_is_multiple(p, y);
        assert(x * y1 == q) by (nonlinear_arith)
            requires
                y == p * y1,
                x * y == p * q,
                p > 0,
        ;
        lemma_prime_as_product(q, x, y1);
        if y1 == 1 {
            assert(y == p) by (nonlinear_arith)
                requires
                    y == p * y1,
                    y1 == 1,
            ;
        } else {
            assert(y == p * q);
        }
    }
}

/// A pair that writes the product of two primes as a difference of squares
/// stands for the two primes or for 1 and the product: its sum and its
/// difference are factors of no other kind.
pub proof fn lemma_pairs_of_semiprime(p: nat, q: nat, a: nat, b: nat)
    requires
        is_prime_number(p),
        is_prime_number(q),
        q <= p,
        is_fermat_pair(p * q, a, b),
    ensures
        b <= a,
        (a + b == p && a - b == q) || (a + b == p * q && a - b == 1),
{
    lemma_pair_gives_factors(p * q, a, b);
    lemma_factor_pairs_of_semiprime(p, q, (a - b) as nat, a + b);
    assert((a - b) * (a + b) == (a + b) * (a - b)) by (nonlinear_arith);
    assert(p * q >= 4) by (nonlinear_arith)
        requires
            p >= 2,
            q >= 2,
    ;
}

/// The search finds two different primes of equal parity: a worker that has
/// half their sum among its trials stops there, neither earlier nor later,
/// and the companion it finds is half their difference, so that the factors
/// of the pair are the two primes.
pub proof fn lemma_search_finds_the_primes(
    p: nat,
    q: nat,
    start: nat,
    stride: nat,
    trials: nat,
    k: nat,
)
    requires
        is_prime_number(p),
        is_prime_number(q),
        q < p,
        (p + q) % 2 == 0,
        start + k * stride == (p + q) / 2,
        k < trials,
    ensures
        first_success(p * q, start, stride, trials) == Some((p + q) / 2),
        forall|b: nat| #[trigger]
            is_fermat_pair(p * q, (p + q) / 2, b) ==> (p + q) / 2 + b == p && (p + q) / 2 - b == q,
{
    let n = p * q;
    let a = (p + q) / 2;
    lemma_factors_recovered(p, q);
    let half = ((p - q) / 2) as nat;
    assert(square(half) == (a * a - n) as nat);
    assert(trial_succeeds(n, a));
    lemma_search_reaches_success(n, start, stride, trials, k);
    let found = first_success(n, start, stride, trials)->Some_0;
    let root = choose|b: nat| #[trigger] square(b) == (found * found - n) as nat;
    assert(is_fermat_pair(n, found, root));
    lemma_pairs_of_semiprime(p, q, found, root);
    if found + root == n && found - root == 1 {
        assert(p * q + 1 > p + q) by (nonlinear_arith)
            requires
                p >= 2,
                q >= 2,
        ;
    }
    assert forall|b: nat| #[trigger] is_fermat_pair(n, a, b) implies a + b == p && a - b == q by {
        lemma_pairs_of_semiprime(p, q, a, b);
        if a + b == n && a - b == 1 {
            assert(p * q + 1 > p + q) by (nonlinear_arith)
                requires
                    p >= 2,
                    q >= 2,
            ;
        }
    }
}

/// Among any number of workers, the one that has half the sum of two
/// different primes of equal parity among its candidates finds the primes:
/// its search stops at half their sum.
pub proof fn lemma_a_worker_finds_the_primes(p: nat, q: nat, workers: nat)
    requires
        is_prime_number(p),
        is_prime_number(q),
        q < p,
        (p + q) % 2 == 0,
        workers > 0,
    ensures
        ({
            let offset = ((p + q) / 2 - floor_sqrt(p * q) - 1) as nat;
            &&& (p + q) / 2 > floor_sqrt(p * q)
            &&& offset % workers < workers
            &&& first_success(
                p * q,
                first_candidate(p * q, offset % workers),
                workers,
                offset / workers + 1,
            ) == Some((p + q) / 2)
        }),
{
    lemma_half_sum_is_a_candidate(p, q);
    lemma_candidates_partition(p * q, workers, (p + q) / 2);
    let offset = ((p + q) / 2 - floor_sqrt(p * q) - 1) as nat;
    lemma_search_finds_the_primes(
        p,
        q,
        first_candidate(p * q, offset % workers),
        workers,
        offset / workers + 1,
        offset / workers,
    );
}

} // verus!
