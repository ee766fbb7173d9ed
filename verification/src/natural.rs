//! Natural numbers of any size.
//!
//! A [`Natural`] holds its value as 64-bit limbs, least significant first.
//! The arithmetic itself is done by the `rug` crate; the functions that hand
//! limbs to it and take limbs back are the trusted part of this module, each
//! with a contract over [`limbs_value`]. Limbs go to `rug` through
//! `Integer::from_digits` and come back through `Integer::to_digits`, both
//! with `Order::Lsf`; `from_digits` needs the bits of the limbs to be
//! countable in a `usize`, which every `Natural` guarantees. Numbers too
//! large for `rug` to allocate end the process, as running out of memory
//! does.

use rug::integer::Order;
use rug::integer::ParseIntegerError;
use rug::Integer;
use std::str::FromStr;
use vstd::arithmetic::power2::pow2;
use vstd::prelude::*;

verus! {

#[verifier::external_type_specification]
#[verifier::external_body]
pub struct ExParseIntegerError(ParseIntegerError);

/// The radix of a limb: 2^64.
pub open spec fn limb_radix() -> nat {
    0x1_0000_0000_0000_0000
}

/// The number that a sequence of limbs stands for, least significant limb first.
pub open spec fn limbs_value(limbs: Seq<u64>) -> nat
    decreases limbs.len(),
{
    if limbs.len() == 0 {
        0
    } else {
        limbs[0] as nat + limb_radix() * limbs_value(limbs.drop_first())
    }
}

/// Whether the bits of so many limbs can be counted in a `usize`.
pub open spec fn limbs_fit(limbs: Seq<u64>) -> bool {
    limbs.len() * 64 <= usize::MAX
}

/// A text made of ASCII decimal digits, at least one.
pub open spec fn is_decimal(text: Seq<char>) -> bool {
    &&& text.len() > 0
    &&& forall|i: int| 0 <= i < text.len() ==> '0' <= #[trigger] text[i] <= '9'
}

/// The number that a text of decimal digits stands for.
pub open spec fn decimal_value(text: Seq<char>) -> nat
    decreases text.len(),
{
    if text.len() == 0 {
        0
    } else {
        10 * decimal_value(text.drop_last()) + (text.last() as nat - '0' as nat) as nat
    }
}

/// The square of a number.
pub open spec fn square(k: nat) -> nat {
    k * k
}

/// Whether a number is the square of a natural number.
pub open spec fn is_square(n: nat) -> bool {
    exists|k: nat| #[trigger] square(k) == n
}

/// Whether `r` is the square root of `n`, rounded down.
pub open spec fn is_floor_sqrt(r: nat, n: nat) -> bool {
    r * r <= n < (r + 1) * (r + 1)
}

/// The square root of `n`, rounded down.
pub open spec fn floor_sqrt(n: nat) -> nat {
    choose|r: nat| is_floor_sqrt(r, n)
}

/// A magnitude with its sign.
pub open spec fn signed(negative: bool, magnitude: nat) -> int {
    if negative {
        -(magnitude as int)
    } else {
        magnitude as int
    }
}

/// The integer that `rug` reads from a text, when it reads one.
pub uninterp spec fn parsed_integer(text: Seq<char>) -> Option<int>;

/// An integer as its sign and the limbs of its magnitude.
struct SignedLimbs {
    negative: bool,
    limbs: Vec<u64>,
}

/// `Integer::from_str`, with the sign apart from the magnitude's limbs.
///
/// `rug` reads an optional sign and then decimal digits; it skips ASCII
/// whitespace anywhere and underscores after the first digit. The contract
/// does not spell this out: it calls what is read [`parsed_integer`], and the
/// result is an error exactly when nothing is read. What it does state is
/// that a text of decimal digits alone is read as the number it writes,
/// which is not negative, and that a negative result is not zero. The sign
/// is taken by comparing the `Integer` with zero.
#[verifier::external_body]
fn parse_limbs(text: &str) -> (r: Result<SignedLimbs, ParseIntegerError>)
    ensures
        r is Ok <==> parsed_integer(text@) is Some,
        r matches Ok(v) ==> limbs_fit(v.limbs@),
        r matches Ok(v) ==> (v.negative ==> limbs_value(v.limbs@) > 0),
        r matches Ok(v) ==> parsed_integer(text@) == Some(
            signed(v.negative, limbs_value(v.limbs@)),
        ),
        is_decimal(text@) ==> r is Ok,
        r matches Ok(v) ==> (is_decimal(text@) ==> !v.negative && limbs_value(v.limbs@)
            == decimal_value(text@)),
{
    match Integer::from_str(text) {
        Ok(v) => Ok(SignedLimbs { negative: v < 0, limbs: v.to_digits::<u64>(Order::Lsf) }),
        Err(e) => Err(e),
    }
}

/// `Integer::to_string`: the decimal digits of the number, without a sign and
/// without leading zeros.
#[verifier::external_body]
fn limbs_to_decimal(a: &Vec<u64>) -> (r: String)
    requires
        limbs_fit(a@),
    ensures
        is_decimal(r@),
        decimal_value(r@) == limbs_value(a@),
        r@.len() == 1 || r@[0] != '0',
{
    Integer::from_digits(a.as_slice(), Order::Lsf).to_string()
}

/// `Integer::square`: the number times itself.
#[verifier::external_body]
fn limbs_square(a: &Vec<u64>) -> (r: Vec<u64>)
    requires
        limbs_fit(a@),
    ensures
        limbs_fit(r@),
        limbs_value(r@) == limbs_value(a@) * limbs_value(a@),
{
    Integer::from_digits(a.as_slice(), Order::Lsf).square().to_digits::<u64>(Order::Lsf)
}

/// `Integer + Integer`: the sum.
#[verifier::external_body]
fn limbs_sum(a: &Vec<u64>, b: &Vec<u64>) -> (r: Vec<u64>)
    requires
        limbs_fit(a@),
        limbs_fit(b@),
    ensures
        limbs_fit(r@),
        limbs_value(r@) == limbs_value(a@) + limbs_value(b@),
{
    let x = Integer::from_digits(a.as_slice(), Order::Lsf);
    let y = Integer::from_digits(b.as_slice(), Order::Lsf);
    (x + y).to_digits::<u64>(Order::Lsf)
}

/// `Integer - Integer`, where the result is not negative: the difference.
#[verifier::external_body]
fn limbs_difference(a: &Vec<u64>, b: &Vec<u64>) -> (r: Vec<u64>)
    requires
        limbs_fit(a@),
        limbs_fit(b@),
        limbs_value(b@) <= limbs_value(a@),
    ensures
        limbs_fit(r@),
        limbs_value(r@) == limbs_value(a@) - limbs_value(b@),
{
    let x = Integer::from_digits(a.as_slice(), Order::Lsf);
    let y = Integer::from_digits(b.as_slice(), Order::Lsf);
    (x - y).to_digits::<u64>(Order::Lsf)
}

/// `Integer % Integer` on numbers that are not negative, with a divisor that
/// is not zero: the remainder.
#[verifier::external_body]
fn limbs_remainder(a: &Vec<u64>, m: &Vec<u64>) -> (r: Vec<u64>)
    requires
        limbs_fit(a@),
        limbs_fit(m@),
        limbs_value(m@) > 0,
    ensures
        limbs_fit(r@),
        limbs_value(r@) == limbs_value(a@) % limbs_value(m@),
{
    let x = Integer::from_digits(a.as_slice(), Order::Lsf);
    let y = Integer::from_digits(m.as_slice(), Order::Lsf);
    (x % y).to_digits::<u64>(Order::Lsf)
}

/// `Integer::sqrt`: the square root, rounded down.
#[verifier::external_body]
fn limbs_sqrt(a: &Vec<u64>) -> (r: Vec<u64>)
    requires
        limbs_fit(a@),
    ensures
        limbs_fit(r@),
        is_floor_sqrt(limbs_value(r@), limbs_value(a@)),
{
    Integer::from_digits(a.as_slice(), Order::Lsf).sqrt().to_digits::<u64>(Order::Lsf)
}

/// `Integer::is_perfect_square`: whether the number is a square.
#[verifier::external_body]
fn limbs_is_square(a: &Vec<u64>) -> (r: bool)
    requires
        limbs_fit(a@),
    ensures
        r == is_square(limbs_value(a@)),
{
    Integer::from_digits(a.as_slice(), Order::Lsf).is_perfect_square()
}

/// `Integer <= Integer`: whether the first number is no greater than the second.
#[verifier::external_body]
fn limbs_at_most(a: &Vec<u64>, b: &Vec<u64>) -> (r: bool)
    requires
        limbs_fit(a@),
        limbs_fit(b@),
    ensures
        r == (limbs_value(a@) <= limbs_value(b@)),
{
    let x = Integer::from_digits(a.as_slice(), Order::Lsf);
    let y = Integer::from_digits(b.as_slice(), Order::Lsf);
    x <= y
}

/// `Integer << u32` applied to one: the power of two with that exponent.
#[verifier::external_body]
fn limbs_power_of_two(exponent: u32) -> (r: Vec<u64>)
    ensures
        limbs_fit(r@),
        limbs_value(r@) == pow2(exponent as nat),
{
    (Integer::from(1u32) << exponent).to_digits::<u64>(Order::Lsf)
}

/// Why a text was not read as a natural number.
#[derive(Debug, Copy, Clone, PartialEq, Eq, Structural)]
pub enum ParseNaturalError {
    /// The text does not write an integer.
    Invalid,
    /// The text writes an integer below zero.
    Negative,
}

/// A natural number of any size.
#[derive(Debug)]
pub struct Natural {
    limbs: Vec<u64>,
}

impl View for Natural {
    type V = nat;

    closed spec fn view(&self) -> nat {
        limbs_value(self.limbs@)
    }
}

impl Clone for Natural {
    fn clone(&self) -> (r: Self)
        ensures
            r@ == self@,
    {
        proof {
            use_type_invariant(self);
        }
        Natural { limbs: self.limbs.clone() }
    }
}

impl Natural {
    #[verifier::type_invariant]
    spec fn well_formed(&self) -> bool {
        limbs_fit(self.limbs@)
    }

    /// The natural number with the value of a machine integer.
    pub fn from_u64(value: u64) -> (r: Self)
        ensures
            r@ == value,
    {
        let limbs = vec![value];
        proof {
            assert(limbs@.drop_first() =~= Seq::<u64>::empty());
            reveal_with_fuel(limbs_value, 2);
        }
        Natural { limbs }
    }

    /// Reads a natural number from a text.
    ///
    /// The text is read as `rug` reads integers. One that does not write an
    /// integer gives `Invalid`, one that writes a negative integer gives
    /// `Negative`. A text of decimal digits alone always gives its number.
    pub fn from_decimal(text: &str) -> (r: Result<Self, ParseNaturalError>)
        ensures
            is_decimal(text@) ==> (r matches Ok(n) && n@ == decimal_value(text@)),
            r matches Ok(n) <==> (parsed_integer(text@) matches Some(v) && v >= 0),
            r matches Ok(n) ==> parsed_integer(text@) == Some(n@ as int),
            r matches Err(e) ==> e == (if parsed_integer(text@) is None {
                ParseNaturalError::Invalid
            } else {
                ParseNaturalError::Negative
            }),
            is_decimal(text@) ==> parsed_integer(text@) == Some(decimal_value(text@) as int),
    {
        match parse_limbs(text) {
            Ok(v) => {
                if v.negative {
                    Err(ParseNaturalError::Negative)
                } else {
                    Ok(Natural { limbs: v.limbs })
                }
            },
            Err(_) => Err(ParseNaturalError::Invalid),
        }
    }

    /// Writes the number in decimal digits, without leading zeros.
    pub fn to_decimal(&self) -> (r: String)
        ensures
            is_decimal(r@),
            decimal_value(r@) == self@,
            r@.len() == 1 || r@[0] != '0',
    {
        proof {
            use_type_invariant(self);
        }
        limbs_to_decimal(&self.limbs)
    }

    /// The number times itself.
    pub fn square(&self) -> (r: Self)
        ensures
            r@ == self@ * self@,
    {
        proof {
            use_type_invariant(self);
        }
        Natural { limbs: limbs_square(&self.limbs) }
    }

    /// The sum of two numbers.
    pub fn plus(&self, other: &Natural) -> (r: Self)
        ensures
            r@ == self@ + other@,
    {
        proof {
            use_type_invariant(self);
            use_type_invariant(other);
        }
        Natural { limbs: limbs_sum(&self.limbs, &other.limbs) }
    }

    /// The difference of two numbers, the second no greater than the first.
    pub fn minus(&self, other: &Natural) -> (r: Self)
        requires
            other@ <= self@,
        ensures
            r@ == self@ - other@,
    {
        proof {
            use_type_invariant(self);
            use_type_invariant(other);
        }
        Natural { limbs: limbs_difference(&self.limbs, &other.limbs) }
    }

    /// The remainder of the number on division by a modulus that is not zero.
    pub fn modulo(&self, modulus: &Natural) -> (r: Self)
        requires
            modulus@ > 0,
        ensures
            r@ == self@ % modulus@,
    {
        proof {
            use_type_invariant(self);
            use_type_invariant(modulus);
        }
        Natural { limbs: limbs_remainder(&self.limbs, &modulus.limbs) }
    }

    /// The square root of the number, rounded down.
    pub fn sqrt(&self) -> (r: Self)
        ensures
            r@ == floor_sqrt(self@),
            is_floor_sqrt(r@, self@),
    {
        proof {
            use_type_invariant(self);
        }
        let limbs = limbs_sqrt(&self.limbs);
        proof {
            lemma_floor_sqrt_unique(limbs_value(limbs@), floor_sqrt(self@), self@);
        }
        Natural { limbs }
    }

    /// Whether the number is no greater than the other.
    pub fn at_most(&self, other: &Natural) -> (r: bool)
        ensures
            r == (self@ <= other@),
    {
        proof {
            use_type_invariant(self);
            use_type_invariant(other);
        }
        limbs_at_most(&self.limbs, &other.limbs)
    }

    /// Whether the number is the square of a natural number.
    pub fn is_perfect_square(&self) -> (r: bool)
        ensures
            r == is_square(self@),
    {
        proof {
            use_type_invariant(self);
        }
        limbs_is_square(&self.limbs)
    }

    /// Two to the power of the exponent.
    pub fn power_of_two(exponent: u32) -> (r: Self)
        ensures
            r@ == pow2(exponent as nat),
    {
        Natural { limbs: limbs_power_of_two(exponent) }
    }

    /// Whether the number is zero.
    pub fn is_zero(&self) -> (r: bool)
        ensures
            r == (self@ == 0),
    {
        let mut i: usize = 0;
        while i < self.limbs.len()
            invariant
                i <= self.limbs@.len(),
                limbs_value(self.limbs@.subrange(0, i as int)) == 0,
            decreases self.limbs@.len() - i,
        {
            if self.limbs[i] != 0 {
                proof {
                    lemma_nonzero_limb(self.limbs@, i as int);
                }
                return false;
            }
            proof {
                lemma_zero_limb_appended(self.limbs@.subrange(0, i as int + 1));
                assert(self.limbs@.subrange(0, i as int + 1).drop_last() =~= self.limbs@.subrange(
                    0,
                    i as int,
                ));
            }
            i += 1;
        }
        assert(self.limbs@.subrange(0, i as int) =~= self.limbs@);
        true
    }
}

/// Squaring keeps the order of natural numbers.
pub proof fn lemma_square_monotonic(x: nat, y: nat)
    ensures
        x <= y ==> x * x <= y * y,
        x < y ==> x * x < y * y,
{
    assert(x <= y ==> x * x <= y * y) by (nonlinear_arith);
    assert(x < y ==> x * x < y * y) by (nonlinear_arith);
}

/// A number has at most one square root rounded down.
pub proof fn lemma_floor_sqrt_unique(r1: nat, r2: nat, n: nat)
    requires
        is_floor_sqrt(r1, n),
    ensures
        is_floor_sqrt(r2, n) ==> r1 == r2,
        is_floor_sqrt(floor_sqrt(n), n),
{
    if is_floor_sqrt(r2, n) {
        if r1 < r2 {
            lemma_square_monotonic(r1 + 1, r2);
        } else if r2 < r1 {
            lemma_square_monotonic(r2 + 1, r1);
        }
    }
}

/// Every number has a square root rounded down.
pub proof fn lemma_floor_sqrt_exists(n: nat)
    ensures
        is_floor_sqrt(floor_sqrt(n), n),
    decreases n,
{
    if n == 0 {
        assert(is_floor_sqrt(0, 0)) by (nonlinear_arith);
    } else {
        lemma_floor_sqrt_exists((n - 1) as nat);
        let r = floor_sqrt((n - 1) as nat);
        if n < (r + 1) * (r + 1) {
            assert(is_floor_sqrt(r, n));
        } else {
            assert((r + 2) * (r + 2) > (r + 1) * (r + 1)) by (nonlinear_arith);
            assert(is_floor_sqrt(r + 1, n));
        }
    }
}

/// The root of a square, rounded down, is its exact root.
pub proof fn lemma_sqrt_of_square(r: nat, n: nat)
    requires
        is_floor_sqrt(r, n),
        is_square(n),
    ensures
        r * r == n,
{
    let k = choose|k: nat| #[trigger] square(k) == n;
    if k < r {
        lemma_square_monotonic(k + 1, r);
        assert((k + 1) * (k + 1) > k * k) by (nonlinear_arith);
    } else if k > r {
        lemma_square_monotonic(r + 1, k);
    }
}

/// A number with a limb that is not zero is not zero.
proof fn lemma_nonzero_limb(limbs: Seq<u64>, i: int)
    requires
        0 <= i < limbs.len(),
        limbs[i] != 0,
    ensures
        limbs_value(limbs) > 0,
    decreases limbs.len(),
{
    if i > 0 {
        lemma_nonzero_limb(limbs.drop_first(), i - 1);
        assert(limb_radix() * limbs_value(limbs.drop_first()) > 0) by (nonlinear_arith)
            requires
                limbs_value(limbs.drop_first()) > 0,
                limb_radix() > 0,
        ;
    }
}

/// A zero limb at the most significant end leaves the value as it was.
proof fn lemma_zero_limb_appended(limbs: Seq<u64>)
    requires
        limbs.len() > 0,
        limbs.last() == 0,
    ensures
        limbs_value(limbs) == limbs_value(limbs.drop_last()),
    decreases limbs.len(),
{
    if limbs.len() == 1 {
        assert(limbs.drop_first() =~= Seq::<u64>::empty());
        assert(limbs.drop_last() =~= Seq::<u64>::empty());
        reveal_with_fuel(limbs_value, 2);
    } else {
        lemma_zero_limb_appended(limbs.drop_first());
        assert(limbs.drop_first().drop_last() =~= limbs.drop_last().drop_first());
        assert(limbs.drop_last()[0] == limbs[0]);
    }
}

} // verus!
