//! The closed set of stressing strategies, how one is selected by name, and
//! what every strategy exposes to the code that drives it.

use vstd::prelude::*;

verus! {

/// One of the kernels that can be selected for a run.
#[derive(Debug, Copy, Clone, PartialEq, Eq, Structural)]
#[non_exhaustive]
pub enum StressingStrategies {
    LucasLehmer,
    Mandelbrot,
    RSA,
}

/// Why a strategy name was not accepted.
#[derive(Debug, Clone)]
pub struct ParseStrategyError {
    pub message: String,
}

/// What every stressing strategy tells its driver before the workers start.
///
/// Spawning and joining the workers is the driver's part; a strategy fixes
/// how many there are and what each of them is given to do.
pub trait StressStrategy {
    /// The label of the strategy: one value per type, whatever the instance holds.
    spec fn label() -> Seq<char>;

    /// The number of workers this instance was built with.
    spec fn workers(&self) -> nat;

    /// Human-readable label, the same on every call.
    fn name<'a>(&self) -> (s: &'a str)
        ensures
            s@ == Self::label(),
    ;

    /// The number of worker threads a run of this instance uses.
    fn num_threads(&self) -> (n: usize)
        ensures
            n == self.workers(),
    ;
}

/// ASCII letters in upper case are read as their lower-case form.
pub open spec fn fold_case(c: char) -> char {
    if 'A' <= c && c <= 'Z' {
        ((c as u8) + 32) as char
    } else {
        c
    }
}

/// A name with every ASCII upper-case letter folded to lower case.
pub open spec fn folded(name: Seq<char>) -> Seq<char> {
    name.map_values(|c: char| fold_case(c))
}

/// The strategy that a name selects, if any.
pub open spec fn spec_parse(name: Seq<char>) -> Option<StressingStrategies> {
    if folded(name) == StressingStrategies::LucasLehmer.spec_token() {
        Some(StressingStrategies::LucasLehmer)
    } else if folded(name) == StressingStrategies::Mandelbrot.spec_token() {
        Some(StressingStrategies::Mandelbrot)
    } else if folded(name) == StressingStrategies::RSA.spec_token() {
        Some(StressingStrategies::RSA)
    } else {
        None
    }
}

fn lower(c: char) -> (r: char)
    ensures
        r == fold_case(c),
{
    if 'A' <= c && c <= 'Z' {
        ((c as u8) + 32) as char
    } else {
        c
    }
}

fn names_token(name: &str, token: &str) -> (b: bool)
    ensures
        b == (folded(name@) == token@),
{
    let n: usize = name.unicode_len();
    if n != token.unicode_len() {
        return false;
    }
    let mut i: usize = 0;
    while i < n
        invariant
            i <= n,
            n == name@.len(),
            n == token@.len(),
            forall|j: int| 0 <= j < i ==> fold_case(#[trigger] name@[j]) == token@[j],
        decreases n - i,
    {
        if lower(name.get_char(i)) != token.get_char(i) {
            assert(folded(name@)[i as int] != token@[i as int]);
            return false;
        }
        i += 1;
    }
    assert(folded(name@) =~= token@);
    true
}

impl StressingStrategies {
    /// The token by which a strategy is selected.
    pub open spec fn spec_token(self) -> Seq<char> {
        match self {
            StressingStrategies::LucasLehmer => "lucas-lehmer"@,
            StressingStrategies::Mandelbrot => "mandelbrot"@,
            StressingStrategies::RSA => "rsa"@,
        }
    }

    /// Selects a strategy by its token, read without regard to ASCII case.
    /// Any other name is refused with the message "No such stressing strategy".
    pub fn from_str(input: &str) -> (r: Result<StressingStrategies, ParseStrategyError>)
        ensures
            match spec_parse(input@) {
                Some(s) => r matches Ok(t) && t == s,
                None => r matches Err(e) && e.message@ == "No such stressing strategy"@,
            },
    {
        if names_token(input, "lucas-lehmer") {
            Ok(StressingStrategies::LucasLehmer)
        } else if names_token(input, "mandelbrot") {
            Ok(StressingStrategies::Mandelbrot)
        } else if names_token(input, "rsa") {
            Ok(StressingStrategies::RSA)
        } else {
            Err(ParseStrategyError::from("No such stressing strategy"))
        }
    }
}

/// Every strategy is selected by its own token.
pub proof fn lemma_token_selects_its_strategy(strategy: StressingStrategies)
    ensures
        spec_parse(strategy.spec_token()) == Some(strategy),
{
    reveal_strlit("lucas-lehmer");
    reveal_strlit("mandelbrot");
    reveal_strlit("rsa");
    let token = strategy.spec_token();
    assert(folded(token) =~= token);
    assert("lucas-lehmer"@.len() != "mandelbrot"@.len());
    assert("lucas-lehmer"@.len() != "rsa"@.len());
    assert("mandelbrot"@.len() != "rsa"@.len());
}

impl std::str::FromStr for StressingStrategies {
    type Err = ParseStrategyError;

    /// Selects a strategy by its token, read without regard to ASCII case.
    /// Any other name is refused with the message "No such stressing strategy".
    fn from_str(input: &str) -> (r: Result<Self, Self::Err>)
        ensures
            match spec_parse(input@) {
                Some(s) => r matches Ok(t) && t == s,
                None => r matches Err(e) && e.message@ == "No such stressing strategy"@,
            },
    {
        StressingStrategies::from_str(input)
    }
}

impl From<StressingStrategies> for &'static str {
    fn from(value: StressingStrategies) -> (s: Self) {
        match value {
            StressingStrategies::LucasLehmer => "lucas-lehmer",
            StressingStrategies::Mandelbrot => "mandelbrot",
            StressingStrategies::RSA => "rsa",
        }
    }
}

impl vstd::std_specs::convert::FromSpecImpl<StressingStrategies> for &'static str {
    open spec fn obeys_from_spec() -> bool {
        true
    }

    open spec fn from_spec(value: StressingStrategies) -> Self {
        match value {
            StressingStrategies::LucasLehmer => "lucas-lehmer",
            StressingStrategies::Mandelbrot => "mandelbrot",
            StressingStrategies::RSA => "rsa",
        }
    }
}

impl From<&str> for ParseStrategyError {
    fn from(value: &str) -> (e: Self)
        ensures
            e.message@ == value@,
    {
        ParseStrategyError { message: value.to_owned() }
    }
}

/// The conversion is described by the message of its result, on `from`
/// itself: no specification value stands for an owned text.
impl vstd::std_specs::convert::FromSpecImpl<&str> for ParseStrategyError {
    open spec fn obeys_from_spec() -> bool {
        false
    }

    open spec fn from_spec(value: &str) -> Self {
        arbitrary()
    }
}

} // verus!
