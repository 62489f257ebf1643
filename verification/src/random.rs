//! The boundary to the random source: probabilities as ratios, and the calls
//! into the `rand` crate that the rest of the library draws through.

use rand::rngs::StdRng;
use rand::Rng;
use vstd::prelude::*;

verus! {

/// The random source, `rand::rngs::StdRng`: one stream that the engine owns
/// and hands to every call that draws. Nothing inside it is visible here.
#[verifier::external_type_specification]
#[verifier::external_body]
pub struct ExStdRng(StdRng);

/// `StdRng::clone` copies the state of the generator. Nothing is claimed of
/// what the copy will draw.
pub assume_specification[ <StdRng as Clone>::clone ](rng: &StdRng) -> (copy: StdRng);

/// The chance of a Bernoulli trial, held as a ratio of two integers with
/// `0 < denominator` and `numerator <= denominator`.
#[derive(Debug, Clone, Copy)]
pub struct Probability {
    numerator: u32,
    denominator: u32,
}

impl Probability {
    #[verifier::type_invariant]
    spec fn well_formed(self) -> bool {
        0 < self.denominator && self.numerator <= self.denominator
    }

    /// The numerator of the ratio.
    pub closed spec fn numer(self) -> nat {
        self.numerator as nat
    }

    /// The denominator of the ratio.
    pub closed spec fn denom(self) -> nat {
        self.denominator as nat
    }

    /// A trial with this chance never succeeds.
    pub open spec fn is_never(self) -> bool {
        self.numer() == 0
    }

    /// A trial with this chance always succeeds.
    pub open spec fn is_certain(self) -> bool {
        self.numer() == self.denom() && self.numer() > 0
    }

    /// The chance `numerator / denominator`, or `None` where that is no
    /// probability: the denominator is zero or the ratio exceeds one.
    pub fn checked_ratio(numerator: u32, denominator: u32) -> (p: Option<Probability>)
        ensures
            p is Some <==> 0 < denominator && numerator <= denominator,
            p matches Some(q) ==> q == Self::spec_ratio(numerator, denominator) && q.numer()
                == numerator && q.denom() == denominator,
    {
        if denominator == 0 || numerator > denominator {
            None
        } else {
            Some(Probability { numerator, denominator })
        }
    }

    /// The chance `numerator / denominator`, for specifications.
    pub closed spec fn spec_ratio(numerator: u32, denominator: u32) -> Probability {
        Probability { numerator, denominator }
    }

    /// The parts of a chance that is written as a ratio.
    pub proof fn lemma_ratio_parts(numerator: u32, denominator: u32)
        ensures
            Self::spec_ratio(numerator, denominator).numer() == numerator,
            Self::spec_ratio(numerator, denominator).denom() == denominator,
    {
    }

    /// The chance `numerator / denominator`.
    #[verifier::when_used_as_spec(spec_ratio)]
    pub fn ratio(numerator: u32, denominator: u32) -> (p: Probability)
        requires
            0 < denominator,
            numerator <= denominator,
        ensures
            p == Self::spec_ratio(numerator, denominator),
            p.numer() == numerator,
            p.denom() == denominator,
    {
        Probability { numerator, denominator }
    }

    /// This chance divided by `divisor`, for specifications.
    pub closed spec fn spec_divided_by(self, divisor: u32) -> Probability {
        Probability {
            numerator: self.numerator,
            denominator: (self.denominator * divisor) as u32,
        }
    }

    /// The parts of a divided chance, where the divided denominator fits 32
    /// bits.
    pub proof fn lemma_divided_parts(self, divisor: u32)
        requires
            self.denom() * divisor <= u32::MAX,
        ensures
            self.spec_divided_by(divisor).numer() == self.numer(),
            self.spec_divided_by(divisor).denom() == self.denom() * divisor,
    {
    }

    /// This chance divided by `divisor`.
    #[verifier::when_used_as_spec(spec_divided_by)]
    pub fn divided_by(self, divisor: u32) -> (p: Probability)
        requires
            0 < divisor,
            self.denom() * divisor <= u32::MAX,
        ensures
            p == self.spec_divided_by(divisor),
            p.numer() == self.numer(),
            p.denom() == self.denom() * divisor,
    {
        proof {
            use_type_invariant(&self);
            assert(self.denominator * divisor >= self.denominator) by (nonlinear_arith)
                requires
                    divisor >= 1,
            ;
        }
        Probability { numerator: self.numerator, denominator: self.denominator * divisor }
    }

    /// The chance zero.
    pub fn never() -> (p: Probability)
        ensures
            p == Self::spec_ratio(0, 1),
            p.is_never(),
    {
        Probability { numerator: 0, denominator: 1 }
    }

    /// The chance one.
    pub fn certain() -> (p: Probability)
        ensures
            p == Self::spec_ratio(1, 1),
            p.is_certain(),
    {
        Probability { numerator: 1, denominator: 1 }
    }

    /// The numerator of the ratio.
    pub fn numerator(&self) -> (n: u32)
        ensures
            n == self.numer(),
            n <= self.denom(),
    {
        proof {
            use_type_invariant(self);
        }
        self.numerator
    }

    /// The denominator of the ratio.
    pub fn denominator(&self) -> (d: u32)
        ensures
            d == self.denom(),
            d > 0,
    {
        proof {
            use_type_invariant(self);
        }
        self.denominator
    }

    /// One Bernoulli trial against the random source. Chance zero never
    /// succeeds and chance one always does; in between either may happen.
    pub fn sample(&self, rng: &mut StdRng) -> (hit: bool)
        ensures
            self.is_never() ==> !hit,
            self.is_certain() ==> hit,
    {
        proof {
            use_type_invariant(self);
        }
        gen_ratio(rng, self.numerator, self.denominator)
    }
}

/// Calls `rand::Rng::gen_ratio`, which returns `true` with probability
/// `numerator / denominator`. Its documentation guarantees `false` for a zero
/// numerator and `true` where numerator and denominator are equal; it panics
/// on a zero denominator or a ratio above one, which `requires` leaves out.
#[verifier::external_body]
pub(crate) fn gen_ratio(rng: &mut StdRng, numerator: u32, denominator: u32) -> (hit: bool)
    requires
        0 < denominator,
        numerator <= denominator,
    ensures
        numerator == 0 ==> !hit,
        numerator == denominator ==> hit,
{
    rng.gen_ratio(numerator, denominator)
}

/// Calls `rand::Rng::gen_range` on the half-open range `0..bound`, which
/// returns a value inside the range and panics where the range is empty.
#[verifier::external_body]
pub(crate) fn gen_below(rng: &mut StdRng, bound: u8) -> (value: u8)
    requires
        0 < bound,
    ensures
        value < bound,
{
    rng.gen_range(0..bound)
}

/// The indices in `picks` lie below `length` and no index occurs twice.
pub open spec fn distinct_below(picks: Seq<usize>, length: nat) -> bool {
    &&& forall|i: int| 0 <= i < picks.len() ==> picks[i] < length
    &&& forall|i: int, j: int| 0 <= i < j < picks.len() ==> picks[i] != picks[j]
}

/// Calls `rand::seq::index::sample`, which draws exactly `amount` distinct
/// indices from `0..length` in random order. It panics where `amount`
/// exceeds `length`, and for a length beyond 32 bits one of its samplers
/// asserts that `amount` is strictly below `length`; `requires` leaves both
/// out.
#[verifier::external_body]
pub(crate) fn sample_indices(rng: &mut StdRng, length: usize, amount: usize) -> (picks: Vec<usize>)
    requires
        amount < length,
    ensures
        picks@.len() == amount,
        distinct_below(picks@, length as nat),
{
    rand::seq::index::sample(rng, length, amount).into_vec()
}

} // verus!
