//! The numeric capability that a matrix asks of its elements.

use rand::rngs::ThreadRng;
use rand::Rng;
use vstd::prelude::*;
use vstd::wrapping::i64_specs;

verus! {

/// The generator of `rand` that is local to the calling thread. Its state is
/// hidden: nothing is known of a value drawn from it but what the drawing
/// function promises.
#[verifier::external_type_specification]
#[verifier::external_body]
pub struct ExThreadRng(ThreadRng);

/// `rand::thread_rng` hands out the generator of the calling thread. Nothing
/// is promised of the generator.
pub assume_specification[ rand::thread_rng ]() -> (rng: ThreadRng);

/// What a matrix needs from its elements: the two neutral values, an addition
/// and a multiplication, and a way to draw a value at random.
///
/// The specification functions say which value each operation returns; they
/// promise no algebraic law. Addition may fail to be associative, as it does
/// for rounded arithmetic, and the multiplication contracts still hold.
pub trait Element: Copy {
    /// The additive neutral value.
    spec fn zero_value() -> Self;

    /// The multiplicative neutral value.
    spec fn one_value() -> Self;

    /// The value of `self + rhs`.
    spec fn sum(self, rhs: Self) -> Self;

    /// The value of `self * rhs`.
    spec fn product(self, rhs: Self) -> Self;

    /// Whether the value lies in the half-open interval from minus one to one.
    spec fn in_unit_range(self) -> bool;

    /// Returns the additive neutral value.
    fn zero() -> (r: Self)
        ensures
            r == Self::zero_value(),
    ;

    /// Returns the multiplicative neutral value.
    fn one() -> (r: Self)
        ensures
            r == Self::one_value(),
    ;

    /// Adds `rhs` to `self`.
    fn plus(self, rhs: Self) -> (r: Self)
        ensures
            r == self.sum(rhs),
    ;

    /// Multiplies `self` by `rhs`.
    fn times(self, rhs: Self) -> (r: Self)
        ensures
            r == self.product(rhs),
    ;

    /// Draws a value from `rng`, uniformly between minus one (included) and
    /// one (excluded).
    fn sample_unit(rng: &mut ThreadRng) -> (r: Self)
        ensures
            r.in_unit_range(),
    ;
}

/// The laws under which the identity matrix is neutral: zero is neutral for
/// the sum on both sides, one is neutral for the product on the left, and zero
/// absorbs on the left.
pub open spec fn identity_laws<T: Element>() -> bool {
    &&& forall|x: T| #[trigger] T::zero_value().sum(x) == x
    &&& forall|x: T| #[trigger] x.sum(T::zero_value()) == x
    &&& forall|x: T| #[trigger] T::one_value().product(x) == x
    &&& forall|x: T| #[trigger] T::zero_value().product(x) == T::zero_value()
}

/// `num_traits::Zero::zero` for `i64`, which returns the integer 0.
#[verifier::external_body]
fn num_zero() -> (r: i64)
    ensures
        r == 0,
{
    num_traits::Zero::zero()
}

/// `num_traits::One::one` for `i64`, which returns the integer 1.
#[verifier::external_body]
fn num_one() -> (r: i64)
    ensures
        r == 1,
{
    num_traits::One::one()
}

/// `rand::Rng::gen_range` on the half-open range `low..high` of `i64`. The
/// call panics on an empty range, so `low < high` is required; the value drawn
/// lies in the range, and nothing else is promised of it.
#[verifier::external_body]
fn gen_range(rng: &mut ThreadRng, low: i64, high: i64) -> (r: i64)
    requires
        low < high,
    ensures
        low <= r < high,
{
    rng.gen_range(low..high)
}

/// 64-bit integers with wrapping arithmetic: the ring of integers modulo 2^64.
impl Element for i64 {
    open spec fn zero_value() -> i64 {
        0
    }

    open spec fn one_value() -> i64 {
        1
    }

    open spec fn sum(self, rhs: i64) -> i64 {
        i64_specs::wrapping_add(self, rhs)
    }

    open spec fn product(self, rhs: i64) -> i64 {
        i64_specs::wrapping_mul(self, rhs)
    }

    open spec fn in_unit_range(self) -> bool {
        -1 <= self < 1
    }

    fn zero() -> (r: i64) {
        num_zero()
    }

    fn one() -> (r: i64) {
        num_one()
    }

    fn plus(self, rhs: i64) -> (r: i64) {
        self.wrapping_add(rhs)
    }

    fn times(self, rhs: i64) -> (r: i64) {
        self.wrapping_mul(rhs)
    }

    fn sample_unit(rng: &mut ThreadRng) -> (r: i64) {
        let one: i64 = num_one();
        gen_range(rng, -one, one)
    }
}

/// Wrapping 64-bit integers obey the identity laws.
pub proof fn lemma_i64_identity_laws()
    ensures
        identity_laws::<i64>(),
{
    assert forall|x: i64| #[trigger] i64::one_value().product(x) == x by {
        assert(1 * x == x);
    }
    assert forall|x: i64| #[trigger] i64::zero_value().product(x) == i64::zero_value() by {
        assert(0 * x == 0);
    }
}

} // verus!
