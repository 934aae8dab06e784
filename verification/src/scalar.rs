//! The arithmetic that the engine needs from its element type.
use vstd::prelude::*;

verus! {

/// An element type for matrices and vectors.
///
/// Each executable operation is total and returns exactly the value that the
/// matching specification function names, so every result of the engine is a
/// function of its inputs. No algebraic law (associativity, commutativity,
/// distributivity) is asked for: the engine fixes the order of every sum and
/// product itself.
pub trait Scalar: Copy {
    /// The additive identity that sums start from.
    spec fn zero_value() -> Self;

    /// What `add` returns.
    spec fn sum(self, rhs: Self) -> Self;

    /// What `sub` returns.
    spec fn difference(self, rhs: Self) -> Self;

    /// What `mul` returns.
    spec fn product(self, rhs: Self) -> Self;

    /// The 32-bit pattern that stands for the value in a snapshot.
    spec fn bits(self) -> u32;

    /// The value that a 32-bit pattern stands for.
    spec fn of_bits(bits: u32) -> Self;

    /// What holds of every value that `random` returns.
    spec fn drawn(self) -> bool;

    /// Reading back the pattern of a value gives that value.
    proof fn bits_round_trip(x: Self)
        ensures
            Self::of_bits(x.bits()) == x,
    ;

    fn zero() -> (r: Self)
        ensures
            r == Self::zero_value(),
    ;

    fn add(self, rhs: Self) -> (r: Self)
        ensures
            r == self.sum(rhs),
    ;

    fn sub(self, rhs: Self) -> (r: Self)
        ensures
            r == self.difference(rhs),
    ;

    fn mul(self, rhs: Self) -> (r: Self)
        ensures
            r == self.product(rhs),
    ;

    fn to_bits(self) -> (r: u32)
        ensures
            r == self.bits(),
    ;

    fn from_bits(bits: u32) -> (r: Self)
        ensures
            r == Self::of_bits(bits),
    ;

    /// A fresh value for a parameter that is about to be trained. Two calls
    /// may differ: all that is promised is what holds of every draw.
    fn random() -> (r: Self)
        ensures
            r.drawn(),
    ;
}

} // verus!
