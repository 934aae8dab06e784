//! Signed fixed-point numbers with sixteen fractional bits.
use vstd::prelude::*;
use crate::scalar::Scalar;

verus! {

/// The number of raw units in one: two to the sixteenth.
pub const ONE: i32 = 65536;

/// A number `raw / 65536`, with `raw` a 32-bit signed integer. Arithmetic
/// saturates at the ends of the range instead of wrapping.
#[derive(Clone, Copy, Debug, PartialEq, Eq, Structural)]
pub struct Fixed {
    pub raw: i32,
}

/// The nearest raw value to `x` that a `Fixed` can hold.
pub open spec fn saturated(x: int) -> i32 {
    if x < i32::MIN {
        i32::MIN
    } else if x > i32::MAX {
        i32::MAX
    } else {
        x as i32
    }
}

/// The raw value of a product: the exact product of two raw values, scaled
/// back by rounding towards negative infinity, then saturated.
pub open spec fn product_raw(a: i32, b: i32) -> i32 {
    saturated((a * b) / 65536)
}

/// The two's complement pattern of a raw value.
pub open spec fn pattern_of(raw: i32) -> u32 {
    if raw >= 0 {
        raw as u32
    } else {
        (raw + 0x1_0000_0000) as u32
    }
}

/// The raw value that a two's complement pattern stands for.
pub open spec fn raw_of(bits: u32) -> i32 {
    if bits < 0x8000_0000 {
        bits as i32
    } else {
        (bits - 0x1_0000_0000) as i32
    }
}

fn saturate(x: i64) -> (r: i32)
    ensures
        r == saturated(x as int),
{
    if x < -2147483648 {
        i32::MIN
    } else if x > 2147483647 {
        i32::MAX
    } else {
        x as i32
    }
}

/// Calls `rand::thread_rng()` and `Rng::gen::<u32>()` on it: 32 bits from the
/// thread's generator. The result depends on chance, so nothing is claimed of
/// it.
#[verifier::external_body]
fn random_word() -> u32 {
    rand::Rng::gen::<u32>(&mut rand::thread_rng())
}

impl Fixed {
    /// The number `raw / 65536`.
    pub fn from_raw(raw: i32) -> (r: Fixed)
        ensures
            r.raw == raw,
    {
        Fixed { raw }
    }

    /// The whole number `n`.
    pub fn from_int(n: i16) -> (r: Fixed)
        ensures
            r.raw == n * 65536,
    {
        Fixed { raw: (n as i32) * ONE }
    }

    /// The raw value: the number times 65536.
    pub fn raw(&self) -> (r: i32)
        ensures
            r == self.raw,
    {
        self.raw
    }

    /// The number in `[0, 1)` whose sixteen fractional bits are the top
    /// sixteen bits of `word`.
    pub fn unit_fraction(word: u32) -> (r: Fixed)
        ensures
            r.raw == word / 65536,
            0 <= r.raw < 65536,
    {
        Fixed { raw: (word / 65536) as i32 }
    }
}

impl Scalar for Fixed {
    open spec fn zero_value() -> Self {
        Fixed { raw: 0 }
    }

    open spec fn sum(self, rhs: Self) -> Self {
        Fixed { raw: saturated(self.raw + rhs.raw) }
    }

    open spec fn difference(self, rhs: Self) -> Self {
        Fixed { raw: saturated(self.raw - rhs.raw) }
    }

    open spec fn product(self, rhs: Self) -> Self {
        Fixed { raw: product_raw(self.raw, rhs.raw) }
    }

    open spec fn bits(self) -> u32 {
        pattern_of(self.raw)
    }

    open spec fn of_bits(bits: u32) -> Self {
        Fixed { raw: raw_of(bits) }
    }

    open spec fn drawn(self) -> bool {
        0 <= self.raw < 65536
    }

    proof fn bits_round_trip(x: Self) {
    }

    fn zero() -> (r: Self) {
        Fixed { raw: 0 }
    }

    fn add(self, rhs: Self) -> (r: Self) {
        Fixed { raw: saturate(self.raw as i64 + rhs.raw as i64) }
    }

    fn sub(self, rhs: Self) -> (r: Self) {
        Fixed { raw: saturate(self.raw as i64 - rhs.raw as i64) }
    }

    fn mul(self, rhs: Self) -> (r: Self) {
        let a: i64 = self.raw as i64;
        let b: i64 = rhs.raw as i64;
        assert(-0x4000_0000_0000_0000 <= a * b <= 0x4000_0000_0000_0000) by (nonlinear_arith)
            requires
                -0x8000_0000 <= a <= 0x7fff_ffff,
                -0x8000_0000 <= b <= 0x7fff_ffff,
        ;
        let p: i64 = a * b;
        let q: i64 = if p >= 0 {
            p / 65536
        } else {
            -((65535 - p) / 65536)
        };
        Fixed { raw: saturate(q) }
    }

    fn to_bits(self) -> (r: u32) {
        if self.raw >= 0 {
            self.raw as u32
        } else {
            (self.raw as i64 + 0x1_0000_0000) as u32
        }
    }

    fn from_bits(bits: u32) -> (r: Self) {
        if bits < 0x8000_0000 {
            Fixed { raw: bits as i32 }
        } else {
            Fixed { raw: (bits as i64 - 0x1_0000_0000) as i32 }
        }
    }

    /// A number drawn from `[0, 1)`.
    fn random() -> (r: Self)
        ensures
            0 <= r.raw < 65536,
    {
        Fixed::unit_fraction(random_word())
    }
}

} // verus!
