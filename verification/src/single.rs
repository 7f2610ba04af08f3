//! Single-precision numbers by their bit patterns.

use vstd::arithmetic::power2::{lemma_pow2_adds, lemma_pow2_pos, pow2};
use vstd::prelude::*;

verus! {

/// A number in IEEE 754 binary32, by its bits: a sign, eight bits of exponent
/// and twenty-three of fraction.
#[derive(Debug, Clone, Copy, PartialEq, Eq, Structural)]
pub struct Single {
    pub bits: u32,
}

/// The bits of positive infinity. Patterns above it, without the sign, are no
/// numbers.
pub const INFINITY_BITS: u32 = 0x7f80_0000;

impl Single {
    /// The bits without the sign.
    pub open spec fn magnitude(self) -> int {
        self.bits as int % 0x8000_0000
    }

    /// Whether the sign is set.
    pub open spec fn negative(self) -> bool {
        self.bits >= 0x8000_0000
    }

    /// Whether the bits are those of no number.
    pub open spec fn is_nan(self) -> bool {
        self.magnitude() > INFINITY_BITS
    }

    /// Whether the bits are those of a finite number.
    pub open spec fn is_finite(self) -> bool {
        self.magnitude() < INFINITY_BITS
    }

    /// The value of a finite number, in units of the smallest positive one.
    pub open spec fn value(self) -> int {
        if self.negative() {
            -scaled(self.magnitude())
        } else {
            scaled(self.magnitude())
        }
    }

    /// The place of the number in the order of all of them, the two zeros in
    /// one place and what is no number behind the rest.
    pub open spec fn order(self) -> int {
        if self.is_nan() {
            INFINITY_BITS + 1
        } else if self.negative() {
            -self.magnitude()
        } else {
            self.magnitude()
        }
    }

    /// Whether the bits are those of no number.
    pub fn nan(self) -> (yes: bool)
        ensures
            yes == self.is_nan(),
    {
        self.bits % 0x8000_0000 > INFINITY_BITS
    }

    /// The place of the number in the order of all of them.
    pub fn rank(self) -> (place: i32)
        ensures
            place == self.order(),
    {
        let magnitude: u32 = self.bits % 0x8000_0000;
        if magnitude > INFINITY_BITS {
            INFINITY_BITS as i32 + 1
        } else if self.bits >= 0x8000_0000 {
            -(magnitude as i32)
        } else {
            magnitude as i32
        }
    }

    /// Whether the number is greater than zero.
    pub open spec fn is_positive(self) -> bool {
        !self.is_nan() && self.order() > 0
    }

    /// Whether the number is greater than zero.
    pub fn positive(self) -> (yes: bool)
        ensures
            yes == self.is_positive(),
    {
        !self.nan() && self.rank() > 0
    }
}

/// The value of a magnitude, in units of the smallest positive number.
pub open spec fn scaled(magnitude: int) -> int {
    let exponent = magnitude / 0x80_0000;
    let fraction = magnitude % 0x80_0000;
    if exponent == 0 {
        fraction
    } else {
        (0x80_0000 + fraction) * pow2((exponent - 1) as nat)
    }
}

/// The next magnitude has a greater value.
proof fn lemma_scaled_step(magnitude: int)
    requires
        0 <= magnitude,
    ensures
        scaled(magnitude) < scaled(magnitude + 1),
{
    let exponent = magnitude / 0x80_0000;
    let fraction = magnitude % 0x80_0000;
    vstd::arithmetic::power2::lemma2_to64();
    if fraction == 0x80_0000 - 1 {
        assert((magnitude + 1) / 0x80_0000 == exponent + 1);
        assert((magnitude + 1) % 0x80_0000 == 0);
        if exponent > 0 {
            let unit = pow2((exponent - 1) as nat);
            lemma_pow2_pos((exponent - 1) as nat);
            lemma_pow2_adds(1, (exponent - 1) as nat);
            assert(pow2(exponent as nat) == 2 * unit);
            assert((0x80_0000 + fraction) * unit < 0x80_0000 * (2 * unit)) by (nonlinear_arith)
                requires
                    fraction == 0x80_0000 - 1,
                    unit > 0,
            ;
        }
    } else {
        assert((magnitude + 1) / 0x80_0000 == exponent);
        assert((magnitude + 1) % 0x80_0000 == fraction + 1);
        if exponent > 0 {
            let unit = pow2((exponent - 1) as nat);
            lemma_pow2_pos((exponent - 1) as nat);
            assert((0x80_0000 + fraction) * unit < (0x80_0000 + (fraction + 1)) * unit)
                by (nonlinear_arith)
                requires
                    unit > 0,
            ;
        }
    }
}

/// Greater magnitudes have greater values.
proof fn lemma_scaled(a: int, b: int)
    requires
        0 <= a <= b,
    ensures
        scaled(a) <= scaled(b),
        a < b ==> scaled(a) < scaled(b),
        scaled(0) == 0,
    decreases b - a,
{
    if a < b {
        lemma_scaled(a, b - 1);
        lemma_scaled_step(b - 1);
    }
}

/// The order of finite numbers is that of their values, and numbers of the
/// same value have the same place in it.
pub proof fn lemma_order_is_value_order(a: Single, b: Single)
    requires
        a.is_finite(),
        b.is_finite(),
    ensures
        a.order() < b.order() <==> a.value() < b.value(),
        a.order() == b.order() <==> a.value() == b.value(),
{
    let x = a.magnitude();
    let y = b.magnitude();
    if x <= y {
        lemma_scaled(x, y);
    } else {
        lemma_scaled(y, x);
    }
    lemma_scaled(0, x);
    lemma_scaled(0, y);
}

/// Finite numbers lie between the infinities, and what is no number comes
/// last, all of it in one place.
pub proof fn lemma_order_of_the_rest(a: Single, b: Single)
    requires
        a.is_finite(),
        !b.is_finite(),
    ensures
        b.is_nan() ==> a.order() < b.order() && b.order() == INFINITY_BITS + 1,
        !b.is_nan() && b.negative() ==> b.order() < a.order(),
        !b.is_nan() && !b.negative() ==> a.order() < b.order() < INFINITY_BITS + 1,
{
}

/// A finite number is greater than zero exactly if its value is.
pub proof fn lemma_positive_value(a: Single)
    requires
        a.is_finite(),
    ensures
        a.is_positive() <==> a.value() > 0,
{
    lemma_order_is_value_order(Single { bits: 0 }, a);
    lemma_scaled(0, 0);
}

/// What the bits mean: the topmost is the sign, the next eight the exponent,
/// the others the fraction. An exponent of ones makes an infinity or no number,
/// one of zeros leaves out the leading one of the fraction.
pub proof fn lemma_bits(a: Single)
    ensures
        a.negative() <==> a.bits >= 0x8000_0000,
        a.is_nan() <==> a.bits as int % 0x8000_0000 > 0x7f80_0000,
        a.is_finite() <==> a.bits as int % 0x8000_0000 < 0x7f80_0000,
        a.is_positive() <==> 0 < a.bits <= 0x7f80_0000,
        a.bits < 0x80_0000 ==> a.value() == a.bits,
        0x80_0000 <= a.bits < 0x7f80_0000 ==> a.value() == (0x80_0000 + a.bits as int % 0x80_0000)
            * pow2((a.bits as int / 0x80_0000 - 1) as nat),
        0x8000_0000 <= a.bits < 0xff80_0000 ==> a.value() == -(Single {
            bits: (a.bits - 0x8000_0000) as u32,
        }).value(),
{
}

/// Which components are greater than zero.
pub fn quantize(components: &[Single]) -> (signs: Vec<bool>)
    ensures
        signs@.len() == components@.len(),
        forall|i: int|
            0 <= i < components@.len() ==> #[trigger] signs@[i] == components@[i].is_positive(),
        forall|i: int|
            0 <= i < components@.len() ==> (#[trigger] signs@[i] <==> 0 < components@[i].bits
                <= 0x7f80_0000),
{
    let mut signs: Vec<bool> = Vec::new();
    let mut i: usize = 0;
    while i < components.len()
        invariant
            i <= components@.len(),
            signs@.len() == i,
            forall|k: int| 0 <= k < i ==> #[trigger] signs@[k] == components@[k].is_positive(),
        decreases components@.len() - i,
    {
        signs.push(components[i].positive());
        i += 1;
    }
    signs
}

} // verus!
