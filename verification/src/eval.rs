use vstd::prelude::*;

verus! {

/// Integer division truncating toward zero, as machine division does; the
/// divisor must not be zero.
pub open spec fn div_trunc(a: int, b: int) -> int {
    if a == 0 {
        0
    } else if a > 0 && b > 0 {
        a / b
    } else if a < 0 && b < 0 {
        (a * -1) / (b * -1)
    } else if a < 0 {
        ((a * -1) / b) * -1
    } else {
        (a / (b * -1)) * -1
    }
}

/// Truncating division of two machine words; the divisor must be nonzero
/// and the one overflowing quotient is excluded.
fn div_i16(a: i16, b: i16) -> (r: i16)
    requires
        b != 0,
        !(a == i16::MIN && b == -1),
    ensures
        r == div_trunc(a as int, b as int),
{
    match a.checked_div(b) {
        Some(v) => v,
        None => {
            proof {
                let x = a as int;
                let d = b as int;
                if x > 0 && d > 0 {
                    vstd::arithmetic::div_mod::lemma_div_pos_is_pos(x, d);
                    vstd::arithmetic::div_mod::lemma_div_nonincreasing(x, d);
                } else if x < 0 && d < 0 {
                    vstd::arithmetic::div_mod::lemma_div_pos_is_pos(x * -1, d * -1);
                    vstd::arithmetic::div_mod::lemma_div_nonincreasing(x * -1, d * -1);
                    if x == i16::MIN {
                        vstd::arithmetic::div_mod::lemma_div_is_ordered_by_denominator(
                            x * -1,
                            2,
                            d * -1,
                        );
                        assert((x * -1) / 2 == 16384);
                    }
                } else if x < 0 {
                    vstd::arithmetic::div_mod::lemma_div_pos_is_pos(x * -1, d);
                    vstd::arithmetic::div_mod::lemma_div_nonincreasing(x * -1, d);
                } else if x > 0 {
                    vstd::arithmetic::div_mod::lemma_div_pos_is_pos(x, d * -1);
                    vstd::arithmetic::div_mod::lemma_div_nonincreasing(x, d * -1);
                }
                assert(false);
            }
            0
        },
    }
}

/// A position's value in the middlegame phase and the endgame phase, as a
/// pair of signed 16-bit integers with componentwise arithmetic.
#[derive(Clone, Copy, Debug, PartialEq, Eq, Structural)]
pub struct PhasedEval(pub i16, pub i16);

impl Default for PhasedEval {
    /// The zero evaluation.
    fn default() -> (r: Self)
        ensures
            r == PhasedEval(0i16, 0i16),
    {
        PhasedEval(0, 0)
    }
}

impl PhasedEval {
    /// Componentwise sum.
    pub fn add(self, other: Self) -> (r: Self)
        requires
            i16::MIN <= self.0 + other.0 <= i16::MAX,
            i16::MIN <= self.1 + other.1 <= i16::MAX,
        ensures
            r.0 == self.0 + other.0,
            r.1 == self.1 + other.1,
    {
        PhasedEval(self.0 + other.0, self.1 + other.1)
    }

    /// Componentwise difference.
    pub fn sub(self, other: Self) -> (r: Self)
        requires
            i16::MIN <= self.0 - other.0 <= i16::MAX,
            i16::MIN <= self.1 - other.1 <= i16::MAX,
        ensures
            r.0 == self.0 - other.0,
            r.1 == self.1 - other.1,
    {
        PhasedEval(self.0 - other.0, self.1 - other.1)
    }

    /// Componentwise product.
    pub fn mul(self, other: Self) -> (r: Self)
        requires
            i16::MIN <= self.0 * other.0 <= i16::MAX,
            i16::MIN <= self.1 * other.1 <= i16::MAX,
        ensures
            r.0 == self.0 * other.0,
            r.1 == self.1 * other.1,
    {
        PhasedEval(self.0 * other.0, self.1 * other.1)
    }

    /// Componentwise quotient, truncating toward zero as machine division
    /// does.
    pub fn div(self, other: Self) -> (r: Self)
        requires
            other.0 != 0,
            other.1 != 0,
            !(self.0 == i16::MIN && other.0 == -1),
            !(self.1 == i16::MIN && other.1 == -1),
        ensures
            r.0 == div_trunc(self.0 as int, other.0 as int),
            r.1 == div_trunc(self.1 as int, other.1 as int),
    {
        PhasedEval(div_i16(self.0, other.0), div_i16(self.1, other.1))
    }

    /// Componentwise negation.
    pub fn neg(self) -> (r: Self)
        requires
            self.0 != i16::MIN,
            self.1 != i16::MIN,
        ensures
            r.0 == -self.0,
            r.1 == -self.1,
    {
        PhasedEval(-self.0, -self.1)
    }
}

} // verus!
