//! Zoom factors. A zoom factor is handed over as the 32 bits of an IEEE 754
//! float and is taken for the exact number that the bits stand for: a whole
//! number times a power of two. Lengths are scaled with whole numbers only,
//! so that the same bits give the same sizes everywhere.

use vstd::arithmetic::power2::{lemma2_to64, lemma_pow2_pos, lemma_pow2_strictly_increases, lemma_pow2_unfold, pow2};
use vstd::prelude::*;

verus! {

/// A zoom factor: the number `mantissa * 2^exponent`, which is above zero.
#[derive(Clone, Copy, Debug, PartialEq, Eq, Structural)]
pub struct Zoom {
    pub mantissa: u32,
    pub exponent: i32,
}

/// The part of the bits of a float that holds the exponent.
pub open spec fn exponent_bits(bits: u32) -> u32 {
    (bits >> 23) & 0xff
}

/// The part of the bits of a float that holds the fraction.
pub open spec fn fraction_bits(bits: u32) -> u32 {
    bits & 0x7f_ffff
}

/// Whether the bits of a float say that the number is below zero.
pub open spec fn sign_bit(bits: u32) -> bool {
    bits >> 31 == 1
}

impl Zoom {
    /// What a zoom factor is like: its mantissa has at most 24 bits and is
    /// not zero, and its exponent is one that a float can have.
    pub open spec fn is_valid_spec(self) -> bool {
        &&& 1 <= self.mantissa < 0x100_0000
        &&& -149 <= self.exponent <= 104
    }

    /// The zoom factor that the bits of a float stand for, or `None` where
    /// they stand for zero, for a number below zero, for infinity or for no
    /// number at all.
    pub open spec fn of_bits(bits: u32) -> Option<Zoom> {
        if sign_bit(bits) || exponent_bits(bits) == 255 || (exponent_bits(bits) == 0
            && fraction_bits(bits) == 0) {
            None
        } else if exponent_bits(bits) == 0 {
            Some(Zoom { mantissa: fraction_bits(bits), exponent: -149i32 })
        } else {
            Some(
                Zoom {
                    mantissa: (fraction_bits(bits) + 0x80_0000) as u32,
                    exponent: (exponent_bits(bits) - 150) as i32,
                },
            )
        }
    }

    /// A length times the zoom factor, rounded to the nearest whole number;
    /// a half is rounded up.
    pub open spec fn scaled(self, length: int) -> int {
        if self.exponent >= 0 {
            length * self.mantissa * pow2(self.exponent as nat)
        } else {
            (2 * length * self.mantissa + pow2((-self.exponent) as nat)) / (2 * pow2(
                (-self.exponent) as nat,
            ) as int)
        }
    }

    /// A length divided by the zoom factor, rounded down: the place in the
    /// source that a place in the scaled picture is taken from.
    pub open spec fn unscaled(self, length: int) -> int {
        if self.exponent >= 0 {
            length / (self.mantissa * pow2(self.exponent as nat))
        } else {
            (length * (pow2((-self.exponent) as nat) as int)) / (self.mantissa as int)
        }
    }

    /// Whether a pyramid layer that is smaller than the source by `factor`
    /// is fine enough for the zoom factor: `factor` times the zoom factor
    /// is one at most.
    pub open spec fn admits(self, factor: int) -> bool {
        if self.exponent >= 0 {
            factor * self.mantissa * pow2(self.exponent as nat) <= 1
        } else {
            factor * self.mantissa <= pow2((-self.exponent) as nat)
        }
    }

    /// The zoom factor that the bits of a float stand for.
    pub fn from_bits(bits: u32) -> (zoom: Option<Zoom>)
        ensures
            zoom == Zoom::of_bits(bits),
            zoom matches Some(found) ==> found.is_valid_spec(),
    {
        let exponent: u32 = (bits >> 23) & 0xff;
        let fraction: u32 = bits & 0x7f_ffff;
        assert(exponent <= 255 && fraction < 0x80_0000) by (bit_vector)
            requires
                exponent == (bits >> 23) & 0xff,
                fraction == bits & 0x7f_ffff,
        ;
        if bits >> 31 == 1 || exponent == 255 || (exponent == 0 && fraction == 0) {
            None
        } else if exponent == 0 {
            Some(Zoom { mantissa: fraction, exponent: -149 })
        } else {
            Some(Zoom { mantissa: fraction + 0x80_0000, exponent: exponent as i32 - 150 })
        }
    }
}

/// A zoom factor that the bits of a float stand for is a valid one.
pub proof fn lemma_of_bits_is_valid(bits: u32)
    ensures
        Zoom::of_bits(bits) matches Some(found) ==> found.is_valid_spec(),
{
    let exponent: u32 = (bits >> 23) & 0xff;
    let fraction: u32 = bits & 0x7f_ffff;
    assert(exponent <= 255 && fraction < 0x80_0000) by (bit_vector)
        requires
            exponent == (bits >> 23) & 0xff,
            fraction == bits & 0x7f_ffff,
    ;
}

/// Two to the power of `exponent`.
pub fn power_of_two(exponent: u32) -> (power: u128)
    requires
        exponent <= 64,
    ensures
        power == pow2(exponent as nat),
        1 <= power <= 0x1_0000_0000_0000_0000,
{
    let mut power: u128 = 1;
    let mut done: u32 = 0;
    proof {
        lemma2_to64();
    }
    while done < exponent
        invariant
            done <= exponent <= 64,
            power == pow2(done as nat),
            1 <= power <= pow2(64),
            pow2(64) == 0x1_0000_0000_0000_0000,
        decreases exponent - done,
    {
        proof {
            lemma_pow2_unfold((done + 1) as nat);
            if done + 1 < 64 {
                lemma_pow2_strictly_increases((done + 1) as nat, 64);
            }
        }
        power = power * 2;
        done = done + 1;
    }
    power
}

impl Zoom {
    /// A length times the zoom factor, rounded to the nearest whole number,
    /// or `None` where that is no 32-bit number.
    pub fn scale(&self, length: u32) -> (scaled: Option<i32>)
        requires
            self.is_valid_spec(),
        ensures
            match scaled {
                Some(found) => found == self.scaled(length as int),
                None => self.scaled(length as int) > i32::MAX,
            },
            scaled matches Some(found) ==> found >= 0,
    {
        assert(0 <= length * self.mantissa <= 0xffff_ffff * 0xff_ffff && 2 * length * self.mantissa
            == 2 * (length * self.mantissa)) by (nonlinear_arith)
            requires
                0 <= length <= 0xffff_ffff,
                0 <= self.mantissa <= 0xff_ffff,
        ;
        let product: u128 = length as u128 * self.mantissa as u128;
        proof {
            lemma2_to64();
        }
        if self.exponent >= 0 {
            if product == 0 {
                assert(self.scaled(length as int) == 0) by (nonlinear_arith)
                    requires
                        length * self.mantissa == 0,
                        self.exponent >= 0,
                        self.scaled(length as int) == length * self.mantissa * pow2(
                            self.exponent as nat,
                        ),
                ;
                return Some(0);
            }
            if self.exponent > 31 {
                proof {
                    lemma_pow2_strictly_increases(31, self.exponent as nat);
                    let power = pow2(self.exponent as nat);
                    assert(product * power > i32::MAX) by (nonlinear_arith)
                        requires
                            product >= 1,
                            power > 0x8000_0000,
                    ;
                }
                return None;
            }
            let power: u128 = power_of_two(self.exponent as u32);
            proof {
                if self.exponent < 31 {
                    lemma_pow2_strictly_increases(self.exponent as nat, 31);
                }
                assert(product * power <= 0xffff_ffff * 0xff_ffff * 0x8000_0000) by (nonlinear_arith)
                    requires
                        product <= 0xffff_ffff * 0xff_ffff,
                        power <= 0x8000_0000,
                ;
            }
            let whole: u128 = product * power;
            if whole > i32::MAX as u128 {
                None
            } else {
                Some(whole as i32)
            }
        } else {
            let shift: u32 = (-self.exponent) as u32;
            if shift > 64 {
                proof {
                    lemma_pow2_strictly_increases(64, shift as nat);
                    let power = pow2(shift as nat) as int;
                    let numerator = 2 * length * self.mantissa + power;
                    assert(power > 0x1_0000_0000_0000_0000);
                    assert(numerator / (2 * power) == 0) by (nonlinear_arith)
                        requires
                            0 <= numerator < 2 * power,
                    ;
                }
                return Some(0);
            }
            let power: u128 = power_of_two(shift);
            let numerator: u128 = 2 * product + power;
            let whole: u128 = numerator / (2 * power);
            proof {
                assert(whole <= numerator) by (nonlinear_arith)
                    requires
                        whole as int == (numerator as int) / (2 * power as int),
                        power >= 1,
                        numerator >= 0,
                ;
            }
            if whole > i32::MAX as u128 {
                None
            } else {
                Some(whole as i32)
            }
        }
    }

    /// A length divided by the zoom factor, rounded down and cut to
    /// `limit`.
    pub fn unscale(&self, length: u32, limit: u32) -> (source: u32)
        requires
            self.is_valid_spec(),
        ensures
            source == if self.unscaled(length as int) < limit {
                self.unscaled(length as int)
            } else {
                limit as int
            },
    {
        proof {
            lemma2_to64();
        }
        if self.exponent >= 0 {
            if self.exponent > 31 {
                proof {
                    if self.exponent > 32 {
                        lemma_pow2_strictly_increases(32, self.exponent as nat);
                    }
                    let power = pow2(self.exponent as nat) as int;
                    let divisor = self.mantissa * pow2(self.exponent as nat);
                    assert(power >= 0x1_0000_0000);
                    assert(divisor > length) by (nonlinear_arith)
                        requires
                            divisor == self.mantissa * power,
                            self.mantissa >= 1,
                            power >= 0x1_0000_0000,
                            length <= 0xffff_ffff,
                    ;
                    assert(length as int / divisor == 0) by (nonlinear_arith)
                        requires
                            0 <= length < divisor,
                    ;
                }
                return 0;
            }
            let power: u128 = power_of_two(self.exponent as u32);
            proof {
                if self.exponent < 31 {
                    lemma_pow2_strictly_increases(self.exponent as nat, 31);
                }
                assert(self.mantissa * power <= 0xff_ffff * 0x8000_0000 && self.mantissa * power
                    >= 1) by (nonlinear_arith)
                    requires
                        1 <= self.mantissa <= 0xff_ffff,
                        1 <= power <= 0x8000_0000,
                ;
            }
            let divisor: u128 = self.mantissa as u128 * power;
            let whole: u128 = length as u128 / divisor;
            proof {
                assert(whole <= length) by (nonlinear_arith)
                    requires
                        whole == length as int / divisor as int,
                        divisor >= 1,
                        length >= 0,
                ;
            }
            if whole < limit as u128 {
                whole as u32
            } else {
                limit
            }
        } else {
            let shift: u32 = (-self.exponent) as u32;
            if length == 0 {
                let ghost power = pow2((-self.exponent) as nat) as int;
                let ghost mantissa = self.mantissa as int;
                assert((0 * power) / mantissa == 0) by (nonlinear_arith)
                    requires
                        mantissa >= 1,
                ;
                return 0;
            }
            if shift > 64 {
                proof {
                    lemma_pow2_strictly_increases(64, shift as nat);
                    let power = pow2(shift as nat) as int;
                    let mantissa = self.mantissa as int;
                    assert((length * power) / mantissa >= limit) by (nonlinear_arith)
                        requires
                            length >= 1,
                            power > 0x1_0000_0000_0000_0000,
                            1 <= mantissa <= 0xff_ffff,
                            limit <= 0xffff_ffff,
                    ;
                }
                return limit;
            }
            let power: u128 = power_of_two(shift);
            assert(length * power <= 0xffff_ffff * 0x1_0000_0000_0000_0000) by (nonlinear_arith)
                requires
                    length <= 0xffff_ffff,
                    power <= 0x1_0000_0000_0000_0000,
            ;
            let whole: u128 = (length as u128 * power) / self.mantissa as u128;
            if whole < limit as u128 {
                whole as u32
            } else {
                limit
            }
        }
    }

    /// Whether a pyramid layer that is smaller than the source by `factor`
    /// is fine enough for the zoom factor.
    pub fn is_fine_enough(&self, factor: u32) -> (fine: bool)
        requires
            self.is_valid_spec(),
        ensures
            fine == self.admits(factor as int),
    {
        proof {
            lemma2_to64();
        }
        assert(0 <= factor * self.mantissa <= 0xffff_ffff * 0xff_ffff) by (nonlinear_arith)
            requires
                0 <= factor <= 0xffff_ffff,
                0 <= self.mantissa <= 0xff_ffff,
        ;
        let product: u128 = factor as u128 * self.mantissa as u128;
        if self.exponent >= 0 {
            if product == 0 {
                assert(factor * self.mantissa * pow2(self.exponent as nat) == 0) by (nonlinear_arith)
                    requires
                        factor * self.mantissa == 0,
                ;
                return true;
            }
            proof {
                lemma_pow2_pos(self.exponent as nat);
                let power = pow2(self.exponent as nat);
                if self.exponent > 0 {
                    lemma_pow2_strictly_increases(0, self.exponent as nat);
                }
                assert(product * power <= 1 <==> (product == 1 && power == 1)) by (nonlinear_arith)
                    requires
                        product >= 1,
                        power >= 1,
                ;
            }
            product == 1 && self.exponent == 0
        } else {
            let shift: u32 = (-self.exponent) as u32;
            if shift > 64 {
                proof {
                    lemma_pow2_strictly_increases(64, shift as nat);
                }
                return true;
            }
            let power: u128 = power_of_two(shift);
            product <= power
        }
    }
}

} // verus!
