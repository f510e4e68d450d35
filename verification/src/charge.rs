//! State of charge as an exact number.
//!
//! A charge level arrives from the power source as a double-precision
//! percentage. Verified code never computes with such a number directly:
//! [`Charge`] keeps its IEEE-754 binary64 bit pattern and reads the sign, the
//! exponent and the significand out of it with integer arithmetic. Every
//! finite value is a whole multiple of 2^-1074, so the specifications below
//! speak of the value through that multiple, an unbounded integer.

use vstd::arithmetic::div_mod::{lemma_fundamental_div_mod, lemma_fundamental_div_mod_converse};
use vstd::arithmetic::power2::{
    lemma2_to64, lemma2_to64_rest, lemma_pow2_adds, lemma_pow2_pos, lemma_pow2_strictly_increases,
    lemma_pow2_unfold, pow2,
};
use vstd::bits::lemma_u64_shl_is_mul;
use vstd::prelude::*;
use vstd::string::*;

use crate::decimal::{decimal_text, Decimal};

verus! {

/// The number of units of 2^-1074 that make up one percent.
pub open spec fn one_percent() -> nat {
    pow2(1074)
}

/// Where a remainder `rest` out of `whole` parts lies relative to one half.
#[derive(Clone, Copy, Debug, PartialEq, Eq, Structural)]
enum Remainder {
    /// Nothing is left over.
    Zero,
    /// Something is left over, less than one half.
    BelowHalf,
    /// Exactly one half is left over.
    Half,
    /// More than one half is left over.
    AboveHalf,
}

/// The position of `rest` parts out of `whole` relative to one half.
spec fn remainder_of(rest: nat, whole: nat) -> Remainder {
    if rest == 0 {
        Remainder::Zero
    } else if 2 * rest < whole {
        Remainder::BelowHalf
    } else if 2 * rest == whole {
        Remainder::Half
    } else {
        Remainder::AboveHalf
    }
}

/// `amount / unit` rounded to the nearest integer; a tie goes to the even
/// neighbour.
pub open spec fn round_half_even(amount: nat, unit: nat) -> nat {
    let floor = amount / unit;
    let rest = amount % unit;
    if 2 * rest > unit || (2 * rest == unit && floor % 2 == 1) {
        floor + 1
    } else {
        floor
    }
}

/// Dividing `amount` by `unit` splits it into whole units and a rest.
proof fn lemma_split(amount: nat, unit: nat)
    requires
        unit > 0,
    ensures
        amount == (amount / unit) * unit + amount % unit,
        amount % unit < unit,
{
    lemma_fundamental_div_mod(amount as int, unit as int);
    assert(unit * (amount / unit) == (amount / unit) * unit) by (nonlinear_arith);
}

/// A common factor of amount and unit leaves the quotient as it is and
/// scales the rest.
proof fn lemma_common_factor(amount: nat, unit: nat, factor: nat)
    requires
        unit > 0,
        factor > 0,
    ensures
        (amount * factor) / (unit * factor) == amount / unit,
        (amount * factor) % (unit * factor) == (amount % unit) * factor,
        remainder_of((amount * factor) % (unit * factor), unit * factor) == remainder_of(
            amount % unit,
            unit,
        ),
        round_half_even(amount * factor, unit * factor) == round_half_even(amount, unit),
{
    lemma_split(amount, unit);
    let floor = amount / unit;
    let rest = amount % unit;
    assert(0 <= rest * factor < unit * factor && amount * factor == floor * (unit * factor) + rest
        * factor && unit * factor != 0) by (nonlinear_arith)
        requires
            amount == floor * unit + rest,
            rest < unit,
            factor > 0,
    ;
    lemma_fundamental_div_mod_converse(
        (amount * factor) as int,
        (unit * factor) as int,
        floor as int,
        (rest * factor) as int,
    );
    assert((rest * factor == 0) == (rest == 0) && (2 * (rest * factor) < unit * factor) == (2 * rest
        < unit) && (2 * (rest * factor) == unit * factor) == (2 * rest == unit)) by (nonlinear_arith)
        requires
            factor > 0,
    ;
}

/// Comparing an amount with a whole number of units comes down to its whole
/// part and to whether anything is left over.
proof fn lemma_against_whole(amount: nat, unit: nat, count: nat)
    requires
        unit > 0,
    ensures
        (amount > count * unit) == (amount / unit > count || (amount / unit == count && amount
            % unit > 0)),
        (amount < count * unit) == (amount / unit < count),
{
    lemma_split(amount, unit);
    let floor = amount / unit;
    let rest = amount % unit;
    assert((floor * unit + rest > count * unit) == (floor > count || (floor == count && rest > 0))
        && (floor * unit + rest < count * unit) == (floor < count)) by (nonlinear_arith)
        requires
            rest < unit,
    ;
}

/// A whole number of units divides without a rest.
proof fn lemma_whole_units(count: nat, unit: nat)
    requires
        unit > 0,
    ensures
        (count * unit) / unit == count,
        (count * unit) % unit == 0,
{
    lemma_fundamental_div_mod_converse((count * unit) as int, unit as int, count as int, 0);
}

/// An amount of less than half a unit has no whole part and is its own
/// rest.
proof fn lemma_small_amount(amount: nat, unit: nat)
    requires
        2 * amount < unit,
    ensures
        amount / unit == 0,
        amount % unit == amount,
        remainder_of(amount % unit, unit) == if amount == 0 {
            Remainder::Zero
        } else {
            Remainder::BelowHalf
        },
{
    lemma_fundamental_div_mod_converse(amount as int, unit as int, 0, amount as int);
}

/// A state of charge in percent, held as the bit pattern of a binary64
/// number.
#[derive(Clone, Copy, Debug)]
pub struct Charge {
    pub bits: u64,
}

impl Charge {
    /// The sign bit is set.
    pub open spec fn negative(self) -> bool {
        self.bits >= 0x8000_0000_0000_0000
    }

    /// The eleven exponent bits.
    pub open spec fn exponent_field(self) -> nat {
        ((self.bits / 0x10_0000_0000_0000) % 0x800) as nat
    }

    /// The fifty-two stored significand bits.
    pub open spec fn fraction_field(self) -> nat {
        (self.bits % 0x10_0000_0000_0000) as nat
    }

    /// The pattern stands for no number at all.
    pub open spec fn is_nan(self) -> bool {
        self.exponent_field() == 0x7ff && self.fraction_field() != 0
    }

    /// The pattern stands for plus or minus infinity.
    pub open spec fn is_infinite(self) -> bool {
        self.exponent_field() == 0x7ff && self.fraction_field() == 0
    }

    /// The pattern stands for a real number.
    pub open spec fn is_finite(self) -> bool {
        self.exponent_field() != 0x7ff
    }

    /// The significand as an integer: the stored bits, with the implicit
    /// leading one for a normal number.
    pub open spec fn significand(self) -> nat {
        if self.exponent_field() == 0 {
            self.fraction_field()
        } else {
            self.fraction_field() + 0x10_0000_0000_0000
        }
    }

    /// How many times the significand is doubled to reach the magnitude in
    /// units of 2^-1074.
    pub open spec fn doublings(self) -> nat {
        if self.exponent_field() == 0 {
            0
        } else {
            (self.exponent_field() - 1) as nat
        }
    }

    /// The absolute value of a finite charge, in units of 2^-1074.
    pub open spec fn magnitude(self) -> nat {
        self.significand() * pow2(self.doublings())
    }

    /// The value of a finite charge, in units of 2^-1074.
    pub open spec fn scaled(self) -> int {
        if self.negative() {
            -(self.magnitude() as int)
        } else {
            self.magnitude() as int
        }
    }

    /// The charge is a number strictly greater than `percent`.
    pub open spec fn above(self, percent: nat) -> bool {
        !self.is_nan() && if self.is_infinite() {
            !self.negative()
        } else {
            self.scaled() > percent * one_percent()
        }
    }

    /// The charge is a number strictly less than `percent`.
    pub open spec fn below(self, percent: nat) -> bool {
        !self.is_nan() && if self.is_infinite() {
            self.negative()
        } else {
            self.scaled() < percent * one_percent()
        }
    }

    /// The absolute value of a finite charge rounded to a whole percent.
    pub open spec fn rounded_magnitude(self) -> nat {
        round_half_even(self.magnitude(), one_percent())
    }

    /// The charge as a fixed-point display with no decimal places shows it:
    /// the sign where the sign bit is set, then the rounded magnitude in
    /// decimal notation, or `inf`; `NaN` for no number.
    pub open spec fn rounded_text(self) -> Seq<char> {
        if self.is_nan() {
            "NaN"@
        } else {
            let sign = if self.negative() {
                "-"@
            } else {
                Seq::<char>::empty()
            };
            let amount = if self.is_infinite() {
                "inf"@
            } else {
                decimal_text(self.rounded_magnitude())
            };
            sign + amount
        }
    }

    /// Wraps the bit pattern of a binary64 percentage.
    pub fn from_bits(bits: u64) -> (charge: Charge)
        ensures
            charge.bits == bits,
    {
        Charge { bits }
    }

    /// The bit pattern that the charge was made from.
    pub fn to_bits(&self) -> (bits: u64)
        ensures
            bits == self.bits,
    {
        self.bits
    }

    /// Whether the sign bit is set.
    pub fn is_negative(&self) -> (r: bool)
        ensures
            r == self.negative(),
    {
        self.bits >= 0x8000_0000_0000_0000
    }

    /// Whether the charge is not a number.
    pub fn is_not_a_number(&self) -> (r: bool)
        ensures
            r == self.is_nan(),
    {
        self.exponent_bits() == 0x7ff && self.fraction_bits() != 0
    }

    /// Whether the charge is plus or minus infinity.
    pub fn is_unbounded(&self) -> (r: bool)
        ensures
            r == self.is_infinite(),
    {
        self.exponent_bits() == 0x7ff && self.fraction_bits() == 0
    }

    /// Whether the charge is a number strictly greater than `percent`.
    pub fn is_above(&self, percent: u64) -> (r: bool)
        ensures
            r == self.above(percent as nat),
    {
        if self.exponent_bits() == 0x7ff {
            return self.fraction_bits() == 0 && !self.is_negative();
        }
        proof {
            lemma_pow2_pos(1074);
            lemma_against_whole(self.magnitude(), one_percent(), percent as nat);
            assert(percent as nat * one_percent() >= 0) by (nonlinear_arith);
        }
        if self.is_negative() {
            return false;
        }
        match self.split() {
            Some((whole, rest)) => whole > percent || (whole == percent && rest
                != Remainder::Zero),
            None => {
                proof {
                    assert(percent as nat * one_percent() < 0x1_0000_0000_0000_0000
                        * one_percent()) by (nonlinear_arith)
                        requires
                            percent < 0x1_0000_0000_0000_0000,
                            one_percent() > 0,
                    ;
                }
                true
            },
        }
    }

    /// Whether the charge is a number strictly less than `percent`.
    pub fn is_below(&self, percent: u64) -> (r: bool)
        ensures
            r == self.below(percent as nat),
    {
        if self.exponent_bits() == 0x7ff {
            return self.fraction_bits() == 0 && self.is_negative();
        }
        proof {
            lemma_pow2_pos(1074);
            lemma_against_whole(self.magnitude(), one_percent(), percent as nat);
            lemma_against_whole(self.magnitude(), one_percent(), 0);
            assert(percent as nat * one_percent() >= 0) by (nonlinear_arith);
            assert((percent as nat * one_percent() > 0) == (percent > 0)) by (nonlinear_arith)
                requires
                    one_percent() > 0,
            ;
        }
        match self.split() {
            Some((whole, rest)) => {
                if self.is_negative() {
                    percent > 0 || whole > 0 || rest != Remainder::Zero
                } else {
                    whole < percent
                }
            },
            None => {
                proof {
                    assert(percent as nat * one_percent() < 0x1_0000_0000_0000_0000
                        * one_percent()) by (nonlinear_arith)
                        requires
                            percent < 0x1_0000_0000_0000_0000,
                            one_percent() > 0,
                    ;
                }
                self.is_negative()
            },
        }
    }

    /// The charge in the notation of a fixed-point display with no decimal
    /// places.
    pub fn format_rounded(&self) -> (text: String)
        ensures
            text@ == self.rounded_text(),
    {
        if self.is_not_a_number() {
            return String::from_str("NaN");
        }
        let mut text = if self.is_negative() {
            String::from_str("-")
        } else {
            String::new()
        };
        match self.rounded() {
            Some(number) => {
                let digits = number.to_text();
                text.append(digits.as_str());
            },
            None => {
                text.append("inf");
            },
        }
        text
    }

    /// The magnitude of a finite charge rounded to a whole percent, a tie
    /// going to the even neighbour. `None` for a charge that is not finite.
    pub fn rounded(&self) -> (number: Option<Decimal>)
        ensures
            match number {
                Some(decimal) => self.is_finite() && decimal@ == self.rounded_magnitude(),
                None => !self.is_finite(),
            },
    {
        if self.exponent_bits() == 0x7ff {
            return None;
        }
        let significand = self.significand_bits();
        let doublings = self.doubling_count();
        proof {
            lemma_pow2_pos(1074);
            lemma_pow2_pos(doublings as nat);
        }
        if doublings >= 1074 {
            let mut number = Decimal::from_u64(significand);
            let mut done: u64 = 1074;
            proof {
                lemma2_to64();
                assert(significand as nat * pow2(0) == significand) by (nonlinear_arith)
                    requires
                        pow2(0) == 1,
                ;
            }
            while done < doublings
                invariant
                    1074 <= done <= doublings,
                    number@ == significand as nat * pow2((done - 1074) as nat),
                decreases doublings - done,
            {
                proof {
                    lemma_pow2_unfold((done + 1 - 1074) as nat);
                    assert(2 * (significand as nat * pow2((done - 1074) as nat))
                        == significand as nat * pow2((done + 1 - 1074) as nat))
                        by (nonlinear_arith)
                        requires
                            pow2((done + 1 - 1074) as nat) == 2 * pow2((done - 1074) as nat),
                    ;
                }
                number = number.doubled();
                done = done + 1;
            }
            proof {
                let whole = significand as nat * pow2((doublings - 1074) as nat);
                lemma_pow2_adds((doublings - 1074) as nat, 1074);
                assert(self.magnitude() == whole * one_percent()) by (nonlinear_arith)
                    requires
                        self.magnitude() == significand as nat * pow2(doublings as nat),
                        pow2(doublings as nat) == pow2((doublings - 1074) as nat) * one_percent(),
                        whole == significand as nat * pow2((doublings - 1074) as nat),
                ;
                lemma_whole_units(whole, one_percent());
            }
            Some(number)
        } else {
            let width: u64 = 1074 - doublings;
            proof {
                lemma_pow2_adds(width as nat, doublings as nat);
                lemma_pow2_pos(width as nat);
                lemma_common_factor(
                    significand as nat,
                    pow2(width as nat),
                    pow2(doublings as nat),
                );
            }
            let (whole, rest) = halves(significand, width);
            let up = match rest {
                Remainder::AboveHalf => true,
                Remainder::Half => whole % 2 == 1,
                _ => false,
            };
            let nearest: u64 = if up {
                whole + 1
            } else {
                whole
            };
            Some(Decimal::from_u64(nearest))
        }
    }

    /// The whole percents in the magnitude of a finite charge, and where the
    /// rest lies relative to one half. `None` stands for a magnitude of 2^64
    /// percent or more.
    fn split(&self) -> (parts: Option<(u64, Remainder)>)
        requires
            self.is_finite(),
        ensures
            match parts {
                Some((whole, rest)) => whole == self.magnitude() / one_percent() && rest
                    == remainder_of(self.magnitude() % one_percent(), one_percent()),
                None => self.magnitude() >= 0x1_0000_0000_0000_0000 * one_percent(),
            },
    {
        let significand = self.significand_bits();
        let doublings = self.doubling_count();
        proof {
            lemma2_to64();
            lemma_pow2_pos(doublings as nat);
            lemma_pow2_pos(1074);
        }
        if doublings >= 1074 {
            let extra: u64 = doublings - 1074;
            proof {
                lemma_pow2_adds(extra as nat, 1074);
                lemma_pow2_pos(extra as nat);
                lemma_whole_units(significand as nat * pow2(extra as nat), one_percent());
                assert(self.magnitude() == (significand as nat * pow2(extra as nat))
                    * one_percent()) by (nonlinear_arith)
                    requires
                        self.magnitude() == significand as nat * pow2(doublings as nat),
                        pow2(doublings as nat) == pow2(extra as nat) * one_percent(),
                ;
            }
            if extra >= 12 {
                proof {
                    if extra > 12 {
                        lemma_pow2_strictly_increases(12, extra as nat);
                    }
                    assert(significand as nat * pow2(extra as nat) >= 0x1_0000_0000_0000_0000)
                        by (nonlinear_arith)
                        requires
                            significand >= 0x10_0000_0000_0000,
                            pow2(extra as nat) >= 0x1000,
                    ;
                    assert((significand as nat * pow2(extra as nat)) * one_percent()
                        >= 0x1_0000_0000_0000_0000 * one_percent()) by (nonlinear_arith)
                        requires
                            significand as nat * pow2(extra as nat) >= 0x1_0000_0000_0000_0000,
                    ;
                }
                None
            } else {
                proof {
                    if extra < 11 {
                        lemma_pow2_strictly_increases(extra as nat, 11);
                    }
                    assert(significand * pow2(extra as nat) <= u64::MAX) by (nonlinear_arith)
                        requires
                            significand < 0x20_0000_0000_0000,
                            pow2(extra as nat) <= 0x800,
                    ;
                    lemma_u64_shl_is_mul(significand, extra);
                }
                Some((significand << extra, Remainder::Zero))
            }
        } else {
            let width: u64 = 1074 - doublings;
            proof {
                lemma_pow2_adds(width as nat, doublings as nat);
                lemma_pow2_pos(width as nat);
                lemma_common_factor(
                    significand as nat,
                    pow2(width as nat),
                    pow2(doublings as nat),
                );
            }
            Some(halves(significand, width))
        }
    }

    /// The significand with its implicit leading bit.
    fn significand_bits(&self) -> (significand: u64)
        ensures
            significand == self.significand(),
            significand < 0x20_0000_0000_0000,
            self.exponent_field() != 0 ==> significand >= 0x10_0000_0000_0000,
    {
        if self.exponent_bits() == 0 {
            self.fraction_bits()
        } else {
            self.fraction_bits() + 0x10_0000_0000_0000
        }
    }

    /// The power of two by which the significand is scaled, counted from
    /// 2^-1074.
    fn doubling_count(&self) -> (doublings: u64)
        ensures
            doublings == self.doublings(),
            doublings <= 0x7fe,
            doublings > 0 ==> self.exponent_field() != 0,
    {
        let exponent = self.exponent_bits();
        if exponent == 0 {
            0
        } else {
            exponent - 1
        }
    }

    fn exponent_bits(&self) -> (e: u64)
        ensures
            e == self.exponent_field(),
            e < 0x800,
    {
        (self.bits / 0x10_0000_0000_0000) % 0x800
    }

    fn fraction_bits(&self) -> (f: u64)
        ensures
            f == self.fraction_field(),
            f < 0x10_0000_0000_0000,
    {
        self.bits % 0x10_0000_0000_0000
    }
}

/// Splits `amount / 2^width` into its whole part and the position of the rest
/// relative to one half.
fn halves(amount: u64, width: u64) -> (parts: (u64, Remainder))
    requires
        amount < 0x20_0000_0000_0000,
        width >= 1,
    ensures
        parts.0 == amount as nat / pow2(width as nat),
        parts.1 == remainder_of(amount as nat % pow2(width as nat), pow2(width as nat)),
        parts.0 <= amount,
{
    proof {
        lemma2_to64();
        lemma2_to64_rest();
    }
    if width >= 64 {
        proof {
            if width > 64 {
                lemma_pow2_strictly_increases(64, width as nat);
            }
            lemma_small_amount(amount as nat, pow2(width as nat));
        }
        if amount == 0 {
            (0, Remainder::Zero)
        } else {
            (0, Remainder::BelowHalf)
        }
    } else {
        proof {
            lemma_pow2_strictly_increases(width as nat, 64);
            assert(1 * pow2(width as nat) == pow2(width as nat)) by (nonlinear_arith);
            lemma_u64_shl_is_mul(1, width);
        }
        let unit: u64 = 1u64 << width;
        let whole: u64 = amount / unit;
        let rest: u64 = amount % unit;
        let double_rest: u64 = rest + rest;
        if rest == 0 {
            (whole, Remainder::Zero)
        } else if double_rest < unit {
            (whole, Remainder::BelowHalf)
        } else if double_rest == unit {
            (whole, Remainder::Half)
        } else {
            (whole, Remainder::AboveHalf)
        }
    }
}

} // verus!
