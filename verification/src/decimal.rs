//! Natural numbers of any size in decimal notation.
//!
//! A charge far outside the range of a machine integer still has to be shown
//! digit by digit. [`Decimal`] holds such a number as its decimal digits and
//! offers the two operations that showing a binary number needs: starting
//! from a machine integer, and doubling.

use vstd::prelude::*;
use vstd::string::*;

verus! {

/// Ten to the power of `exponent`.
spec fn pow10(exponent: nat) -> nat
    decreases exponent,
{
    if exponent == 0 {
        1
    } else {
        10 * pow10((exponent - 1) as nat)
    }
}

/// The number that `digits` spell, least significant digit first.
spec fn digits_value(digits: Seq<u8>) -> nat
    decreases digits.len(),
{
    if digits.len() == 0 {
        0
    } else {
        digits[0] as nat + 10 * digits_value(digits.skip(1))
    }
}

/// Every entry is a decimal digit, there is at least one, and the most
/// significant one is zero only where it is the only one.
spec fn canonical(digits: Seq<u8>) -> bool {
    &&& digits.len() >= 1
    &&& forall|i: int| 0 <= i < digits.len() ==> digits[i] < 10
    &&& (digits.len() == 1 || digits.last() != 0)
}

/// The character for one decimal digit.
pub open spec fn digit_char(digit: nat) -> char {
    if digit == 0 {
        '0'
    } else if digit == 1 {
        '1'
    } else if digit == 2 {
        '2'
    } else if digit == 3 {
        '3'
    } else if digit == 4 {
        '4'
    } else if digit == 5 {
        '5'
    } else if digit == 6 {
        '6'
    } else if digit == 7 {
        '7'
    } else if digit == 8 {
        '8'
    } else {
        '9'
    }
}

/// The usual decimal notation of `number`: most significant digit first, no
/// leading zero, `0` for zero.
pub open spec fn decimal_text(number: nat) -> Seq<char>
    decreases number,
{
    if number < 10 {
        seq![digit_char(number)]
    } else {
        decimal_text(number / 10).push(digit_char(number % 10))
    }
}

/// The characters of `digits`, most significant digit first.
spec fn digits_text(digits: Seq<u8>) -> Seq<char> {
    Seq::new(digits.len(), |i: int| digit_char(digits[digits.len() - 1 - i] as nat))
}

/// Appending a digit on the most significant side adds it at its power of
/// ten.
proof fn lemma_value_push(digits: Seq<u8>, digit: u8)
    ensures
        digits_value(digits.push(digit)) == digits_value(digits) + digit as nat * pow10(
            digits.len(),
        ),
    decreases digits.len(),
{
    let longer = digits.push(digit);
    if digits.len() == 0 {
        assert(longer.skip(1) =~= Seq::<u8>::empty());
        assert(digits_value(longer.skip(1)) == 0);
        assert(digit as nat * pow10(0) == digit as nat) by (nonlinear_arith)
            requires
                pow10(0) == 1,
        ;
    } else {
        assert(longer.skip(1) =~= digits.skip(1).push(digit));
        lemma_value_push(digits.skip(1), digit);
        assert(10 * (digit as nat * pow10((digits.len() - 1) as nat)) == digit as nat * pow10(
            digits.len(),
        )) by (nonlinear_arith)
            requires
                pow10(digits.len()) == 10 * pow10((digits.len() - 1) as nat),
        ;
        assert(digits_value(longer) == longer[0] as nat + 10 * digits_value(longer.skip(1)));
    }
}

/// Canonical digits of more than one place spell a number of at least ten,
/// and any canonical digits but `0` spell a positive number.
proof fn lemma_canonical_size(digits: Seq<u8>)
    requires
        canonical(digits),
    ensures
        digits.len() > 1 ==> digits_value(digits) >= 10,
        digits.last() != 0 ==> digits_value(digits) >= 1,
    decreases digits.len(),
{
    if digits.len() > 1 {
        let upper = digits.skip(1);
        assert(upper.last() == digits.last());
        assert(canonical(upper));
        lemma_canonical_size(upper);
    } else {
        assert(digits.skip(1) =~= Seq::<u8>::empty());
    }
}

/// Canonical digits read from the most significant end are the decimal
/// notation of the number they spell.
proof fn lemma_canonical_text(digits: Seq<u8>)
    requires
        canonical(digits),
    ensures
        digits_text(digits) == decimal_text(digits_value(digits)),
    decreases digits.len(),
{
    let number = digits_value(digits);
    let upper = digits.skip(1);
    assert(number == digits[0] as nat + 10 * digits_value(upper));
    if digits.len() == 1 {
        assert(upper =~= Seq::<u8>::empty());
        assert(digits_value(upper) == 0);
        assert(number == digits[0] as nat);
        assert(decimal_text(number) == seq![digit_char(number)]);
        assert(digits_text(digits) =~= seq![digit_char(digits[0] as nat)]);
    } else {
        assert(upper.last() == digits.last());
        assert(canonical(upper));
        lemma_canonical_size(upper);
        lemma_canonical_text(upper);
        assert(number >= 10);
        assert(number / 10 == digits_value(upper) && number % 10 == digits[0] as nat);
        assert(decimal_text(number) == decimal_text(number / 10).push(digit_char(number % 10)));
        assert(digits_text(digits) =~= digits_text(upper).push(digit_char(digits[0] as nat)));
    }
}

/// A natural number held as its canonical decimal digits.
pub struct Decimal {
    digits: Vec<u8>,
}

impl View for Decimal {
    type V = nat;

    closed spec fn view(&self) -> nat {
        digits_value(self.digits@)
    }
}

impl Decimal {
    #[verifier::type_invariant]
    spec fn well_formed(self) -> bool {
        canonical(self.digits@)
    }

    /// The decimal digits of a machine integer.
    pub fn from_u64(number: u64) -> (decimal: Decimal)
        ensures
            decimal@ == number,
    {
        let mut digits: Vec<u8> = Vec::new();
        let mut rest: u64 = number;
        digits.push((rest % 10) as u8);
        rest = rest / 10;
        proof {
            assert(digits@.skip(1) =~= Seq::<u8>::empty());
            assert(digits_value(digits@.skip(1)) == 0);
            assert(digits_value(digits@) == number % 10);
            assert(pow10(0) == 1);
            assert(pow10(1) == 10);
            assert(rest * pow10(digits@.len()) == 10 * rest) by (nonlinear_arith)
                requires
                    pow10(digits@.len()) == 10,
            ;
        }
        while rest > 0
            invariant
                digits@.len() >= 1,
                forall|i: int| 0 <= i < digits@.len() ==> digits@[i] < 10,
                digits_value(digits@) + rest * pow10(digits@.len()) == number,
                rest == 0 ==> canonical(digits@),
            decreases rest,
        {
            let digit: u8 = (rest % 10) as u8;
            proof {
                lemma_value_push(digits@, digit);
                assert(digit as nat * pow10(digits@.len()) + (rest / 10) * pow10(digits@.len() + 1)
                    == rest * pow10(digits@.len())) by (nonlinear_arith)
                    requires
                        pow10(digits@.len() + 1) == 10 * pow10(digits@.len()),
                        rest == 10 * (rest / 10) + digit,
                ;
            }
            digits.push(digit);
            rest = rest / 10;
        }
        Decimal { digits }
    }

    /// Twice the number.
    pub fn doubled(&self) -> (decimal: Decimal)
        ensures
            decimal@ == 2 * self@,
    {
        proof {
            use_type_invariant(self);
        }
        let ghost source = self.digits@;
        let mut digits: Vec<u8> = Vec::new();
        let mut carry: u8 = 0;
        let mut place: usize = 0;
        while place < self.digits.len()
            invariant
                source == self.digits@,
                canonical(source),
                place <= source.len(),
                digits@.len() == place,
                carry <= 1,
                forall|i: int| 0 <= i < digits@.len() ==> digits@[i] < 10,
                digits_value(digits@) + carry * pow10(place as nat) == 2 * digits_value(
                    source.take(place as int),
                ),
                place > 0 && carry == 0 && source[place - 1] != 0 ==> digits@.last() != 0,
            decreases source.len() - place,
        {
            let twice: u8 = 2 * self.digits[place] + carry;
            let digit: u8 = twice % 10;
            proof {
                let seen = source.take(place as int);
                assert(source.take(place + 1) =~= seen.push(source[place as int]));
                lemma_value_push(seen, source[place as int]);
                lemma_value_push(digits@, digit);
                assert(digit as nat * pow10(place as nat) + (twice / 10) * pow10(
                    (place + 1) as nat,
                ) == carry * pow10(place as nat) + 2 * (source[place as int] as nat * pow10(
                    place as nat,
                ))) by (nonlinear_arith)
                    requires
                        pow10((place + 1) as nat) == 10 * pow10(place as nat),
                        twice == 10 * (twice / 10) + digit,
                        twice == 2 * source[place as int] + carry,
                ;
            }
            digits.push(digit);
            carry = twice / 10;
            place = place + 1;
        }
        proof {
            assert(source.take(place as int) =~= source);
            lemma_value_push(digits@, carry);
        }
        if carry > 0 {
            digits.push(carry);
        }
        Decimal { digits }
    }

    /// The number in decimal notation.
    pub fn to_text(&self) -> (text: String)
        ensures
            text@ == decimal_text(self@),
    {
        proof {
            use_type_invariant(self);
            lemma_canonical_text(self.digits@);
        }
        let ghost source = self.digits@;
        let mut text = String::new();
        let mut place: usize = self.digits.len();
        while place > 0
            invariant
                source == self.digits@,
                canonical(source),
                place <= source.len(),
                text@ == digits_text(source).take(source.len() - place),
            decreases place,
        {
            place = place - 1;
            let ghost before = text@;
            text.append(digit_str(self.digits[place]));
            assert(text@ =~= digits_text(source).take(source.len() - place));
        }
        assert(text@ =~= digits_text(source));
        text
    }
}

/// The one-character text of a decimal digit.
fn digit_str(digit: u8) -> (text: &'static str)
    requires
        digit < 10,
    ensures
        text@ == seq![digit_char(digit as nat)],
{
    proof {
        reveal_strlit("0");
        reveal_strlit("1");
        reveal_strlit("2");
        reveal_strlit("3");
        reveal_strlit("4");
        reveal_strlit("5");
        reveal_strlit("6");
        reveal_strlit("7");
        reveal_strlit("8");
        reveal_strlit("9");
    }
    let text = match digit {
        0 => "0",
        1 => "1",
        2 => "2",
        3 => "3",
        4 => "4",
        5 => "5",
        6 => "6",
        7 => "7",
        8 => "8",
        _ => "9",
    };
    assert(text@ =~= seq![digit_char(digit as nat)]);
    text
}

} // verus!
