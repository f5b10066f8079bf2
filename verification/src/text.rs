//! Decimal text: digits of numbers, and the count of lines.

use vstd::prelude::*;
use crate::fixed::Fixed;
use crate::fixed::SCALE;
use crate::vec::Vec3;

verus! {

/// The blank between two numbers.
pub const SPACE: u8 = 32;

/// The end of a line.
pub const NEWLINE: u8 = 10;

/// The digit zero.
pub const DIGIT_ZERO: u8 = 48;

/// The minus sign.
pub const MINUS: u8 = 45;

/// The decimal point.
pub const POINT: u8 = 46;

/// The comma between two components.
pub const COMMA: u8 = 44;

/// The bracket that opens a vector.
pub const OPEN: u8 = 40;

/// The bracket that closes a vector.
pub const CLOSE: u8 = 41;

/// Number of digits after the decimal point of a number.
pub const PLACES: u32 = 9;

/// The decimal digits of `n`, most significant first, without leading zeros.
pub open spec fn decimal_digits(n: nat) -> Seq<u8>
    decreases n,
{
    if n < 10 {
        seq![(DIGIT_ZERO + n) as u8]
    } else {
        decimal_digits(n / 10).push((DIGIT_ZERO + n % 10) as u8)
    }
}

/// The number that a sequence of decimal digits stands for.
pub open spec fn decimal_value(digits: Seq<u8>) -> nat
    decreases digits.len(),
{
    if digits.len() == 0 {
        0
    } else {
        (decimal_value(digits.drop_last()) * 10 + (digits.last() - DIGIT_ZERO)) as nat
    }
}

/// The last `places` decimal digits of `f`, with zeros in front where `f`
/// has fewer.
pub open spec fn fraction_digits(f: nat, places: nat) -> Seq<u8>
    decreases places,
{
    if places == 0 {
        Seq::empty()
    } else {
        fraction_digits(f / 10, (places - 1) as nat).push((DIGIT_ZERO + f % 10) as u8)
    }
}

/// Magnitude of the raw value of a number.
pub open spec fn magnitude(x: Fixed) -> nat {
    if x.raw < 0 {
        (-x.raw) as nat
    } else {
        x.raw as nat
    }
}

/// The decimal numeral of a number: a minus sign where it is negative, the
/// digits of its whole part, a point, and nine digits of its fraction.
pub open spec fn fixed_text(x: Fixed) -> Seq<u8> {
    let sign = if x.raw < 0 {
        seq![MINUS]
    } else {
        Seq::empty()
    };
    sign + decimal_digits(magnitude(x) / (SCALE as nat)) + seq![POINT] + fraction_digits(
        magnitude(x) % (SCALE as nat),
        PLACES as nat,
    )
}

/// The text of a vector: its components in brackets, set apart by a comma
/// and a blank.
pub open spec fn vec3_text(v: Vec3) -> Seq<u8> {
    seq![OPEN] + fixed_text(v.x) + seq![COMMA, SPACE] + fixed_text(v.y) + seq![COMMA, SPACE]
        + fixed_text(v.z) + seq![CLOSE]
}

/// Number of lines in a text: the count of its newline bytes.
pub open spec fn line_count(text: Seq<u8>) -> nat
    decreases text.len(),
{
    if text.len() == 0 {
        0
    } else if text.last() == NEWLINE {
        line_count(text.drop_last()) + 1
    } else {
        line_count(text.drop_last())
    }
}

/// Appends the decimal digits of `n`.
pub fn push_decimal(out: &mut Vec<u8>, n: u64)
    ensures
        final(out)@ == old(out)@ + decimal_digits(n as nat),
    decreases n,
{
    if n >= 10 {
        push_decimal(out, n / 10);
    }
    out.push(DIGIT_ZERO + (n % 10) as u8);
}

/// Appends the last `places` decimal digits of `f`.
pub fn push_fraction(out: &mut Vec<u8>, f: u64, places: u32)
    ensures
        final(out)@ == old(out)@ + fraction_digits(f as nat, places as nat),
    decreases places,
{
    if places > 0 {
        push_fraction(out, f / 10, places - 1);
        out.push(DIGIT_ZERO + (f % 10) as u8);
    }
}

/// Appends the decimal numeral of a number.
pub fn push_fixed(out: &mut Vec<u8>, x: Fixed)
    ensures
        final(out)@ == old(out)@ + fixed_text(x),
{
    let m: u64 = if x.raw < 0 {
        out.push(MINUS);
        (-(x.raw as i128)) as u64
    } else {
        x.raw as u64
    };
    push_decimal(out, m / 1_000_000_000);
    out.push(POINT);
    push_fraction(out, m % 1_000_000_000, PLACES);
}

impl Vec3 {
    /// The vector as text, such as `(1.000000000, -0.500000000, 0.000000000)`.
    pub fn to_text(&self) -> (r: Vec<u8>)
        ensures
            r@ == vec3_text(*self),
    {
        let mut out: Vec<u8> = Vec::new();
        out.push(OPEN);
        push_fixed(&mut out, self.x);
        out.push(COMMA);
        out.push(SPACE);
        push_fixed(&mut out, self.y);
        out.push(COMMA);
        out.push(SPACE);
        push_fixed(&mut out, self.z);
        out.push(CLOSE);
        out
    }
}

/// The digits of a number are decimal digits, at least one, with no zero
/// in front of a number above nine, and they stand for the number.
pub proof fn lemma_decimal_digits(n: nat)
    ensures
        decimal_digits(n).len() >= 1,
        forall|i: int|
            0 <= i < decimal_digits(n).len() ==> DIGIT_ZERO <= #[trigger] decimal_digits(n)[i]
                <= DIGIT_ZERO + 9,
        n >= 10 ==> decimal_digits(n)[0] != DIGIT_ZERO,
        decimal_value(decimal_digits(n)) == n,
    decreases n,
{
    if n < 10 {
        let d = decimal_digits(n);
        assert(d.drop_last().len() == 0);
        assert(decimal_value(d.drop_last()) == 0);
        assert(d.last() == DIGIT_ZERO + n);
    } else {
        lemma_decimal_digits(n / 10);
        let d = decimal_digits(n);
        let init = decimal_digits(n / 10);
        assert(d.drop_last() == init);
        assert(d.last() == DIGIT_ZERO + n % 10);
        if n / 10 < 10 {
            assert(init[0] == DIGIT_ZERO + n / 10);
        }
        assert(d[0] == init[0]);
    }
}

/// The lines of two texts add up when the texts are joined.
pub proof fn lemma_line_count_concat(a: Seq<u8>, b: Seq<u8>)
    ensures
        line_count(a + b) == line_count(a) + line_count(b),
    decreases b.len(),
{
    if b.len() == 0 {
        assert(a + b == a);
    } else {
        lemma_line_count_concat(a, b.drop_last());
        assert((a + b).drop_last() == a + b.drop_last());
        assert((a + b).last() == b.last());
    }
}

/// A text without a newline byte has no line.
pub proof fn lemma_line_count_none(text: Seq<u8>)
    requires
        forall|i: int| 0 <= i < text.len() ==> text[i] != NEWLINE,
    ensures
        line_count(text) == 0,
    decreases text.len(),
{
    if text.len() > 0 {
        lemma_line_count_none(text.drop_last());
    }
}

} // verus!
