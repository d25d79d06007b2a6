//! Decimal text.

use vstd::prelude::*;
use vstd::string::StringExecFns;

use crate::decimal::{lemma_pow10_grows, pow10, Decimal, DecimalView, MAX_SCALE};
use crate::fixed::{fixed_decimal, Price};

verus! {

/// The character of a digit below ten.
pub open spec fn digit_char(d: int) -> char {
    seq!['0', '1', '2', '3', '4', '5', '6', '7', '8', '9'][d]
}

/// A number in decimal, without leading zeros.
pub open spec fn number_text(n: nat) -> Seq<char>
    decreases n,
{
    if n < 10 {
        seq![digit_char(n as int)]
    } else {
        number_text(n / 10).push(digit_char((n % 10) as int))
    }
}

/// The last `width` digits of a number in decimal, with leading zeros.
pub open spec fn padded_text(n: nat, width: nat) -> Seq<char>
    decreases width,
{
    if width == 0 {
        Seq::empty()
    } else {
        padded_text(n / 10, (width - 1) as nat).push(digit_char((n % 10) as int))
    }
}

/// A decimal with all the digits of its scale.
pub open spec fn decimal_text(d: DecimalView) -> Seq<char> {
    let magnitude = d.magnitude().mantissa as nat;
    let unit = pow10(d.scale) as nat;
    let sign = if d.mantissa < 0 {
        seq!['-']
    } else {
        Seq::empty()
    };
    let whole = sign + number_text(magnitude / unit);
    if d.scale == 0 {
        whole
    } else {
        whole + seq!['.'] + padded_text(magnitude % unit, d.scale)
    }
}

/// A price with the digits that its precision shows.
pub open spec fn price_text(price: Price) -> Seq<char> {
    decimal_text(fixed_decimal(price.raw, price.precision))
}

/// The text of one digit.
fn digit(d: u128) -> (s: &'static str)
    requires
        d < 10,
    ensures
        s@ == seq![digit_char(d as int)],
{
    proof {
        reveal_strlit("0");
        reveal_strlit("1");
        reveal_strlit("2");
        reveal_strlit("3");
        reveal_strlit("4");
        reveal_strlit("5");
        reveal_strlit("6");
        reveal_strlit("7");
        reveal_strlit("8");
        reveal_strlit("9");
    }
    match d {
        0 => "0",
        1 => "1",
        2 => "2",
        3 => "3",
        4 => "4",
        5 => "5",
        6 => "6",
        7 => "7",
        8 => "8",
        _ => "9",
    }
}

/// Appends a number in decimal.
pub fn append_number(text: &mut String, n: u128)
    ensures
        final(text)@ == old(text)@ + number_text(n as nat),
    decreases n,
{
    if n >= 10 {
        append_number(text, n / 10);
    }
    text.append(digit(n % 10));
}

/// Appends the last `width` digits of a number in decimal.
pub fn append_padded(text: &mut String, n: u128, width: u32)
    ensures
        final(text)@ == old(text)@ + padded_text(n as nat, width as nat),
    decreases width,
{
    if width > 0 {
        append_padded(text, n / 10, width - 1);
        text.append(digit(n % 10));
    }
}

/// The largest power of ten that a scale names.
proof fn lemma_largest_unit()
    ensures
        pow10(28) == 10_000_000_000_000_000_000_000_000_000,
{
    assert(pow10(14) == 100_000_000_000_000) by {
        reveal_with_fuel(pow10, 15);
    }
    reveal_with_fuel(pow10, 15);
}

/// Appends a decimal with all the digits of its scale.
pub fn append_decimal(text: &mut String, d: &Decimal)
    ensures
        final(text)@ == old(text)@ + decimal_text(d@),
{
    let ghost before = text@;
    proof {
        use_type_invariant(d);
        lemma_largest_unit();
        reveal_strlit("-");
        reveal_strlit(".");
    }
    let mantissa: i128 = d.mantissa();
    let magnitude: u128 = if mantissa < 0 { (-mantissa) as u128 } else { mantissa as u128 };
    let scale: u32 = d.scale();
    let mut unit: u128 = 1;
    let mut i: u32 = 0;
    while i < scale
        invariant
            i <= scale <= MAX_SCALE,
            unit == pow10(i as nat),
            pow10(28) == 10_000_000_000_000_000_000_000_000_000,
        decreases scale - i,
    {
        proof {
            lemma_pow10_grows((i + 1) as nat, 28);
        }
        unit = unit * 10;
        i += 1;
    }
    proof {
        lemma_pow10_grows(scale as nat, 28);
    }
    if mantissa < 0 {
        text.append("-");
    }
    append_number(text, magnitude / unit);
    if scale > 0 {
        text.append(".");
        append_padded(text, magnitude % unit, scale);
    }
    assert(text@ == before + decimal_text(d@));
}

/// Appends a price with the digits that its precision shows.
pub fn append_price(text: &mut String, price: &Price)
    ensures
        final(text)@ == old(text)@ + price_text(*price),
{
    append_decimal(text, &price.as_decimal());
}

} // verus!
