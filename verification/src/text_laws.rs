//! What the texts say.

use vstd::prelude::*;

use crate::chain::{optional_price_text, slice_text, OptionChainSlice};
use crate::decimal::{lemma_pow10_grows, pow10, DecimalView};
use crate::fixed::{fixed_decimal, law_fixed_value, shows_all, Price};
use crate::greeks::{greeks_text, GreeksConvention, GreeksText, OptionGreeks};
use crate::identifiers::{InstrumentId, OptionSeriesId};
use crate::text::{decimal_text, number_text, padded_text, price_text};

verus! {

/// Whether a character is a decimal digit.
pub open spec fn is_digit(c: char) -> bool {
    '0' <= c <= '9'
}

/// Whether a text is made of digits alone.
pub open spec fn all_digits(text: Seq<char>) -> bool {
    forall|i: int| 0 <= i < text.len() ==> is_digit(#[trigger] text[i])
}

/// The number that a text of digits stands for.
pub open spec fn number_in(text: Seq<char>) -> int
    decreases text.len(),
{
    if text.len() == 0 {
        0
    } else {
        10 * number_in(text.drop_last()) + (text.last() as u32 - '0' as u32)
    }
}

/// A number is written with digits alone, none of them a leading zero, and reads back as it was.
pub proof fn law_number_reads_back(n: nat)
    ensures
        all_digits(number_text(n)),
        number_text(n).len() > 0,
        number_in(number_text(n)) == n,
        n > 0 ==> number_text(n)[0] != '0',
        n == 0 ==> number_text(n) == seq!['0'],
    decreases n,
{
    let text = number_text(n);
    if n < 10 {
        assert(text.drop_last() =~= Seq::empty());
        assert(number_in(text.drop_last()) == 0);
    } else {
        law_number_reads_back(n / 10);
        assert(text.drop_last() =~= number_text(n / 10));
        assert(text[0] == number_text(n / 10)[0]);
        assert(n == 10 * (n / 10) + n % 10);
    }
}

/// The last digits of a number are as many as are asked for, and read back as what they are of it.
pub proof fn law_padded_number_reads_back(n: nat, width: nat)
    ensures
        all_digits(padded_text(n, width)),
        padded_text(n, width).len() == width,
        n < pow10(width) ==> number_in(padded_text(n, width)) == n,
    decreases width,
{
    let text = padded_text(n, width);
    if width > 0 {
        law_padded_number_reads_back(n / 10, (width - 1) as nat);
        assert(text.drop_last() =~= padded_text(n / 10, (width - 1) as nat));
        assert(n == 10 * (n / 10) + n % 10);
    }
}

/// A decimal is written as a sign where it is negative, its whole part, and where it has a scale, a
/// point and as many digits as that. The digits without the point read back as its mantissa.
pub proof fn law_decimal_reads_back(d: DecimalView) -> (parts: (Seq<char>, Seq<char>))
    ensures
        decimal_text(d) == (if d.mantissa < 0 {
            seq!['-']
        } else {
            Seq::empty()
        }) + parts.0 + (if d.scale > 0 {
            seq!['.']
        } else {
            Seq::empty()
        }) + parts.1,
        all_digits(parts.0),
        all_digits(parts.1),
        parts.0.len() > 0,
        parts.1.len() == d.scale,
        number_in(parts.0) * pow10(d.scale) + number_in(parts.1) == if d.mantissa < 0 {
            -d.mantissa
        } else {
            d.mantissa
        },
        number_in(parts.0) > 0 ==> parts.0[0] != '0',
        number_in(parts.0) == 0 ==> parts.0 == seq!['0'],
{
    let magnitude = d.magnitude().mantissa as nat;
    let unit = pow10(d.scale) as nat;
    lemma_pow10_grows(0, d.scale);
    let whole = number_text(magnitude / unit);
    let rest = padded_text(magnitude % unit, d.scale);
    law_number_reads_back(magnitude / unit);
    vstd::arithmetic::div_mod::lemma_fundamental_div_mod(magnitude as int, unit as int);
    vstd::arithmetic::div_mod::lemma_mod_bound(magnitude as int, unit as int);
    law_padded_number_reads_back(magnitude % unit, d.scale);
    assert(unit * (magnitude / unit) == (magnitude / unit) * unit) by (nonlinear_arith);
    let sign: Seq<char> = if d.mantissa < 0 {
        seq!['-']
    } else {
        Seq::empty()
    };
    if d.scale == 0 {
        assert(rest =~= Seq::empty());
        assert(sign + whole + Seq::<char>::empty() + rest =~= sign + whole);
    }
    (whole, rest)
}

/// A price is written with as many digits behind the point as its precision says, at most nine. Where
/// it has no more digits than that, what is written is the price, to the billionth.
pub proof fn law_price_reads_back(price: Price) -> (parts: (Seq<char>, Seq<char>))
    ensures
        all_digits(parts.0),
        all_digits(parts.1),
        parts.0.len() > 0,
        parts.1.len() == if price.precision < 9 {
            price.precision as int
        } else {
            9
        },
        shows_all(price.raw, price.precision) ==> ({
            let digits = number_in(parts.0) * pow10(parts.1.len()) + number_in(parts.1);
            &&& digits * pow10((9 - parts.1.len()) as nat) == if price.raw < 0 {
                -price.raw
            } else {
                price.raw as int
            }
            &&& price_text(price) == (if price.raw < 0 {
                seq!['-']
            } else {
                Seq::empty()
            }) + parts.0 + (if parts.1.len() > 0 {
                seq!['.']
            } else {
                Seq::empty()
            }) + parts.1
        }),
{
    let d = fixed_decimal(price.raw, price.precision);
    law_fixed_value(price.raw, price.precision);
    let parts = law_decimal_reads_back(d);
    let unit = pow10((9 - d.scale) as nat);
    lemma_pow10_grows(0, (9 - d.scale) as nat);
    if shows_all(price.raw, price.precision) {
        assert((-d.mantissa) * unit == -(d.mantissa * unit)) by (nonlinear_arith);
        assert(d.mantissa < 0 <==> price.raw < 0) by (nonlinear_arith)
            requires
                d.mantissa * unit == price.raw,
                unit >= 1,
        ;
    }
    parts
}

/// The text of an instrument is its symbol, then a point, then its venue.
pub proof fn law_instrument_text(id: InstrumentId)
    ensures
        id.text().len() == id.symbol@.len() + 1 + id.venue@.len(),
        id.text().take(id.symbol@.len() as int) == id.symbol@,
        id.text()[id.symbol@.len() as int] == '.',
        id.text().skip(id.symbol@.len() as int + 1) == id.venue@,
{
    assert(id.text().take(id.symbol@.len() as int) =~= id.symbol@);
    assert(id.text().skip(id.symbol@.len() as int + 1) =~= id.venue@);
}

/// The text of a series is its venue, underlying, settlement currency and expiration, with a colon
/// between each two. The expiration reads back as its nanoseconds.
pub proof fn law_series_text(id: OptionSeriesId) -> (expiration: Seq<char>)
    ensures
        id.text() == id.venue@ + seq![':'] + id.underlying@ + seq![':'] + id.settlement_currency@
            + seq![':'] + expiration,
        all_digits(expiration),
        number_in(expiration) == id.expiration.nanos,
{
    law_number_reads_back(id.expiration.nanos as nat);
    number_text(id.expiration.nanos as nat)
}

/// Two series whose parts have no colons and that have the same text are the same.
pub proof fn law_text_names_the_series(first: OptionSeriesId, second: OptionSeriesId)
    requires
        first.text() == second.text(),
        !first.venue@.contains(':') && !second.venue@.contains(':'),
        !first.underlying@.contains(':') && !second.underlying@.contains(':'),
        !first.settlement_currency@.contains(':') && !second.settlement_currency@.contains(':'),
    ensures
        first.venue@ == second.venue@,
        first.underlying@ == second.underlying@,
        first.settlement_currency@ == second.settlement_currency@,
        first.expiration.nanos == second.expiration.nanos,
{
    let ends1 = law_series_text(first);
    let ends2 = law_series_text(second);
    let rest1 = first.settlement_currency@ + seq![':'] + ends1;
    let rest2 = second.settlement_currency@ + seq![':'] + ends2;
    let tail1 = first.underlying@ + seq![':'] + rest1;
    let tail2 = second.underlying@ + seq![':'] + rest2;
    assert(first.text() =~= first.venue@ + seq![':'] + tail1);
    assert(second.text() =~= second.venue@ + seq![':'] + tail2);
    lemma_split_at_colon(first.venue@, tail1, second.venue@, tail2);
    lemma_split_at_colon(first.underlying@, rest1, second.underlying@, rest2);
    lemma_split_at_colon(first.settlement_currency@, ends1, second.settlement_currency@, ends2);
}

/// What stands before the first colon, and what stands behind it, is determined by the text.
proof fn lemma_split_at_colon(
    first: Seq<char>,
    rest1: Seq<char>,
    second: Seq<char>,
    rest2: Seq<char>,
)
    requires
        first + seq![':'] + rest1 == second + seq![':'] + rest2,
        !first.contains(':'),
        !second.contains(':'),
    ensures
        first == second,
        rest1 == rest2,
{
    let text1 = first + seq![':'] + rest1;
    let text2 = second + seq![':'] + rest2;
    let i = first.len() as int;
    let j = second.len() as int;
    assert(text1[i] == ':');
    assert(text2[j] == ':');
    if i < j {
        assert(text2[i] == second[i]);
        assert(second.contains(':'));
    } else if j < i {
        assert(text1[j] == first[j]);
        assert(first.contains(':'));
    }
    assert(first =~= text1.take(i));
    assert(second =~= text2.take(i));
    assert(rest1 =~= text1.skip(i + 1));
    assert(rest2 =~= text2.skip(i + 1));
}

/// The line that describes a snapshot names its series, its ATM strike, and how many calls and puts
/// it has.
pub proof fn law_slice_text(slice: OptionChainSlice) -> (counts: (Seq<char>, Seq<char>))
    ensures
        slice_text(slice) == "OptionChainSlice("@ + slice.series_id.text() + ", atm="@
            + optional_price_text(slice.atm_strike) + ", calls="@ + counts.0 + ", puts="@ + counts.1
            + ")"@,
        all_digits(counts.0),
        all_digits(counts.1),
        number_in(counts.0) == slice.calls@.dom().len(),
        number_in(counts.1) == slice.puts@.dom().len(),
        slice.atm_strike matches Some(atm) ==> optional_price_text(slice.atm_strike)
            == "Some(Price("@ + price_text(atm) + "))"@,
        slice.atm_strike is None ==> optional_price_text(slice.atm_strike) == "None"@,
{
    law_number_reads_back(slice.calls@.dom().len());
    law_number_reads_back(slice.puts@.dom().len());
    (number_text(slice.calls@.dom().len()), number_text(slice.puts@.dom().len()))
}

/// The line that describes Greeks names the instrument, the convention, and each number behind its
/// own name.
pub proof fn law_greeks_text(greeks: OptionGreeks, numbers: GreeksText)
    ensures
        greeks_text(greeks, numbers) == "OptionGreeks("@ + greeks.instrument_id.text() + ", "@ + (
        match greeks.convention {
            GreeksConvention::BlackScholes => "BLACK_SCHOLES"@,
            GreeksConvention::PriceAdjusted => "PRICE_ADJUSTED"@,
        }) + ", delta="@ + numbers.delta@ + ", gamma="@ + numbers.gamma@ + ", vega="@
            + numbers.vega@ + ", theta="@ + numbers.theta@ + ", mark_iv="@ + numbers.mark_iv@
            + ")"@,
{
}

} // verus!
