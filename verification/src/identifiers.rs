//! Names of venues, instruments, option series and strategies.

use vstd::prelude::*;
use vstd::string::{StrSliceExecFns, StringExecFns};

use crate::fixed::UnixNanos;
use crate::text::{append_number, number_text};

verus! {

/// An instrument: a symbol at a venue.
#[derive(Clone, Debug, PartialEq, Eq)]
pub struct InstrumentId {
    /// The symbol.
    pub symbol: String,
    /// The venue.
    pub venue: String,
}

impl InstrumentId {
    /// The text of the identifier: the symbol, a point, the venue.
    pub open spec fn text(self) -> Seq<char> {
        self.symbol@ + seq!['.'] + self.venue@
    }

    /// The instrument `symbol` at `venue`.
    pub fn new(symbol: &str, venue: &str) -> (id: InstrumentId)
        ensures
            id.symbol@ == symbol@,
            id.venue@ == venue@,
    {
        InstrumentId { symbol: symbol.to_owned(), venue: venue.to_owned() }
    }

    /// The instrument that a text names: what follows the last point is the venue. A text without a
    /// point names none.
    pub fn from_text(text: &str) -> (id: Option<InstrumentId>)
        ensures
            id is Some <==> text@.contains('.'),
            id matches Some(id) ==> id.text() == text@ && !id.venue@.contains('.'),
    {
        let len: usize = text.unicode_len();
        let mut p: usize = len;
        while p > 0
            invariant
                p <= len,
                len == text@.len(),
                forall|k: int| p <= k < len ==> text@[k] != '.',
            decreases p,
        {
            p -= 1;
            if text.get_char(p) == '.' {
                let symbol = text.substring_char(0, p).to_owned();
                let venue = text.substring_char(p + 1, len).to_owned();
                let id = InstrumentId { symbol, venue };
                assert(id.text() =~= text@);
                assert forall|k: int| 0 <= k < id.venue@.len() implies id.venue@[k] != '.' by {
                    assert(id.venue@[k] == text@[p + 1 + k]);
                }
                return Some(id);
            }
        }
        None
    }

    /// Appends the text of the identifier.
    pub fn append_to(&self, text: &mut String)
        ensures
            final(text)@ == old(text)@ + self.text(),
    {
        proof {
            reveal_strlit(".");
        }
        let ghost before = text@;
        text.append(self.symbol.as_str());
        text.append(".");
        text.append(self.venue.as_str());
        assert(text@ == before + self.text());
    }
}

/// An instrument whose venue has no point in its name is the only one that its text names.
pub proof fn law_text_names_the_instrument(first: InstrumentId, second: InstrumentId)
    requires
        first.text() == second.text(),
        !first.venue@.contains('.'),
        !second.venue@.contains('.'),
    ensures
        first.symbol@ == second.symbol@,
        first.venue@ == second.venue@,
{
    let text = first.text();
    let i = first.symbol@.len() as int;
    let j = second.symbol@.len() as int;
    assert(text.len() == i + 1 + first.venue@.len());
    assert(second.text().len() == j + 1 + second.venue@.len());
    assert(text[i] == '.' && second.text()[j] == '.');
    if i < j {
        assert(text[j] == first.venue@[j - i - 1]);
        assert(first.venue@.contains('.'));
    } else if j < i {
        assert(second.text()[i] == second.venue@[i - j - 1]);
        assert(second.venue@.contains('.'));
    }
    assert(first.symbol@ =~= text.take(i));
    assert(second.symbol@ =~= second.text().take(j));
    assert(first.venue@ =~= text.skip(i + 1));
    assert(second.venue@ =~= second.text().skip(j + 1));
}

/// A series of options: one underlying, one settlement currency and one expiration at a venue.
#[derive(Clone, Debug, PartialEq, Eq)]
pub struct OptionSeriesId {
    /// The venue.
    pub venue: String,
    /// The underlying.
    pub underlying: String,
    /// The currency that the options settle in.
    pub settlement_currency: String,
    /// When the options expire.
    pub expiration: UnixNanos,
}

impl OptionSeriesId {
    /// The text of the identifier: its parts, with colons between them.
    pub open spec fn text(self) -> Seq<char> {
        self.venue@ + seq![':'] + self.underlying@ + seq![':'] + self.settlement_currency@ + seq![
            ':',
        ] + number_text(self.expiration.nanos as nat)
    }

    /// The series of `underlying` options at `venue`.
    pub fn new(
        venue: &str,
        underlying: &str,
        settlement_currency: &str,
        expiration: UnixNanos,
    ) -> (id: OptionSeriesId)
        ensures
            id.venue@ == venue@,
            id.underlying@ == underlying@,
            id.settlement_currency@ == settlement_currency@,
            id.expiration == expiration,
    {
        OptionSeriesId {
            venue: venue.to_owned(),
            underlying: underlying.to_owned(),
            settlement_currency: settlement_currency.to_owned(),
            expiration,
        }
    }

    /// Appends the text of the identifier.
    pub fn append_to(&self, text: &mut String)
        ensures
            final(text)@ == old(text)@ + self.text(),
    {
        proof {
            reveal_strlit(":");
        }
        let ghost before = text@;
        text.append(self.venue.as_str());
        text.append(":");
        text.append(self.underlying.as_str());
        text.append(":");
        text.append(self.settlement_currency.as_str());
        text.append(":");
        append_number(text, self.expiration.as_u64() as u128);
        assert(text@ == before + self.text());
    }
}

} // verus!
