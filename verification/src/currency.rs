//! The closed set of currencies the ledger tracks.

use vstd::prelude::*;
use crate::str_eq;

verus! {

/// A currency the ledger knows about. Each account carries a three-letter
/// code; the reports group accounts by that code.
#[derive(Clone, Copy, PartialEq, Eq, Structural, Debug)]
pub enum Currency {
    EUR,
    JPY,
    USD,
}

impl Currency {
    /// The three-letter code of the currency, as a sequence of characters.
    pub open spec fn spec_code(self) -> Seq<char> {
        match self {
            Currency::EUR => "EUR"@,
            Currency::JPY => "JPY"@,
            Currency::USD => "USD"@,
        }
    }

    /// Which currency, if any, a command-line symbol names.
    pub open spec fn spec_from_symbol(s: Seq<char>) -> Option<Currency> {
        if s == "eu"@ || s == "eur"@ || s == "euro"@ || s == "EUR"@ {
            Some(Currency::EUR)
        } else if s == "jp"@ || s == "jpy"@ || s == "yen"@ || s == "JPY"@ {
            Some(Currency::JPY)
        } else if s == "us"@ || s == "usd"@ || s == "dollar"@ || s == "USD"@ {
            Some(Currency::USD)
        } else {
            None
        }
    }

    /// The three-letter code of the currency.
    pub fn as_str(&self) -> (r: &'static str)
        ensures
            r@ == self.spec_code(),
    {
        match *self {
            Currency::EUR => "EUR",
            Currency::JPY => "JPY",
            Currency::USD => "USD",
        }
    }

    /// The two currencies other than this one; net worth fans out over them.
    pub fn the_others(&self) -> (r: [Currency; 2])
        ensures
            r[0] == self.spec_others().0,
            r[1] == self.spec_others().1,
    {
        match *self {
            Currency::EUR => [Currency::JPY, Currency::USD],
            Currency::JPY => [Currency::EUR, Currency::USD],
            Currency::USD => [Currency::EUR, Currency::JPY],
        }
    }

    /// The two currencies other than this one, as a pair.
    pub open spec fn spec_others(self) -> (Currency, Currency) {
        match self {
            Currency::EUR => (Currency::JPY, Currency::USD),
            Currency::JPY => (Currency::EUR, Currency::USD),
            Currency::USD => (Currency::EUR, Currency::JPY),
        }
    }

    /// Resolves a command-line symbol to a currency, or `None` when the
    /// symbol names no known currency.
    pub fn try_from_str(s: &str) -> (r: Option<Self>)
        ensures
            r == Self::spec_from_symbol(s@),
    {
        if str_eq(s, "eu") || str_eq(s, "eur") || str_eq(s, "euro") || str_eq(s, "EUR") {
            Some(Currency::EUR)
        } else if str_eq(s, "jp") || str_eq(s, "jpy") || str_eq(s, "yen") || str_eq(s, "JPY") {
            Some(Currency::JPY)
        } else if str_eq(s, "us") || str_eq(s, "usd") || str_eq(s, "dollar") || str_eq(s, "USD") {
            Some(Currency::USD)
        } else {
            None
        }
    }

    /// Resolves a command-line symbol to a currency. The caller must have
    /// checked that the symbol is one of the recognized spellings.
    pub fn from_str(s: &str) -> (r: Self)
        requires
            Self::spec_from_symbol(s@) is Some,
        ensures
            Some(r) == Self::spec_from_symbol(s@),
    {
        match Self::try_from_str(s) {
            Some(c) => c,
            None => {
                proof {
                    assert(false);
                }
                Currency::EUR
            },
        }
    }
}

} // verus!
