//! The text line of a quote: `<ticker>|<price>|<volume>|<timestamp>`. The
//! price is a floating-point number, which the server reads itself; the
//! rest of the line is read here.

use crate::text::{
    chars_of, lemma_decimal_digits, lemma_decimal_round_trip, lemma_split_cons, lemma_split_no_sep,
    parse_u64_range, spec_decimal, spec_parse_u64, spec_split, split_range,
};
use vstd::prelude::*;

verus! {

/// What `str::parse::<u32>` gives for `s`.
pub open spec fn spec_parse_u32(s: Seq<char>) -> Option<u32> {
    match spec_parse_u64(s) {
        Some(v) => if v <= u32::MAX {
            Some(v as u32)
        } else {
            None
        },
        None => None,
    }
}

/// The fields of a quote line, the price still as text.
#[derive(Debug, Clone, PartialEq)]
pub struct QuoteFields {
    pub ticker: String,
    pub price: String,
    pub volume: u32,
    pub timestamp: u64,
}

/// What reading the line `s` gives: four fields separated by `|`, of which
/// the volume must read as a `u32` and the timestamp as a `u64`.
pub open spec fn spec_quote_fields(s: Seq<char>) -> Option<(Seq<char>, Seq<char>, u32, u64)> {
    let parts = spec_split(s, '|');
    if parts.len() != 4 {
        None
    } else {
        match (spec_parse_u32(parts[2]), spec_parse_u64(parts[3])) {
            (Some(v), Some(t)) => Some((parts[0], parts[1], v, t)),
            _ => None,
        }
    }
}

/// Reads the fields of a quote line (see [`spec_quote_fields`]).
pub fn split_quote_line(s: &str) -> (r: Option<QuoteFields>)
    ensures
        match r {
            Some(f) => spec_quote_fields(s@) == Some((f.ticker@, f.price@, f.volume, f.timestamp)),
            None => spec_quote_fields(s@) is None,
        },
{
    let c = chars_of(s);
    let parts = split_range(&c, 0, c.len(), '|');
    assert(c@.subrange(0, c@.len() as int) =~= s@);
    if parts.len() != 4 {
        return None;
    }
    let p2 = chars_of(parts[2].as_str());
    let p3 = chars_of(parts[3].as_str());
    assert(p2@.subrange(0, p2@.len() as int) =~= p2@);
    assert(p3@.subrange(0, p3@.len() as int) =~= p3@);
    assert(crate::text::strings_view(parts@)[2] == parts@[2]@);
    assert(crate::text::strings_view(parts@)[3] == parts@[3]@);
    let volume = match parse_u64_range(&p2, 0, p2.len()) {
        Some(v) => {
            if v > 4294967295 {
                return None;
            }
            v as u32
        },
        None => return None,
    };
    let timestamp = match parse_u64_range(&p3, 0, p3.len()) {
        Some(t) => t,
        None => return None,
    };
    assert(crate::text::strings_view(parts@)[0] == parts@[0]@);
    assert(crate::text::strings_view(parts@)[1] == parts@[1]@);
    Some(QuoteFields { ticker: parts[0].clone(), price: parts[1].clone(), volume, timestamp })
}


/// A line written from a ticker and a price text without `|`, a volume and
/// a timestamp reads back as those fields.
pub proof fn lemma_quote_line_round_trip(ticker: Seq<char>, price: Seq<char>, volume: u32, timestamp: u64)
    requires
        !ticker.contains('|'),
        !price.contains('|'),
    ensures
        spec_quote_fields(
            ticker + seq!['|'] + price + seq!['|'] + spec_decimal(volume as nat) + seq!['|'] + spec_decimal(
                timestamp as nat,
            ),
        ) == Some((ticker, price, volume, timestamp)),
{
    let v = spec_decimal(volume as nat);
    let t = spec_decimal(timestamp as nat);
    lemma_decimal_digits(volume as nat);
    lemma_decimal_digits(timestamp as nat);
    assert(!v.contains('|')) by {
        if v.contains('|') {
            let k = choose|k: int| 0 <= k < v.len() && v[k] == '|';
            assert(crate::text::is_digit(v[k]));
        }
    }
    assert(!t.contains('|')) by {
        if t.contains('|') {
            let k = choose|k: int| 0 <= k < t.len() && t[k] == '|';
            assert(crate::text::is_digit(t[k]));
        }
    }
    let line = ticker + seq!['|'] + price + seq!['|'] + v + seq!['|'] + t;
    assert(line =~= ticker + seq!['|'] + (price + seq!['|'] + (v + seq!['|'] + t)));
    lemma_split_cons(ticker, price + seq!['|'] + (v + seq!['|'] + t), '|');
    lemma_split_cons(price, v + seq!['|'] + t, '|');
    lemma_split_cons(v, t, '|');
    lemma_split_no_sep(t, '|');
    assert(spec_split(line, '|') =~= seq![ticker, price, v, t]);
    lemma_decimal_round_trip(volume as u64);
    lemma_decimal_round_trip(timestamp);
}

} // verus!
