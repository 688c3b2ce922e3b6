//! Per-fund market observations and the plain-value side of their
//! retrieval: parsing wire fields into scaled integers and narrowing a
//! fetched history to a date range.
//!
//! Per-share values are scaled by 10_000 (`unit_nav`, `accumulate_nav`,
//! `dividend`), so that all later accounting stays in exact integer
//! arithmetic.

use vstd::prelude::*;

use crate::date::Date;

verus! {

/// Trading availability of a fund on a given day.
pub enum FundStatus {
    BuyAvailable,
    SellAvailable,
    TransForbidden,
}

/// One dated observation of a fund: per-share net value, accumulated
/// value, and an optional dividend per share, all scaled by 10_000.
#[derive(Clone, Copy, PartialEq, Eq, Structural, Debug)]
pub struct FundData {
    pub date: Date,
    pub unit_nav: u32,
    pub accumulate_nav: u32,
    pub dividend: Option<u32>,
}

impl FundData {
    /// A usable observation: a real calendar date and a positive net
    /// value (the ledger divides by `unit_nav`).
    pub open spec fn well_formed(self) -> bool {
        self.date.is_valid() && self.unit_nav >= 1
    }

    pub fn new(date: Date, unit_nav: u32, accumulate_nav: u32, dividend: Option<u32>) -> (r: FundData)
        ensures
            r == (FundData { date, unit_nav, accumulate_nav, dividend }),
    {
        FundData { date, unit_nav, accumulate_nav, dividend }
    }
}

impl crate::market::QuantitativeMarket for FundData {
    open spec fn info_date(&self) -> Date {
        self.date
    }

    open spec fn usable(&self) -> bool {
        self.well_formed()
    }

    fn get_info_datetime(&self) -> (d: Date) {
        self.date
    }
}

/// Whether an observation's date falls inside [start, end].
pub open spec fn in_date_range(x: FundData, start: Date, end: Date) -> bool {
    start.key_spec() <= x.date.key_spec() && x.date.key_spec() <= end.key_spec()
}

/// Keep the observations dated within [start, end] and reverse their
/// order. The upstream source lists newest first; the strategy consumes
/// oldest first.
pub fn filter_fund_history(data: &Vec<FundData>, start: Date, end: Date) -> (r: Vec<FundData>)
    ensures
        r@ == data@.filter(|x: FundData| in_date_range(x, start, end)).reverse(),
{
    let ghost pred = |x: FundData| in_date_range(x, start, end);
    let mut r: Vec<FundData> = Vec::new();
    let mut i: usize = data.len();
    proof {
        assert(data@.subrange(i as int, data@.len() as int) =~= Seq::<FundData>::empty());
        reveal_with_fuel(Seq::filter, 3);
        assert(r@ =~= data@.subrange(i as int, data@.len() as int).filter(pred).reverse());
    }
    while i > 0
        invariant
            i <= data@.len(),
            r@ == data@.subrange(i as int, data@.len() as int).filter(pred).reverse(),
            pred == (|x: FundData| in_date_range(x, start, end)),
        decreases i,
    {
        let x = data[i - 1];
        proof {
            let tail = data@.subrange(i as int, data@.len() as int);
            let whole = data@.subrange(i - 1, data@.len() as int);
            assert(whole =~= seq![x] + tail);
            Seq::<FundData>::filter_distributes_over_add(seq![x], tail, pred);
            reveal_with_fuel(Seq::filter, 3);
            assert(seq![x].drop_last() =~= Seq::<FundData>::empty());
            if pred(x) {
                assert(seq![x].filter(pred) =~= seq![x]);
                assert(whole.filter(pred).reverse() =~= tail.filter(pred).reverse().push(x));
            } else {
                assert(seq![x].filter(pred) =~= Seq::<FundData>::empty());
                assert(whole.filter(pred) =~= tail.filter(pred));
            }
        }
        if start.key() <= x.date.key() && x.date.key() <= end.key() {
            r.push(x);
        }
        i = i - 1;
    }
    proof {
        assert(data@.subrange(0, data@.len() as int) =~= data@);
    }
    r
}

// ---------------------------------------------------------------------
// Wire-field parsing.
//
// The upstream source delivers every field as text: dates as
// "YYYY-MM-DD" and per-share values as plain decimals such as "1.4640".
// The parsers below turn that text into the scaled integers the ledger
// works with, truncating (never rounding) past the fourth decimal digit.
// ---------------------------------------------------------------------

/// ASCII decimal digit.
pub open spec fn is_digit(b: u8) -> bool {
    48 <= b <= 57
}

/// Numeric value of an ASCII digit.
pub open spec fn digit(b: u8) -> int {
    b - 48
}

pub open spec fn all_digits(s: Seq<u8>) -> bool {
    forall|i: int| 0 <= i < s.len() ==> is_digit(#[trigger] s[i])
}

/// The value of a digit string read in base ten.
pub open spec fn digits_val(s: Seq<u8>) -> int
    decreases s.len(),
{
    if s.len() == 0 {
        0
    } else {
        digits_val(s.drop_last()) * 10 + digit(s.last())
    }
}

/// Index of the first occurrence of `b` at or after `i`, or the length
/// if there is none.
pub open spec fn first_byte(s: Seq<u8>, b: u8, i: int) -> int
    decreases s.len() - i,
    when 0 <= i <= s.len()
{
    if i >= s.len() {
        s.len() as int
    } else if s[i] == b {
        i
    } else {
        first_byte(s, b, i + 1)
    }
}

proof fn lemma_first_byte_from(s: Seq<u8>, b: u8, i: int, p: int)
    requires
        0 <= i <= p <= s.len(),
        forall|k: int| i <= k < p ==> s[k] != b,
        p == s.len() || s[p] == b,
    ensures
        first_byte(s, b, i) == p,
    decreases p - i,
{
    if i < p {
        lemma_first_byte_from(s, b, i + 1, p);
    }
}

proof fn lemma_digits_val_nonneg(s: Seq<u8>)
    requires
        all_digits(s),
    ensures
        digits_val(s) >= 0,
    decreases s.len(),
{
    if s.len() > 0 {
        assert(all_digits(s.drop_last()));
        lemma_digits_val_nonneg(s.drop_last());
    }
}

/// Reading more digits can only grow the value.
proof fn lemma_digits_val_prefix(s: Seq<u8>, i: int)
    requires
        all_digits(s),
        0 <= i <= s.len(),
    ensures
        digits_val(s) >= digits_val(s.subrange(0, i)),
    decreases s.len(),
{
    if i == s.len() {
        assert(s.subrange(0, i) =~= s);
    } else {
        let t = s.drop_last();
        assert(all_digits(t));
        lemma_digits_val_nonneg(t);
        lemma_digits_val_nonneg(s.subrange(0, i));
        assert(t.subrange(0, i) =~= s.subrange(0, i));
        lemma_digits_val_prefix(t, i);
    }
}

/// Digit of `f` at position `i`, taking absent positions as zero.
pub open spec fn dig_at(f: Seq<u8>, i: int) -> int {
    if 0 <= i < f.len() {
        digit(f[i])
    } else {
        0
    }
}

/// A fractional digit string scaled by 10_000: the first four digits
/// weighted positionally, everything past them truncated.
pub open spec fn frac_scaled(f: Seq<u8>) -> int {
    dig_at(f, 0) * 1000 + dig_at(f, 1) * 100 + dig_at(f, 2) * 10 + dig_at(f, 3)
}

/// The digits before the first dot (the whole input when it has no dot).
pub open spec fn int_seq(s: Seq<u8>) -> Seq<u8> {
    s.subrange(0, first_byte(s, 46, 0))
}

/// The digits after the first dot, empty when there is no dot.
pub open spec fn frac_seq(s: Seq<u8>) -> Seq<u8> {
    let p = first_byte(s, 46, 0);
    if p >= s.len() {
        Seq::empty()
    } else {
        s.subrange(p + 1, s.len() as int)
    }
}

/// A decimal number: a nonempty digit string, optionally followed by a
/// dot and further digits.
pub open spec fn price_text_ok(s: Seq<u8>) -> bool {
    first_byte(s, 46, 0) >= 1 && all_digits(int_seq(s)) && all_digits(frac_seq(s))
}

/// The number scaled by 10_000, truncated past the fourth decimal digit.
pub open spec fn price_value(s: Seq<u8>) -> int {
    digits_val(int_seq(s)) * 10000 + frac_scaled(frac_seq(s))
}

/// Parse a decimal per-share value into its 10_000-scaled integer.
/// Returns the value exactly when the text is a decimal number and the
/// scaled result fits in 32 bits.
pub fn parse_price(s: &[u8]) -> (r: Option<u32>)
    ensures
        match r {
            Some(v) => price_text_ok(s@) && v == price_value(s@) && price_value(s@) <= u32::MAX,
            None => !(price_text_ok(s@) && price_value(s@) <= u32::MAX),
        },
{
    let n = s.len();
    let mut p: usize = 0;
    while p < n && s[p] != 46
        invariant
            n == s@.len(),
            p <= n,
            forall|k: int| 0 <= k < p ==> s@[k] != 46,
        decreases n - p,
    {
        p = p + 1;
    }
    proof {
        lemma_first_byte_from(s@, 46, 0, p as int);
    }
    if p == 0 {
        // no digits before the dot (or an empty input)
        assert(int_seq(s@) =~= Seq::<u8>::empty());
        return None;
    }
    let ghost ipart = int_seq(s@);
    proof {
        assert(ipart.len() == p);
    }
    let mut acc: u64 = 0;
    let mut i: usize = 0;
    while i < n && i < p
        invariant
            n == s@.len(),
            0 < p <= n,
            p == first_byte(s@, 46, 0),
            ipart == int_seq(s@),
            i <= p,
            acc <= 429496,
            acc == digits_val(s@.subrange(0, i as int)),
            forall|k: int| 0 <= k < i ==> is_digit(#[trigger] s@[k]),
        decreases p - i,
    {
        let c = s[i];
        if c < 48 || c > 57 {
            // a non-digit inside the integer part
            assert(ipart[i as int] == s@[i as int]);
            assert(!price_text_ok(s@));
            return None;
        }
        proof {
            assert(s@.subrange(0, i + 1).drop_last() =~= s@.subrange(0, i as int));
        }
        acc = acc * 10 + ((c - 48) as u64);
        i = i + 1;
        if acc > 429496 {
            // whatever digits follow, the scaled value cannot fit in u32
            proof {
                if price_text_ok(s@) {
                    assert(ipart.subrange(0, i as int) =~= s@.subrange(0, i as int));
                    lemma_digits_val_prefix(ipart, i as int);
                    assert(frac_scaled(frac_seq(s@)) >= 0);
                }
            }
            return None;
        }
    }
    proof {
        assert(s@.subrange(0, p as int) =~= ipart);
    }
    // validate the fractional digits, if a dot is present
    if p < n {
        let mut j: usize = p + 1;
        while j < n
            invariant
                n == s@.len(),
                p < n,
                p == first_byte(s@, 46, 0),
                p + 1 <= j <= n,
                forall|k: int| p + 1 <= k < j ==> is_digit(#[trigger] s@[k]),
            decreases n - j,
        {
            let c = s[j];
            if c < 48 || c > 57 {
                assert(frac_seq(s@)[j - (p + 1) as int] == s@[j as int]);
                assert(!price_text_ok(s@));
                return None;
            }
            j = j + 1;
        }
    }
    proof {
        assert(all_digits(frac_seq(s@)));
        assert(price_text_ok(s@));
    }
    // first four fractional digits, absent ones read as zero
    let f0: u64 = if n - p > 1 { (s[p + 1] - 48) as u64 } else { 0 };
    let f1: u64 = if n - p > 2 { (s[p + 2] - 48) as u64 } else { 0 };
    let f2: u64 = if n - p > 3 { (s[p + 3] - 48) as u64 } else { 0 };
    let f3: u64 = if n - p > 4 { (s[p + 4] - 48) as u64 } else { 0 };
    let frac: u64 = f0 * 1000 + f1 * 100 + f2 * 10 + f3;
    proof {
        assert(frac == frac_scaled(frac_seq(s@)));
    }
    let v: u64 = acc * 10000 + frac;
    if v > 0xffff_ffff {
        None
    } else {
        Some(v as u32)
    }
}

/// Parse an optional dividend field: an empty field means no dividend
/// was paid, otherwise the field must be a decimal number.
pub fn parse_dividend(s: &[u8]) -> (r: Option<Option<u32>>)
    ensures
        match r {
            Some(d) => match d {
                None => s@.len() == 0,
                Some(v) => s@.len() > 0 && price_text_ok(s@) && v == price_value(s@)
                    && price_value(s@) <= u32::MAX,
            },
            None => s@.len() > 0 && !(price_text_ok(s@) && price_value(s@) <= u32::MAX),
        },
{
    if s.len() == 0 {
        Some(None)
    } else {
        match parse_price(s) {
            Some(v) => Some(Some(v)),
            None => None,
        }
    }
}

/// Text of the shape "YYYY-MM-DD": ten bytes, digits in the date
/// positions, dashes between them.
pub open spec fn date_text_ok(s: Seq<u8>) -> bool {
    s.len() == 10 && s[4] == 45 && s[7] == 45
        && is_digit(s[0]) && is_digit(s[1]) && is_digit(s[2]) && is_digit(s[3])
        && is_digit(s[5]) && is_digit(s[6]) && is_digit(s[8]) && is_digit(s[9])
}

pub open spec fn date_of_text(s: Seq<u8>) -> Date {
    Date {
        year: (digit(s[0]) * 1000 + digit(s[1]) * 100 + digit(s[2]) * 10 + digit(s[3])) as u16,
        month: (digit(s[5]) * 10 + digit(s[6])) as u8,
        day: (digit(s[8]) * 10 + digit(s[9])) as u8,
    }
}

/// Parse a "YYYY-MM-DD" date. Returns the date exactly when the text has
/// that shape and names a real calendar date: a day past the month's end
/// (February 30th, or February 29th outside a leap year) is rejected.
pub fn parse_date(s: &[u8]) -> (r: Option<Date>)
    ensures
        match r {
            Some(d) => date_text_ok(s@) && d == date_of_text(s@) && d.is_valid(),
            None => !(date_text_ok(s@) && date_of_text(s@).is_valid()),
        },
{
    if s.len() != 10 {
        return None;
    }
    if s[4] != 45 || s[7] != 45 {
        return None;
    }
    let d0 = s[0]; let d1 = s[1]; let d2 = s[2]; let d3 = s[3];
    let m0 = s[5]; let m1 = s[6]; let a0 = s[8]; let a1 = s[9];
    if d0 < 48 || d0 > 57 || d1 < 48 || d1 > 57 || d2 < 48 || d2 > 57 || d3 < 48 || d3 > 57 {
        return None;
    }
    if m0 < 48 || m0 > 57 || m1 < 48 || m1 > 57 || a0 < 48 || a0 > 57 || a1 < 48 || a1 > 57 {
        return None;
    }
    let year: u16 = ((d0 - 48) as u16) * 1000 + ((d1 - 48) as u16) * 100 + ((d2 - 48) as u16) * 10
        + ((d3 - 48) as u16);
    let month: u8 = (m0 - 48) * 10 + (m1 - 48);
    let day: u8 = (a0 - 48) * 10 + (a1 - 48);
    if month < 1 || month > 12 || day < 1 || day > crate::date::days_in_month(year, month) {
        return None;
    }
    Some(Date { year, month, day })
}

/// Locate the payload's array: the span from the first '[' to the first
/// ']'. The upstream body wraps a JSON array in a callback expression;
/// only this span is handed to the JSON decoder.
pub fn json_array_span(s: &[u8]) -> (r: Option<(usize, usize)>)
    ensures
        match r {
            Some(ij) => ij.0 == first_byte(s@, 91, 0) && ij.1 == first_byte(s@, 93, 0)
                && ij.0 <= ij.1 < s@.len() && s@[ij.0 as int] == 91 && s@[ij.1 as int] == 93,
            None => first_byte(s@, 91, 0) == s@.len() || first_byte(s@, 93, 0) == s@.len()
                || first_byte(s@, 93, 0) < first_byte(s@, 91, 0),
        },
{
    let n = s.len();
    let mut i: usize = 0;
    while i < n && s[i] != 91
        invariant
            n == s@.len(),
            i <= n,
            forall|k: int| 0 <= k < i ==> s@[k] != 91,
        decreases n - i,
    {
        i = i + 1;
    }
    proof {
        lemma_first_byte_from(s@, 91, 0, i as int);
    }
    let mut j: usize = 0;
    while j < n && s[j] != 93
        invariant
            n == s@.len(),
            j <= n,
            forall|k: int| 0 <= k < j ==> s@[k] != 93,
        decreases n - j,
    {
        j = j + 1;
    }
    proof {
        lemma_first_byte_from(s@, 93, 0, j as int);
    }
    if i < n && j < n && i <= j {
        Some((i, j))
    } else {
        None
    }
}

} // verus!
