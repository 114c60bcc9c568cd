//! What a recipient sees of a quote: its reference, dates, estimates and
//! prices, and the list and document views built from stored rows.
use vstd::prelude::*;
use vstd::utf8::{decode_utf8, encode_utf8, is_char_boundary};
use crate::decimal::{push_padded2, push_signed, signed_decimal, trunc_div, trunc_rem, zero_padded2};
use crate::vecs::into_reversed;
use crate::text::{append_str, chars_of, string_of};

verus! {

/// One line of the recipient's quote list.
#[derive(Debug)]
pub struct QuoteListItem {
    pub id: String,
    pub reference: String,
    pub title: String,
    pub description: String,
    pub updated_at: String,
}

/// A complete quote as the recipient reads it.
#[derive(Debug)]
pub struct QuoteDocument {
    pub reference: String,
    pub title: String,
    pub description: String,
    pub created_at: String,
    pub updated_at: String,
    pub sections: Vec<QuoteSection>,
    pub total: String,
}

/// One numbered section of a quote document.
#[derive(Debug)]
pub struct QuoteSection {
    pub number: usize,
    pub title: String,
    pub description: String,
    pub estimate: String,
    pub price: String,
}

/// A stored section: title, description, minimum and maximum estimate in
/// minutes, price in cents.
pub type SectionRow = (String, String, i32, Option<i32>, i64);

/// The sum of the section prices did not fit in an `i64`.
#[derive(Debug, Clone, Copy)]
pub struct TotalOverflow;

/// The date (year, month number, day) of the moment `ts` seconds after the
/// Unix epoch, in UTC, or `None` where it lies outside the dates the `time`
/// crate represents.
pub uninterp spec fn unix_date(ts: i64) -> Option<(i32, u8, u8)>;

/// The uppercase mapping of a string, as `str::to_uppercase` gives it.
pub uninterp spec fn uppercase(s: Seq<char>) -> Seq<char>;

/// The first second that has a date: -9999-01-01 00:00:00 UTC, the start of
/// `time::Date::MIN` as the `time` crate is built here (without its
/// `large-dates` feature).
pub const FIRST_DATED_SECOND: i64 = -377_705_116_800;

/// The last second that has a date: 9999-12-31 23:59:59 UTC, the end of
/// `time::Date::MAX` as the `time` crate is built here.
pub const LAST_DATED_SECOND: i64 = 253_402_300_799;

/// Calls `time::OffsetDateTime::from_unix_timestamp` and reads year, month and
/// day of the result's date. The contract names the result `unix_date(ts)`;
/// it states that the call succeeds exactly on the timestamps from the start
/// of `Date::MIN` to the end of `Date::MAX` (the range the function checks
/// before anything else), the year range of `Date` as built here, and what
/// `Date::month` and `Date::day` document of their ranges. Which calendar date
/// a timestamp has is left to the name.
#[verifier::external_body]
fn date_of_timestamp(ts: i64) -> (r: Option<(i32, u8, u8)>)
    ensures
        r == unix_date(ts),
        r is Some <==> FIRST_DATED_SECOND <= ts <= LAST_DATED_SECOND,
        r matches Some((y, m, d)) ==> -9999 <= y <= 9999 && 1 <= m <= 12 && 1 <= d <= 31,
{
    match time::OffsetDateTime::from_unix_timestamp(ts) {
        Ok(value) => Some((value.date().year(), value.date().month() as u8, value.date().day())),
        Err(_) => None,
    }
}

/// Calls `str::to_uppercase`; the result is named `uppercase(s@)`.
#[verifier::external_body]
fn to_uppercase(s: &str) -> (r: String)
    ensures
        r@ == uppercase(s@),
{
    s.to_uppercase()
}

/// The first eight bytes of `s` where they end on a character boundary, as
/// `s.get(..8)` gives them, else all of `s`.
pub open spec fn reference_head(s: Seq<char>) -> Seq<char> {
    let bytes = encode_utf8(s);
    if bytes.len() as usize >= 8 && is_char_boundary(bytes, 8) {
        decode_utf8(bytes.subrange(0, 8))
    } else {
        s
    }
}

/// The reference under which a quote is shown.
pub open spec fn reference_text(id: Seq<char>) -> Seq<char> {
    "QUO-"@ + uppercase(reference_head(id))
}

/// `DD.MM.YYYY`, or an em dash where the timestamp has no date.
pub open spec fn date_text(parts: Option<(i32, u8, u8)>) -> Seq<char> {
    match parts {
        Some((y, m, d)) => zero_padded2(d as int) + seq!['.'] + zero_padded2(m as int) + seq!['.']
            + signed_decimal(y as int),
        None => seq!['\u{2014}'],
    }
}

/// A duration in minutes as hours and minutes.
pub open spec fn duration_text(minutes: int) -> Seq<char> {
    let h = trunc_div(minutes, 60);
    let m = trunc_rem(minutes, 60);
    if h == 0 {
        signed_decimal(m) + " min"@
    } else if m == 0 {
        signed_decimal(h) + " h"@
    } else {
        signed_decimal(h) + " h "@ + signed_decimal(m) + " min"@
    }
}

/// An estimate: a range where the maximum exceeds the minimum, the minimum
/// alone where it does not, an open range where there is no maximum.
pub open spec fn estimate_text(minimum: i32, maximum: Option<i32>) -> Seq<char> {
    match maximum {
        Some(max) => if max > minimum {
            duration_text(minimum as int) + seq!['\u{2013}'] + duration_text(max as int)
        } else {
            duration_text(minimum as int)
        },
        None => "from "@ + duration_text(minimum as int),
    }
}

/// A price in cents as euros and cents.
pub open spec fn price_text(cents: int) -> Seq<char> {
    seq!['\u{20ac}', ' '] + signed_decimal(trunc_div(cents, 100)) + seq![','] + zero_padded2(
        trunc_rem(cents, 100),
    )
}

/// The sum of the prices of the first `k` rows.
pub open spec fn prices_sum(rows: Seq<SectionRow>, k: int) -> int
    decreases k,
{
    if k <= 0 {
        0
    } else {
        prices_sum(rows, k - 1) + rows[k - 1].4
    }
}

/// Every running total of the prices fits in an `i64`.
pub open spec fn total_fits(rows: Seq<SectionRow>) -> bool {
    forall|k: int| 0 <= k <= rows.len() ==> i64::MIN <= #[trigger] prices_sum(rows, k) <= i64::MAX
}

/// Rust's `a / b` for `b > 0`.
fn div_trunc(a: i128, b: i128) -> (q: i128)
    requires
        b > 0,
        -0x1_0000_0000_0000_0000 <= a <= 0x1_0000_0000_0000_0000,
    ensures
        q == trunc_div(a as int, b as int),
        -0x1_0000_0000_0000_0000 <= q <= 0x1_0000_0000_0000_0000,
{
    if a >= 0 {
        ((a as u128) / (b as u128)) as i128
    } else {
        0 - (((0 - a) as u128) / (b as u128)) as i128
    }
}

/// `s.get(..8).unwrap_or(s)`.
fn reference_prefix(s: &str) -> (r: &str)
    ensures
        r@ == reference_head(s@),
{
    broadcast use vstd::utf8::encode_utf8_decode_utf8, vstd::utf8::encode_utf8_valid_utf8;

    if s.len() >= 8 && s.is_char_boundary(8) {
        let parts = s.split_at(8);
        let head = parts.0;
        assert(decode_utf8(encode_utf8(head@)) == head@);
        head
    } else {
        s
    }
}

/// The reference under which the quote `id` is shown: `QUO-` and the first
/// eight bytes of the id in upper case.
pub fn reference(id: &str) -> (r: String)
    ensures
        r@ == reference_text(id@),
{
    let upper = to_uppercase(reference_prefix(id));
    let mut out = chars_of("QUO-");
    append_str(&mut out, upper.as_str());
    string_of(&out)
}

/// `DD.MM.YYYY` of already computed date parts, or an em dash for `None`.
pub fn format_date(parts: Option<(i32, u8, u8)>) -> (r: String)
    ensures
        r@ == date_text(parts),
{
    match parts {
        Some((y, m, d)) => {
            let mut out: Vec<char> = Vec::new();
            push_padded2(d as i128, &mut out);
            out.push('.');
            push_padded2(m as i128, &mut out);
            out.push('.');
            push_signed(y as i128, &mut out);
            string_of(&out)
        },
        None => {
            let mut out: Vec<char> = Vec::new();
            out.push('\u{2014}');
            assert(out@ =~= seq!['\u{2014}']);
            string_of(&out)
        },
    }
}

/// The UTC date of the Unix timestamp `timestamp` as `DD.MM.YYYY`, or an em
/// dash where the timestamp has no date.
pub fn date(timestamp: i64) -> (r: String)
    ensures
        r@ == date_text(unix_date(timestamp)),
        r@ == seq!['\u{2014}'] <==> !(FIRST_DATED_SECOND <= timestamp <= LAST_DATED_SECOND),
{
    let parts = date_of_timestamp(timestamp);
    let r = format_date(parts);
    proof {
        if let Some((y, m, d)) = parts {
            assert(date_text(parts).len() >= 2);
            assert(r@.len() != seq!['\u{2014}'].len());
        }
    }
    r
}

/// Appends `duration_text(minutes)` to `out`.
fn push_duration(minutes: i32, out: &mut Vec<char>)
    ensures
        final(out)@ == old(out)@ + duration_text(minutes as int),
{
    let h = div_trunc(minutes as i128, 60);
    let m = (minutes as i128) - 60 * h;
    let ghost start = out@;
    push_signed(if h == 0 { m } else { h }, out);
    if h == 0 {
        append_str(out, " min");
        assert(out@ =~= start + duration_text(minutes as int));
    } else if m == 0 {
        append_str(out, " h");
        assert(out@ =~= start + duration_text(minutes as int));
    } else {
        append_str(out, " h ");
        push_signed(m, out);
        append_str(out, " min");
        assert(out@ =~= start + duration_text(minutes as int));
    }
}

/// A duration in minutes as `N min`, `N h` or `N h M min`.
pub fn duration(minutes: i32) -> (r: String)
    ensures
        r@ == duration_text(minutes as int),
{
    let mut out: Vec<char> = Vec::new();
    push_duration(minutes, &mut out);
    assert(out@ =~= duration_text(minutes as int));
    string_of(&out)
}

/// An estimate from a minimum and an optional maximum, in minutes.
pub fn estimate(minimum: i32, maximum: Option<i32>) -> (r: String)
    ensures
        r@ == estimate_text(minimum, maximum),
{
    let mut out: Vec<char> = Vec::new();
    match maximum {
        Some(max) => {
            push_duration(minimum, &mut out);
            if max > minimum {
                out.push('\u{2013}');
                push_duration(max, &mut out);
            }
        },
        None => {
            append_str(&mut out, "from ");
            push_duration(minimum, &mut out);
        },
    }
    assert(out@ =~= estimate_text(minimum, maximum));
    string_of(&out)
}

/// A price in cents as `€ E,CC`.
pub fn price(cents: i64) -> (r: String)
    ensures
        r@ == price_text(cents as int),
{
    let q = div_trunc(cents as i128, 100);
    let rem = (cents as i128) - 100 * q;
    let mut out: Vec<char> = Vec::new();
    out.push('\u{20ac}');
    out.push(' ');
    push_signed(q, &mut out);
    out.push(',');
    push_padded2(rem, &mut out);
    assert(out@ =~= price_text(cents as int));
    string_of(&out)
}

/// The list line for a stored quote.
pub fn list_item(id: String, title: String, description: String, updated_at: i64) -> (r:
    QuoteListItem)
    ensures
        r.reference@ == reference_text(id@),
        r.id == id,
        r.title == title,
        r.description == description,
        r.updated_at@ == date_text(unix_date(updated_at)),
{
    QuoteListItem {
        reference: reference(id.as_str()),
        id,
        title,
        description,
        updated_at: date(updated_at),
    }
}

/// The sum of all section prices, or `None` where a running total leaves the
/// range of `i64`.
pub fn total_cents(rows: &Vec<SectionRow>) -> (r: Option<i64>)
    ensures
        match r {
            Some(t) => total_fits(rows@) && t == prices_sum(rows@, rows@.len() as int),
            None => !total_fits(rows@),
        },
{
    let mut total: i64 = 0;
    let mut i: usize = 0;
    while i < rows.len()
        invariant
            i <= rows.len(),
            total == prices_sum(rows@, i as int),
            forall|k: int| 0 <= k <= i ==> i64::MIN <= #[trigger] prices_sum(rows@, k) <= i64::MAX,
        decreases rows.len() - i,
    {
        match total.checked_add(rows[i].4) {
            Some(t) => {
                total = t;
            },
            None => {
                assert(!(i64::MIN <= prices_sum(rows@, i + 1) <= i64::MAX));
                return None;
            },
        }
        i += 1;
    }
    Some(total)
}

/// A quote document from the stored quote and its sections in order: each
/// section numbered from one, and the total of their prices, which must not
/// overflow.
pub fn document(
    quote_id: &str,
    title: String,
    description: String,
    created_at: i64,
    updated_at: i64,
    rows: Vec<SectionRow>,
) -> (r: Result<QuoteDocument, TotalOverflow>)
    ensures
        match r {
            Ok(doc) => {
                &&& total_fits(rows@)
                &&& doc.reference@ == reference_text(quote_id@)
                &&& doc.title == title
                &&& doc.description == description
                &&& doc.created_at@ == date_text(unix_date(created_at))
                &&& doc.updated_at@ == date_text(unix_date(updated_at))
                &&& doc.total@ == price_text(prices_sum(rows@, rows@.len() as int))
                &&& doc.sections@.len() == rows@.len()
                &&& forall|i: int|
                    0 <= i < rows@.len() ==> {
                        let s = #[trigger] doc.sections@[i];
                        let row = rows@[i];
                        &&& s.number == i + 1
                        &&& s.title == row.0
                        &&& s.description == row.1
                        &&& s.estimate@ == estimate_text(row.2, row.3)
                        &&& s.price@ == price_text(row.4 as int)
                    }
            },
            Err(_) => !total_fits(rows@),
        },
{
    let total = match total_cents(&rows) {
        Some(t) => t,
        None => {
            return Err(TotalOverflow);
        },
    };
    let ghost rows0 = rows@;
    let mut sections: Vec<QuoteSection> = Vec::new();
    let n = rows.len();
    // Rows are moved out from the back of the reversed list, then numbered.
    let mut taken = into_reversed(rows);
    let mut i: usize = 0;
    while taken.len() > 0
        invariant
            i + taken@.len() == n == rows0.len(),
            forall|j: int| 0 <= j < taken@.len() ==> #[trigger] taken@[j] == rows0[n - 1 - j],
            sections@.len() == i,
            forall|k: int|
                0 <= k < i ==> {
                    let s = #[trigger] sections@[k];
                    let row = rows0[k];
                    &&& s.number == k + 1
                    &&& s.title == row.0
                    &&& s.description == row.1
                    &&& s.estimate@ == estimate_text(row.2, row.3)
                    &&& s.price@ == price_text(row.4 as int)
                },
        decreases taken@.len(),
    {
        let (t, d, min, max, cents) = taken.pop().unwrap();
        assert((t, d, min, max, cents) == rows0[i as int]);
        sections.push(
            QuoteSection {
                number: i + 1,
                title: t,
                description: d,
                estimate: estimate(min, max),
                price: price(cents),
            },
        );
        i += 1;
    }
    Ok(
        QuoteDocument {
            reference: reference(quote_id),
            title,
            description,
            created_at: date(created_at),
            updated_at: date(updated_at),
            sections,
            total: price(total),
        },
    )
}

} // verus!
