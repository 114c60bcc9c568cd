//! What the administrator sees of quotes and recipients, and the edit form
//! rebuilt from a stored quote.
use vstd::prelude::*;
use crate::decimal::{
    decimal, digit_char, lemma_decimal, lemma_parse_signed_decimal, push_decimal, signed_decimal,
    trunc_div, trunc_rem,
};
use crate::form::{
    checked_input, error_message, form_check, lemma_checked_form, lemma_checked_section,
    section_check, spec_positive_i32, FormError, QuoteForm, QuoteFormSection, QuoteInput,
    SectionNumbers,
};
use crate::quotes::{date, date_text, reference, reference_text, unix_date, SectionRow};
use crate::vecs::into_reversed;
use crate::text::{
    append_str, chars_of, is_ascii_digit, is_white_space, string_of, trim, trim_end,
    trim_end_char, trim_start,
};

verus! {

/// One line of the administrator's quote list.
#[derive(Debug)]
pub struct AdminQuoteListItem {
    pub id: String,
    pub discord_id: String,
    pub reference: String,
    pub title: String,
    pub recipient_name: String,
    pub recipient_avatar: Option<String>,
    pub recipient_initial: String,
    pub is_visible: bool,
    pub total_euros: i64,
    pub min_hours: i32,
    pub max_hours: Option<i32>,
    pub updated_at: String,
}

/// The recipient of a quote as the administrator sees it.
#[derive(Debug)]
pub struct RecipientView {
    pub discord_id: String,
    pub display_name: Option<String>,
    pub avatar_url: Option<String>,
    pub initial: String,
}

/// A stored section's estimate and price: minimum minutes, maximum minutes,
/// price in cents.
pub type EstimateRow = (i32, Option<i32>, i64);

/// The uppercase mapping of a character, as `char::to_uppercase` gives it.
pub uninterp spec fn char_uppercase(c: char) -> Seq<char>;

/// Calls `char::to_uppercase` and collects the characters it yields; the
/// result is named `char_uppercase(c)`. Its documentation says that it
/// yields one or more characters.
#[verifier::external_body]
fn uppercase_char(c: char) -> (r: String)
    ensures
        r@ == char_uppercase(c),
        r@.len() >= 1,
{
    c.to_uppercase().collect::<String>()
}

/// The letter shown for a name without an avatar: its first character in
/// upper case, or `?` for an empty name.
pub open spec fn initial_text(name: Seq<char>) -> Seq<char> {
    char_uppercase(
        if name.len() > 0 {
            name[0]
        } else {
            '?'
        },
    )
}

/// The address of a Discord avatar.
pub open spec fn avatar_url_text(discord_id: Seq<char>, hash: Seq<char>) -> Seq<char> {
    "https://cdn.discordapp.com/avatars/"@ + discord_id + seq!['/'] + hash + ".webp?size=64"@
}

/// `minutes / 60` rounded to hundredths, for a non-negative count.
pub open spec fn rounded_hundredths(q: nat) -> nat {
    (200 * q + 60) / 120
}

/// `minutes / 60` with two decimals, before trailing zeros are dropped.
pub open spec fn two_decimals(minutes: int) -> Seq<char> {
    let q = if minutes < 0 {
        -minutes
    } else {
        minutes
    };
    let h = rounded_hundredths(q as nat);
    (if minutes < 0 {
        seq!['-']
    } else {
        Seq::empty()
    }) + decimal(h / 100) + seq!['.', digit_char((h % 100) / 10), digit_char(h % 10)]
}

/// Hours for the edit form: whole hours as an integer, other durations with
/// up to two decimals.
pub open spec fn hours_text(minutes: int) -> Seq<char> {
    if trunc_rem(minutes, 60) == 0 {
        signed_decimal(trunc_div(minutes, 60))
    } else {
        trim_end_char(two_decimals(minutes), '0')
    }
}

/// The sum of whole euros over the first `k` rows.
pub open spec fn euros_sum(rows: Seq<EstimateRow>, k: int) -> int
    decreases k,
{
    if k <= 0 {
        0
    } else {
        euros_sum(rows, k - 1) + trunc_div(rows[k - 1].2 as int, 100)
    }
}

/// The sum of whole minimum hours over the first `k` rows.
pub open spec fn min_hours_sum(rows: Seq<EstimateRow>, k: int) -> int
    decreases k,
{
    if k <= 0 {
        0
    } else {
        min_hours_sum(rows, k - 1) + trunc_div(rows[k - 1].0 as int, 60)
    }
}

/// The sum of whole maximum hours over the first `k` rows, or `None` where
/// one of them has no maximum.
pub open spec fn max_hours_sum(rows: Seq<EstimateRow>, k: int) -> Option<int>
    decreases k,
{
    if k <= 0 {
        Some(0)
    } else {
        match (max_hours_sum(rows, k - 1), rows[k - 1].1) {
            (Some(s), Some(m)) => Some(s + trunc_div(m as int, 60)),
            _ => None,
        }
    }
}

/// The rows with each maximum put in the place of the minimum (zero where
/// there is no maximum).
pub open spec fn maxima_as_minima(rows: Seq<EstimateRow>) -> Seq<EstimateRow> {
    Seq::new(
        rows.len(),
        |i: int|
            (
                match rows[i].1 {
                    Some(m) => m,
                    None => 0i32,
                },
                rows[i].1,
                rows[i].2,
            ),
    )
}

/// The listed maximum is open as soon as one section has no maximum; where
/// every section has one, it is the sum of the maxima in whole hours, taken
/// just as the minima are summed.
pub proof fn lemma_max_hours_open(rows: Seq<EstimateRow>, k: int)
    requires
        0 <= k <= rows.len(),
    ensures
        max_hours_sum(rows, k) is None <==> exists|i: int| 0 <= i < k && (#[trigger] rows[i]).1 is None,
        (forall|i: int| 0 <= i < k ==> (#[trigger] rows[i]).1 is Some) ==> max_hours_sum(rows, k)
            == Some(min_hours_sum(maxima_as_minima(rows), k)),
    decreases k,
{
    if k > 0 {
        lemma_max_hours_open(rows, k - 1);
        if exists|i: int| 0 <= i < k - 1 && (#[trigger] rows[i]).1 is None {
            let i = choose|i: int| 0 <= i < k - 1 && (#[trigger] rows[i]).1 is None;
            assert(0 <= i < k && rows[i].1 is None);
        }
        if rows[k - 1].1 is None {
            assert(exists|i: int| 0 <= i < k && (#[trigger] rows[i]).1 is None);
        }
        if forall|i: int| 0 <= i < k ==> (#[trigger] rows[i]).1 is Some {
            assert forall|i: int| 0 <= i < k - 1 implies (#[trigger] rows[i]).1 is Some by {
                assert(rows[i].1 is Some);
            }
            assert(rows[k - 1].1 is Some);
            assert(maxima_as_minima(rows)[k - 1].0 == rows[k - 1].1->0);
        }
    }
}

/// Every running sum of the list line fits its type.
pub open spec fn sums_fit(rows: Seq<EstimateRow>) -> bool {
    &&& forall|k: int|
        0 <= k <= rows.len() ==> i64::MIN <= #[trigger] euros_sum(rows, k) <= i64::MAX
    &&& forall|k: int|
        0 <= k <= rows.len() ==> i32::MIN <= #[trigger] min_hours_sum(rows, k) <= i32::MAX
    &&& forall|k: int|
        0 <= k <= rows.len() ==> (#[trigger] max_hours_sum(rows, k) matches Some(s) ==> i32::MIN
            <= s <= i32::MAX)
}

/// The name under which a recipient is listed: the discord ID where the
/// stored display name is just that ID.
pub open spec fn recipient_name_text(discord_id: Seq<char>, display_name: Seq<char>) -> Seq<char> {
    if display_name == discord_id {
        discord_id
    } else {
        display_name
    }
}

/// The first character of `name` in upper case, or `?` for an empty name.
pub fn initial(name: &str) -> (r: String)
    ensures
        r@ == initial_text(name@),
{
    let v = chars_of(name);
    let c = if v.len() > 0 {
        v[0]
    } else {
        '?'
    };
    uppercase_char(c)
}

/// The address of the avatar `hash` of the Discord user `discord_id`.
pub fn avatar_url(discord_id: &str, hash: &str) -> (r: String)
    ensures
        r@ == avatar_url_text(discord_id@, hash@),
{
    let mut out = chars_of("https://cdn.discordapp.com/avatars/");
    append_str(&mut out, discord_id);
    out.push('/');
    append_str(&mut out, hash);
    append_str(&mut out, ".webp?size=64");
    assert(out@ =~= avatar_url_text(discord_id@, hash@));
    string_of(&out)
}

/// A duration in minutes as hours for the edit form.
pub fn hours(minutes: i32) -> (r: String)
    ensures
        r@ == hours_text(minutes as int),
{
    let m = minutes as i128;
    let q: u64 = if m < 0 {
        (0 - m) as u64
    } else {
        m as u64
    };
    let whole = (q / 60) as i128;
    let h_int: i128 = if m < 0 {
        0 - whole
    } else {
        whole
    };
    let mut out: Vec<char> = Vec::new();
    if m - 60 * h_int == 0 {
        crate::decimal::push_signed(h_int, &mut out);
        return string_of(&out);
    }
    let h: u64 = (200 * q + 60) / 120;
    if m < 0 {
        out.push('-');
    }
    push_decimal((h / 100) as u128, &mut out);
    out.push('.');
    out.push(((((h % 100) / 10) as u8) + 48) as char);
    out.push((((h % 10) as u8) + 48) as char);
    assert(out@ =~= two_decimals(minutes as int));
    while out.len() > 0 && out[out.len() - 1] == '0'
        invariant
            trim_end_char(out@, '0') == trim_end_char(two_decimals(minutes as int), '0'),
        decreases out.len(),
    {
        out.pop();
    }
    string_of(&out)
}

/// Whether every running sum of a list line fits its type.
pub fn list_sums_fit(estimates: &Vec<EstimateRow>) -> (r: bool)
    ensures
        r == sums_fit(estimates@),
{
    let mut total: i128 = 0;
    let mut min_total: i128 = 0;
    let mut max_total: Option<i128> = Some(0);
    let mut i: usize = 0;
    while i < estimates.len()
        invariant
            i <= estimates.len(),
            total == euros_sum(estimates@, i as int),
            min_total == min_hours_sum(estimates@, i as int),
            match max_hours_sum(estimates@, i as int) {
                Some(s) => max_total == Some(s as i128),
                None => max_total is None,
            },
            forall|k: int| 0 <= k <= i ==> i64::MIN <= #[trigger] euros_sum(estimates@, k) <= i64::MAX,
            forall|k: int|
                0 <= k <= i ==> i32::MIN <= #[trigger] min_hours_sum(estimates@, k) <= i32::MAX,
            forall|k: int|
                0 <= k <= i ==> (#[trigger] max_hours_sum(estimates@, k) matches Some(s) ==> i32::MIN
                    <= s <= i32::MAX),
        decreases estimates.len() - i,
    {
        let (lo, hi, cents) = estimates[i];
        let e: i128 = if cents >= 0 {
            (cents / 100) as i128
        } else {
            0 - ((0 - (cents as i128)) / 100)
        };
        let l: i128 = if lo >= 0 {
            (lo / 60) as i128
        } else {
            0 - ((0 - (lo as i128)) / 60)
        };
        total = total + e;
        min_total = min_total + l;
        max_total = match (max_total, hi) {
            (Some(s), Some(m)) => {
                let x: i128 = if m >= 0 {
                    (m / 60) as i128
                } else {
                    0 - ((0 - (m as i128)) / 60)
                };
                Some(s + x)
            },
            _ => None,
        };
        if total < i64::MIN as i128 || total > i64::MAX as i128 || min_total < i32::MIN as i128
            || min_total > i32::MAX as i128 {
            assert(!sums_fit(estimates@)) by {
                assert(!(i64::MIN <= euros_sum(estimates@, i + 1) <= i64::MAX) || !(i32::MIN
                    <= min_hours_sum(estimates@, i + 1) <= i32::MAX));
            }
            return false;
        }
        match max_total {
            Some(s) => if s < i32::MIN as i128 || s > i32::MAX as i128 {
                assert(!sums_fit(estimates@)) by {
                    assert(max_hours_sum(estimates@, i + 1) == Some(s as int));
                }
                return false;
            },
            None => {},
        }
        i += 1;
    }
    true
}

/// The administrator's list line for a stored quote, its recipient and the
/// estimates and prices of its sections.
pub fn admin_list_item(
    id: String,
    title: String,
    is_visible: bool,
    updated_at: i64,
    discord_id: String,
    display_name: String,
    avatar_hash: Option<String>,
    estimates: &Vec<EstimateRow>,
) -> (r: AdminQuoteListItem)
    requires
        sums_fit(estimates@),
    ensures
        r.reference@ == reference_text(id@),
        r.id == id,
        r.title == title,
        r.is_visible == is_visible,
        r.discord_id == discord_id,
        r.recipient_name@ == recipient_name_text(discord_id@, display_name@),
        r.recipient_initial@ == initial_text(recipient_name_text(discord_id@, display_name@)),
        match avatar_hash {
            Some(hash) => r.recipient_avatar matches Some(url) && url@ == avatar_url_text(
                discord_id@,
                hash@,
            ),
            None => r.recipient_avatar is None,
        },
        r.total_euros == euros_sum(estimates@, estimates@.len() as int),
        r.min_hours == min_hours_sum(estimates@, estimates@.len() as int),
        match max_hours_sum(estimates@, estimates@.len() as int) {
            Some(s) => r.max_hours == Some(s as i32),
            None => r.max_hours is None,
        },
        (exists|i: int| 0 <= i < estimates@.len() && (#[trigger] estimates@[i]).1 is None)
            ==> r.max_hours is None,
        r.updated_at@ == date_text(unix_date(updated_at)),
{
    proof {
        lemma_max_hours_open(estimates@, estimates@.len() as int);
    }
    let name = if display_name == discord_id {
        discord_id.clone()
    } else {
        display_name
    };
    let mut total: i64 = 0;
    let mut min_total: i32 = 0;
    let mut max_total: Option<i32> = Some(0);
    let mut i: usize = 0;
    while i < estimates.len()
        invariant
            i <= estimates.len(),
            sums_fit(estimates@),
            total == euros_sum(estimates@, i as int),
            min_total == min_hours_sum(estimates@, i as int),
            match max_hours_sum(estimates@, i as int) {
                Some(s) => max_total == Some(s as i32),
                None => max_total is None,
            },
        decreases estimates.len() - i,
    {
        let (lo, hi, cents) = estimates[i];
        assert(i64::MIN <= euros_sum(estimates@, i + 1) <= i64::MAX);
        assert(i32::MIN <= min_hours_sum(estimates@, i + 1) <= i32::MAX);
        let e = if cents >= 0 {
            cents / 100
        } else {
            0 - ((0 - (cents as i128)) / 100) as i64
        };
        total = total + e;
        let l = if lo >= 0 {
            lo / 60
        } else {
            0 - ((0 - (lo as i64)) / 60) as i32
        };
        min_total = min_total + l;
        max_total = match (max_total, hi) {
            (Some(s), Some(m)) => {
                assert(max_hours_sum(estimates@, i + 1) matches Some(t) && i32::MIN <= t
                    <= i32::MAX);
                let x = if m >= 0 {
                    m / 60
                } else {
                    0 - ((0 - (m as i64)) / 60) as i32
                };
                Some(s + x)
            },
            _ => None,
        };
        i += 1;
    }
    AdminQuoteListItem {
        reference: reference(id.as_str()),
        recipient_avatar: match avatar_hash {
            Some(hash) => Some(avatar_url(discord_id.as_str(), hash.as_str())),
            None => None,
        },
        recipient_initial: initial(name.as_str()),
        recipient_name: name,
        discord_id,
        id,
        title,
        is_visible,
        total_euros: total,
        min_hours: min_total,
        max_hours: max_total,
        updated_at: date(updated_at),
    }
}

/// The recipient `discord_id` as the administrator sees it, from the stored
/// user's display name and avatar hash where there is such a user. A stored
/// name equal to the ID is no name.
pub fn recipient(discord_id: String, row: Option<(String, Option<String>)>) -> (r:
    RecipientView)
    ensures
        r.discord_id == discord_id,
        match row {
            Some((name, hash)) if name@ != discord_id@ => {
                &&& r.display_name matches Some(n) && n == name
                &&& match hash {
                    Some(h) => r.avatar_url matches Some(u) && u@ == avatar_url_text(
                        discord_id@,
                        h@,
                    ),
                    None => r.avatar_url is None,
                }
                &&& r.initial@ == initial_text(name@)
            },
            _ => {
                &&& r.display_name is None
                &&& r.avatar_url is None
                &&& r.initial@ == initial_text(discord_id@)
            },
        },
{
    let known = match row {
        Some((name, hash)) => if name == discord_id {
            None
        } else {
            Some((name, hash))
        },
        None => None,
    };
    match known {
        Some((name, hash)) => {
            let avatar = match hash {
                Some(h) => Some(avatar_url(discord_id.as_str(), h.as_str())),
                None => None,
            };
            RecipientView {
                initial: initial(name.as_str()),
                discord_id,
                display_name: Some(name),
                avatar_url: avatar,
            }
        },
        None => RecipientView {
            initial: initial(discord_id.as_str()),
            discord_id,
            display_name: None,
            avatar_url: None,
        },
    }
}

/// `s` is the edit form's section for a stored section.
pub open spec fn shown_section(
    s: QuoteFormSection,
    title: String,
    description: String,
    minimum: i32,
    maximum: Option<i32>,
    price_cents: i64,
) -> bool {
    &&& s.title == title
    &&& s.description == description
    &&& s.min_hours@ == hours_text(minimum as int)
    &&& s.max_hours@ == match maximum {
        Some(m) => hours_text(m as int),
        None => Seq::empty(),
    }
    &&& s.price_euros@ == signed_decimal(trunc_div(price_cents as int, 100))
}

/// A stored section as the edit form shows it: hours for the estimates,
/// whole euros for the price, an empty maximum where there is none.
pub fn form_section(
    title: String,
    description: String,
    minimum: i32,
    maximum: Option<i32>,
    price_cents: i64,
) -> (r: QuoteFormSection)
    ensures
        shown_section(r, title, description, minimum, maximum, price_cents),
{
    let euros = if price_cents >= 0 {
        price_cents / 100
    } else {
        0 - ((0 - (price_cents as i128)) / 100) as i64
    };
    QuoteFormSection {
        title,
        description,
        min_hours: hours(minimum),
        max_hours: match maximum {
            Some(m) => hours(m),
            None => String::new(),
        },
        price_euros: crate::decimal::i64_to_string(euros),
    }
}

/// The outcome of saving a checked form: the stored quote's ID, or the form
/// back with a message where the quote to update no longer exists.
pub fn save_outcome(form: QuoteForm, stored: Option<String>) -> (r: Result<String, QuoteForm>)
    ensures
        match stored {
            Some(id) => r == Ok::<String, QuoteForm>(id),
            None => r matches Err(f) && f.error matches Some(m) && m@ == error_message(
                FormError::QuoteMissing,
            ) && f.id == form.id && f.discord_id == form.discord_id && f.title == form.title
                && f.description == form.description && f.is_visible == form.is_visible
                && f.sections == form.sections,
        },
{
    match stored {
        Some(id) => Ok(id),
        None => {
            let mut form = form;
            form.error = Some(FormError::QuoteMissing.message());
            Err(form)
        },
    }
}


/// `r` is the edit form for a stored quote and its sections `rows` in order.
pub open spec fn edit_form_shows(
    r: QuoteForm,
    quote_id: String,
    discord_id: String,
    title: String,
    description: String,
    is_visible: bool,
    rows: Seq<SectionRow>,
) -> bool {
    &&& r.id == Some(quote_id)
    &&& r.discord_id == discord_id
    &&& r.title == title
    &&& r.description == description
    &&& r.is_visible == is_visible
    &&& r.error is None
    &&& r.sections@.len() == rows.len()
    &&& forall|i: int|
        0 <= i < rows.len() ==> shown_section(
            #[trigger] r.sections@[i],
            rows[i].0,
            rows[i].1,
            rows[i].2,
            rows[i].3,
            rows[i].4,
        )
}

/// The edit form for a stored quote and its sections in order.
pub fn edit_form(
    quote_id: String,
    discord_id: String,
    title: String,
    description: String,
    is_visible: bool,
    rows: Vec<SectionRow>,
) -> (r: QuoteForm)
    ensures
        edit_form_shows(r, quote_id, discord_id, title, description, is_visible, rows@),
{
    let ghost rows0 = rows@;
    let n = rows.len();
    let mut reversed = into_reversed(rows);
    let mut sections: Vec<QuoteFormSection> = Vec::new();
    let mut i: usize = 0;
    while reversed.len() > 0
        invariant
            i + reversed@.len() == n == rows0.len(),
            forall|j: int| 0 <= j < reversed@.len() ==> #[trigger] reversed@[j] == rows0[n - 1 - j],
            sections@.len() == i,
            forall|k: int|
                0 <= k < i ==> shown_section(
                    #[trigger] sections@[k],
                    rows0[k].0,
                    rows0[k].1,
                    rows0[k].2,
                    rows0[k].3,
                    rows0[k].4,
                ),
        decreases reversed@.len(),
    {
        let (t, d, min, max, cents) = reversed.pop().unwrap();
        assert((t, d, min, max, cents) == rows0[i as int]);
        sections.push(form_section(t, d, min, max, cents));
        i += 1;
    }
    QuoteForm {
        id: Some(quote_id),
        discord_id,
        title,
        description,
        is_visible,
        sections,
        error: None,
    }
}

/// Text that starts with a non-space does not trim to nothing.
proof fn lemma_trim_nonempty(s: Seq<char>)
    requires
        s.len() > 0,
        !is_white_space(s[0]),
    ensures
        trim(s).len() > 0,
    decreases s.len(),
{
    assert(trim_start(s) == s);
    lemma_trim_end_keeps_first(s);
}

proof fn lemma_trim_end_keeps_first(s: Seq<char>)
    requires
        s.len() > 0,
        !is_white_space(s[0]),
    ensures
        trim_end(s).len() > 0,
    decreases s.len(),
{
    if s.len() > 1 && is_white_space(s.last()) {
        lemma_trim_end_keeps_first(s.drop_last());
    }
}

/// Hours of a whole number `h` of hours read back as that number.
proof fn lemma_whole_hours_read(minutes: int)
    requires
        0 < minutes <= i32::MAX,
        minutes % 60 == 0,
    ensures
        trunc_rem(minutes, 60) == 0,
        hours_text(minutes) == signed_decimal(minutes / 60),
        spec_positive_i32(hours_text(minutes)) == Some((minutes / 60) as i32),
        trim(hours_text(minutes)).len() > 0,
{
    lemma_parse_signed_decimal(minutes / 60);
    lemma_decimal((minutes / 60) as nat);
    let t = decimal((minutes / 60) as nat);
    assert(is_ascii_digit(t[0]));
    lemma_trim_nonempty(t);
}

/// A checked section shown in the edit form and checked again gives back the
/// same numbers and text, where its estimates are whole hours and its price
/// whole euros.
pub proof fn lemma_edit_round_trip(
    s: QuoteFormSection,
    title: String,
    description: String,
    minimum: i32,
    maximum: Option<i32>,
    price_cents: i64,
)
    requires
        shown_section(s, title, description, minimum, maximum, price_cents),
        title@ == trim(title@),
        title@.len() > 0,
        description@ == trim(description@),
        description@.len() > 0,
        minimum > 0,
        minimum % 60 == 0,
        maximum matches Some(m) ==> m >= minimum && m % 60 == 0,
        price_cents >= 0,
        price_cents % 100 == 0,
    ensures
        section_check(s) == Ok::<SectionNumbers, FormError>((minimum, maximum, price_cents)),
        trim(s.title@) == title@,
        trim(s.description@) == description@,
{
    lemma_whole_hours_read(minimum as int);
    let euros = (price_cents as int) / 100;
    lemma_parse_signed_decimal(euros);
    lemma_decimal(euros as nat);
    assert(euros * 100 == price_cents) by {
        vstd::arithmetic::div_mod::lemma_fundamental_div_mod(price_cents as int, 100);
    }
    assert(minimum as int / 60 * 60 == minimum) by {
        vstd::arithmetic::div_mod::lemma_fundamental_div_mod(minimum as int, 60);
    }
    if let Some(m) = maximum {
        lemma_whole_hours_read(m as int);
        assert(m as int / 60 * 60 == m) by {
            vstd::arithmetic::div_mod::lemma_fundamental_div_mod(m as int, 60);
        }
        assert(m as int / 60 >= minimum as int / 60) by {
            vstd::arithmetic::div_mod::lemma_div_is_ordered(minimum as int, m as int, 60);
        }
    } else {
        assert(trim(Seq::<char>::empty()) =~= Seq::<char>::empty());
    }
}

/// `rows` are the stored sections of the checked quote `input`, in order.
pub open spec fn stored_rows(input: QuoteInput, rows: Seq<SectionRow>) -> bool {
    &&& rows.len() == input.sections@.len()
    &&& forall|i: int|
        0 <= i < rows.len() ==> {
            let s = input.sections@[i];
            #[trigger] rows[i] == (s.title, s.description, s.min_minutes, s.max_minutes, s.price_cents)
        }
}

/// Hours of a checked estimate: its whole hours.
proof fn lemma_checked_hours(minutes: int)
    requires
        minutes > 0,
        minutes % 60 == 0,
    ensures
        hours_text(minutes) == signed_decimal(minutes / 60),
{
    vstd::arithmetic::div_mod::lemma_fundamental_div_mod(minutes, 60);
}

/// A saved quote's edit form shows what was saved: the checked text, whole
/// hours for the estimates, an empty maximum where there is none, and whole
/// euros for the price.
pub proof fn lemma_saved_quote_edit_form(
    form: QuoteForm,
    input: QuoteInput,
    rows: Seq<SectionRow>,
    id: String,
    g: QuoteForm,
)
    requires
        form_check(form) is Ok,
        checked_input(input, form, form_check(form)->Ok_0),
        stored_rows(input, rows),
        edit_form_shows(
            g,
            id,
            input.discord_id,
            input.title,
            input.description,
            input.is_visible,
            rows,
        ),
    ensures
        g.id == Some(id),
        g.error is None,
        g.discord_id == input.discord_id,
        g.title == input.title,
        g.description == input.description,
        g.is_visible == input.is_visible,
        g.sections@.len() == input.sections@.len(),
        forall|i: int|
            0 <= i < input.sections@.len() ==> {
                let a = #[trigger] g.sections@[i];
                let b = input.sections@[i];
                &&& a.title == b.title
                &&& a.description == b.description
                &&& a.min_hours@ == signed_decimal(b.min_minutes / 60)
                &&& a.max_hours@ == match b.max_minutes {
                    Some(m) => signed_decimal(m / 60),
                    None => Seq::empty(),
                }
                &&& a.price_euros@ == signed_decimal(b.price_cents / 100)
            },
{
    let nums = form_check(form)->Ok_0;
    lemma_checked_form(form);
    assert forall|i: int| 0 <= i < input.sections@.len() implies {
        let a = #[trigger] g.sections@[i];
        let b = input.sections@[i];
        &&& a.title == b.title
        &&& a.description == b.description
        &&& a.min_hours@ == signed_decimal(b.min_minutes / 60)
        &&& a.max_hours@ == match b.max_minutes {
            Some(m) => signed_decimal(m / 60),
            None => Seq::empty(),
        }
        &&& a.price_euros@ == signed_decimal(b.price_cents / 100)
    } by {
        let b = input.sections@[i];
        assert(rows[i] == (b.title, b.description, b.min_minutes, b.max_minutes, b.price_cents));
        assert(section_check(form.sections@[i]) == Ok::<SectionNumbers, FormError>(nums[i]));
        lemma_checked_section(form.sections@[i]);
        assert((b.min_minutes, b.max_minutes, b.price_cents) == nums[i]);
        lemma_checked_hours(b.min_minutes as int);
        if let Some(m) = b.max_minutes {
            lemma_checked_hours(m as int);
        }
        assert(shown_section(g.sections@[i], b.title, b.description, b.min_minutes, b.max_minutes, b.price_cents));
    }
}
} // verus!
