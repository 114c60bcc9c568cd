//! The quote editing form: reading it from submitted fields and checking it
//! into a quote that can be stored.
use std::collections::BTreeSet;
use vstd::prelude::*;
use vstd::std_specs::btree::{increasing_seq, spec_btree_keys_iter};
use vstd::laws_cmp::obeys_cmp;
use vstd::std_specs::cmp::OrdSpec;
use vstd::std_specs::iter::IteratorSpec;
use crate::decimal::{
    chars_to_usize, decimal, lemma_decimal, lemma_parse_signed_decimal, parse_i32, parse_i64,
    parse_usize, push_decimal, str_to_i32, str_to_i64,
};
use crate::fields::{field_value, FormFields};
use crate::text::{
    all_ascii_digits, append_str, ascii_digit, before_char, chars_of, find_char, has_prefix,
    is_blank, slice_chars, starts_with, string_of, trim, trimmed,
};

verus! {

/// The quote form as an administrator fills it in.
#[derive(Debug)]
pub struct QuoteForm {
    pub id: Option<String>,
    pub discord_id: String,
    pub title: String,
    pub description: String,
    pub is_visible: bool,
    pub sections: Vec<QuoteFormSection>,
    pub error: Option<String>,
}

/// One section of the quote form, as entered text.
#[derive(Debug)]
pub struct QuoteFormSection {
    pub title: String,
    pub description: String,
    pub min_hours: String,
    pub max_hours: String,
    pub price_euros: String,
}

/// A checked quote, ready to be stored.
#[derive(Debug)]
pub struct QuoteInput {
    pub discord_id: String,
    pub title: String,
    pub description: String,
    pub is_visible: bool,
    pub sections: Vec<SectionInput>,
}

/// A checked section: estimates in minutes, price in cents.
#[derive(Debug)]
pub struct SectionInput {
    pub title: String,
    pub description: String,
    pub min_minutes: i32,
    pub max_minutes: Option<i32>,
    pub price_cents: i64,
}

/// Why a quote form was refused.
#[derive(Debug, Clone, Copy, PartialEq, Eq)]
pub enum FormError {
    InvalidDiscordId,
    MissingTitleOrDescription,
    NoSections,
    IncompleteSection,
    MinimumTooLarge,
    MaximumTooLarge,
    PriceTooLarge,
    QuoteMissing,
}

/// The message shown for each refusal.
pub open spec fn error_message(e: FormError) -> Seq<char> {
    match e {
        FormError::InvalidDiscordId => "Enter a valid Discord ID."@,
        FormError::MissingTitleOrDescription => "Title and description are required."@,
        FormError::NoSections => "Add at least one section."@,
        FormError::IncompleteSection =>
            "Complete every section with valid whole hours and a non-negative price."@,
        FormError::MinimumTooLarge => "The minimum estimate is too large."@,
        FormError::MaximumTooLarge => "The maximum estimate is too large."@,
        FormError::PriceTooLarge => "The price is too large."@,
        FormError::QuoteMissing => "This quote no longer exists."@,
    }
}

impl FormError {
    /// The message shown for this refusal.
    pub fn message(&self) -> (r: String)
        ensures
            r@ == error_message(*self),
    {
        let v = match self {
            FormError::InvalidDiscordId => chars_of("Enter a valid Discord ID."),
            FormError::MissingTitleOrDescription => chars_of("Title and description are required."),
            FormError::NoSections => chars_of("Add at least one section."),
            FormError::IncompleteSection => chars_of(
                "Complete every section with valid whole hours and a non-negative price.",
            ),
            FormError::MinimumTooLarge => chars_of("The minimum estimate is too large."),
            FormError::MaximumTooLarge => chars_of("The maximum estimate is too large."),
            FormError::PriceTooLarge => chars_of("The price is too large."),
            FormError::QuoteMissing => chars_of("This quote no longer exists."),
        };
        string_of(&v)
    }
}

/// A positive `i32` written in `s`.
pub open spec fn spec_positive_i32(s: Seq<char>) -> Option<i32> {
    match parse_i32(s) {
        Some(v) => if v > 0 {
            Some(v)
        } else {
            None
        },
        None => None,
    }
}

/// `Some(None)` for a blank `s`, `Some(Some(v))` for a positive `i32` in
/// `s`, else `None`.
pub open spec fn spec_optional_i32(s: Seq<char>) -> Option<Option<i32>> {
    if trim(s).len() == 0 {
        Some(None)
    } else {
        match spec_positive_i32(s) {
            Some(v) => Some(Some(v)),
            None => None,
        }
    }
}

/// A non-negative `i64` written in `s`.
pub open spec fn spec_non_negative_i64(s: Seq<char>) -> Option<i64> {
    match parse_i64(s) {
        Some(v) => if v >= 0 {
            Some(v)
        } else {
            None
        },
        None => None,
    }
}

/// The numbers of a checked section: minimum and maximum minutes, price in
/// cents.
pub type SectionNumbers = (i32, Option<i32>, i64);

/// The check of one section: its numbers, or why it was refused.
pub open spec fn section_check(s: QuoteFormSection) -> Result<SectionNumbers, FormError> {
    let minimum = spec_positive_i32(s.min_hours@);
    let maximum = spec_optional_i32(s.max_hours@);
    let price = spec_non_negative_i64(s.price_euros@);
    if trim(s.title@).len() == 0 || trim(s.description@).len() == 0 || minimum is None
        || maximum is None || (maximum matches Some(Some(v)) && v < minimum->0) || price is None {
        Err(FormError::IncompleteSection)
    } else {
        let min = minimum->0 as int;
        let max = maximum->0;
        let cents = price->0 as int;
        if min * 60 > i32::MAX {
            Err(FormError::MinimumTooLarge)
        } else if max matches Some(m) && m * 60 > i32::MAX {
            Err(FormError::MaximumTooLarge)
        } else if cents * 100 > i64::MAX {
            Err(FormError::PriceTooLarge)
        } else {
            Ok(
                (
                    (min * 60) as i32,
                    match max {
                        Some(m) => Some((m * 60) as i32),
                        None => None,
                    },
                    (cents * 100) as i64,
                ),
            )
        }
    }
}

/// The check of the sections in order: their numbers, or the refusal of the
/// first section refused.
pub open spec fn sections_check(s: Seq<QuoteFormSection>) -> Result<Seq<SectionNumbers>, FormError>
    decreases s.len(),
{
    if s.len() == 0 {
        Ok(Seq::empty())
    } else {
        match sections_check(s.drop_last()) {
            Err(e) => Err(e),
            Ok(prefix) => match section_check(s.last()) {
                Err(e) => Err(e),
                Ok(n) => Ok(prefix.push(n)),
            },
        }
    }
}

/// A Discord user ID: 17 to 20 ASCII digits once trimmed.
pub open spec fn valid_discord_id(s: Seq<char>) -> bool {
    17 <= trim(s).len() <= 20 && all_ascii_digits(trim(s))
}

/// The check of a whole form: the numbers of its sections, or the first
/// reason to refuse it.
pub open spec fn form_check(f: QuoteForm) -> Result<Seq<SectionNumbers>, FormError> {
    if !valid_discord_id(f.discord_id@) {
        Err(FormError::InvalidDiscordId)
    } else if trim(f.title@).len() == 0 || trim(f.description@).len() == 0 {
        Err(FormError::MissingTitleOrDescription)
    } else if f.sections@.len() == 0 {
        Err(FormError::NoSections)
    } else {
        sections_check(f.sections@)
    }
}

/// `input` is what a successful check of `form` gives: trimmed text and the
/// checked numbers `nums`.
pub open spec fn checked_input(input: QuoteInput, form: QuoteForm, nums: Seq<SectionNumbers>) -> bool {
    &&& input.discord_id@ == trim(form.discord_id@)
    &&& input.title@ == trim(form.title@)
    &&& input.description@ == trim(form.description@)
    &&& input.is_visible == form.is_visible
    &&& input.sections@.len() == form.sections@.len()
    &&& nums.len() == form.sections@.len()
    &&& forall|i: int|
        0 <= i < nums.len() ==> {
            let s = #[trigger] input.sections@[i];
            &&& s.title@ == trim(form.sections@[i].title@)
            &&& s.description@ == trim(form.sections@[i].description@)
            &&& (s.min_minutes, s.max_minutes, s.price_cents) == nums[i]
        }
}

/// The section number that a field name addresses: the name is
/// `sections.<index>.<rest>` with an index that parses as a `usize`.
pub open spec fn section_index(name: Seq<char>) -> Option<usize> {
    if starts_with(name, "sections."@) {
        match before_char(name.subrange(9, name.len() as int), '.') {
            Some(index) => parse_usize(index),
            None => None,
        }
    } else {
        None
    }
}

/// The section numbers that the submitted fields address.
pub open spec fn section_indexes(m: Map<Seq<char>, Seq<char>>) -> Set<usize> {
    Set::new(|n: usize| exists|k: Seq<char>| m.contains_key(k) && section_index(k) == Some(n))
}

/// The name of the field `name` of section `n`.
pub open spec fn section_field(n: usize, name: Seq<char>) -> Seq<char> {
    "sections."@ + decimal(n as nat) + seq!['.'] + name
}

/// `s` holds the fields of section `n`.
pub open spec fn section_from_fields(s: QuoteFormSection, m: Map<Seq<char>, Seq<char>>, n: usize) -> bool {
    &&& s.title@ == field_value(m, section_field(n, "title"@))
    &&& s.description@ == field_value(m, section_field(n, "description"@))
    &&& s.min_hours@ == field_value(m, section_field(n, "min_hours"@))
    &&& s.max_hours@ == field_value(m, section_field(n, "max_hours"@))
    &&& s.price_euros@ == field_value(m, section_field(n, "price_euros"@))
}

/// `r` is the form read from the submitted fields `m` under the ID `id`:
/// the quote's own fields, and one section for each section number that a
/// field addresses, in increasing order.
pub open spec fn read_from_fields(r: QuoteForm, m: Map<Seq<char>, Seq<char>>, id: Option<String>) -> bool {
    &&& r.id == id
    &&& r.discord_id@ == field_value(m, "discord_id"@)
    &&& r.title@ == field_value(m, "title"@)
    &&& r.description@ == field_value(m, "description"@)
    &&& r.is_visible == m.contains_key("is_visible"@)
    &&& r.error is None
    &&& exists|idx: Seq<usize>|
        {
            &&& strictly_increasing(idx)
            &&& idx.to_set() == section_indexes(m)
            &&& r.sections@.len() == idx.len()
            &&& forall|i: int|
                0 <= i < idx.len() ==> section_from_fields(#[trigger] r.sections@[i], m, idx[i])
        }
}

/// `idx` is strictly increasing.
pub open spec fn strictly_increasing(idx: Seq<usize>) -> bool {
    forall|i: int, j: int| 0 <= i < j < idx.len() ==> idx[i] < idx[j]
}

/// Every text of `s` is empty.
pub open spec fn empty_section(s: QuoteFormSection) -> bool {
    &&& s.title@.len() == 0
    &&& s.description@.len() == 0
    &&& s.min_hours@.len() == 0
    &&& s.max_hours@.len() == 0
    &&& s.price_euros@.len() == 0
}

impl QuoteFormSection {
    /// A section with every text empty.
    pub fn empty() -> (r: QuoteFormSection)
        ensures
            empty_section(r),
    {
        QuoteFormSection {
            title: String::new(),
            description: String::new(),
            min_hours: String::new(),
            max_hours: String::new(),
            price_euros: String::new(),
        }
    }
}

/// The value of the field `name`, or the empty string.
pub fn field(fields: &FormFields, name: &str) -> (r: String)
    ensures
        r@ == field_value(fields@, name@),
{
    let key = chars_of(name);
    fields.field(&key)
}

/// A positive `i32` written in `value`.
pub fn positive_i32(value: &str) -> (r: Option<i32>)
    ensures
        r == spec_positive_i32(value@),
{
    match str_to_i32(value) {
        Some(v) => if v > 0 {
            Some(v)
        } else {
            None
        },
        None => None,
    }
}

/// `Some(None)` for blank text, `Some(Some(v))` for a positive `i32`, else
/// `None`.
pub fn optional_i32(value: &str) -> (r: Option<Option<i32>>)
    ensures
        r == spec_optional_i32(value@),
{
    if is_blank(value) {
        Some(None)
    } else {
        match positive_i32(value) {
            Some(v) => Some(Some(v)),
            None => None,
        }
    }
}

/// A non-negative `i64` written in `value`.
pub fn non_negative_i64(value: &str) -> (r: Option<i64>)
    ensures
        r == spec_non_negative_i64(value@),
{
    match str_to_i64(value) {
        Some(v) => if v >= 0 {
            Some(v)
        } else {
            None
        },
        None => None,
    }
}

/// The section number addressed by the field name `name`, if any.
fn index_of_field(name: &Vec<char>) -> (r: Option<usize>)
    ensures
        r == section_index(name@),
{
    let prefix = chars_of("sections.");
    proof {
        reveal_strlit("sections.");
    }
    if !has_prefix(name, &prefix) {
        return None;
    }
    let rest = slice_chars(name, 9, name.len());
    match find_char(&rest, '.') {
        Some(p) => {
            let index = slice_chars(&rest, 0, p);
            assert(index@ == rest@.take(p as int));
            chars_to_usize(&index)
        },
        None => None,
    }
}

/// `a` comes before `b` in the order of `K`.
spec fn ordered_before<K: Ord>(a: K, b: K) -> bool {
    a.cmp_spec(&b) is Less
}

/// The members of `set` in increasing order.
fn in_increasing_order(set: &BTreeSet<usize>) -> (r: Vec<usize>)
    ensures
        strictly_increasing(r@),
        r@.to_set() == set@,
{
    let mut out: Vec<usize> = Vec::new();
    for x in it: set.iter()
        invariant
            out@.len() == it.index(),
            forall|j: int| 0 <= j < it.index() ==> out@[j] == *#[trigger] it.seq()[j],
    {
        out.push(*x);
    }
    proof {
        let keys = spec_btree_keys_iter(set).remaining();
        assert(out@ =~= keys.unref());
        assert(obeys_cmp::<&usize>());
        assert(increasing_seq(keys));
        assert forall|i: int, j: int| 0 <= i < j < out@.len() implies out@[i] < out@[j] by {
            assert(ordered_before::<&usize>(keys[i], keys[j]));
        }
    }
    out
}

/// The section numbers addressed by the fields, in increasing order.
fn field_section_indexes(fields: &FormFields) -> (r: Vec<usize>)
    ensures
        strictly_increasing(r@),
        r@.to_set() == section_indexes(fields@),
{
    let n = fields.len();
    let mut set: BTreeSet<usize> = BTreeSet::new();
    let mut i: usize = 0;
    while i < n
        invariant
            i <= n == fields.names().len(),
            forall|x: usize|
                set@.contains(x) <==> exists|j: int|
                    0 <= j < i && section_index(#[trigger] fields.names()[j]) == Some(x),
        decreases n - i,
    {
        let name = fields.name_at(i);
        let ghost before = set@;
        match index_of_field(&name) {
            Some(x) => {
                set.insert(x);
                proof {
                    assert forall|y: usize|
                        set@.contains(y) <==> exists|j: int|
                            0 <= j < i + 1 && section_index(#[trigger] fields.names()[j]) == Some(
                                y,
                            ) by {
                        if set@.contains(y) && y != x {
                            assert(before.contains(y));
                        }
                        if exists|j: int|
                            0 <= j < i + 1 && section_index(#[trigger] fields.names()[j]) == Some(
                                y,
                            ) {
                            let j = choose|j: int|
                                0 <= j < i + 1 && section_index(#[trigger] fields.names()[j])
                                    == Some(y);
                            if j < i {
                                assert(before.contains(y));
                            }
                        }
                    }
                }
            },
            None => {
                proof {
                    assert forall|y: usize|
                        set@.contains(y) <==> exists|j: int|
                            0 <= j < i + 1 && section_index(#[trigger] fields.names()[j]) == Some(
                                y,
                            ) by {
                        if exists|j: int|
                            0 <= j < i + 1 && section_index(#[trigger] fields.names()[j]) == Some(
                                y,
                            ) {
                            let j = choose|j: int|
                                0 <= j < i + 1 && section_index(#[trigger] fields.names()[j])
                                    == Some(y);
                            assert(j < i);
                        }
                    }
                }
            },
        }
        i += 1;
    }
    proof {
        assert forall|x: usize| set@.contains(x) == section_indexes(fields@).contains(x) by {
            if set@.contains(x) {
                let j = choose|j: int|
                    0 <= j < n && section_index(#[trigger] fields.names()[j]) == Some(x);
                assert(fields.names().contains(fields.names()[j]));
                assert(fields@.contains_key(fields.names()[j]));
            }
            if section_indexes(fields@).contains(x) {
                let k = choose|k: Seq<char>| fields@.contains_key(k) && section_index(k) == Some(x);
                assert(fields.names().contains(k));
                let j = choose|j: int| 0 <= j < fields.names().len() && fields.names()[j] == k;
                assert(section_index(fields.names()[j]) == Some(x));
            }
        }
        assert(set@ =~= section_indexes(fields@));
    }
    in_increasing_order(&set)
}

/// The name of the field `name` of section `n`.
fn section_field_name(n: usize, name: &str) -> (r: Vec<char>)
    ensures
        r@ == section_field(n, name@),
{
    let mut key = chars_of("sections.");
    push_decimal(n as u128, &mut key);
    key.push('.');
    append_str(&mut key, name);
    key
}

/// The section `n` read from the fields.
fn section_of_fields(fields: &FormFields, n: usize) -> (r: QuoteFormSection)
    ensures
        section_from_fields(r, fields@, n),
{
    QuoteFormSection {
        title: fields.field(&section_field_name(n, "title")),
        description: fields.field(&section_field_name(n, "description")),
        min_hours: fields.field(&section_field_name(n, "min_hours")),
        max_hours: fields.field(&section_field_name(n, "max_hours")),
        price_euros: fields.field(&section_field_name(n, "price_euros")),
    }
}

impl QuoteForm {
    /// The empty quote form: no text, not visible, one empty section.
    pub fn empty() -> (r: QuoteForm)
        ensures
            r.id is None,
            r.discord_id@.len() == 0,
            r.title@.len() == 0,
            r.description@.len() == 0,
            !r.is_visible,
            r.sections@.len() == 1,
            empty_section(r.sections@[0]),
            r.error is None,
    {
        let mut sections: Vec<QuoteFormSection> = Vec::new();
        sections.push(QuoteFormSection::empty());
        QuoteForm {
            id: None,
            discord_id: String::new(),
            title: String::new(),
            description: String::new(),
            is_visible: false,
            sections,
            error: None,
        }
    }

    /// The form as submitted: the quote's own fields, and one section for
    /// each section number that a field addresses, in increasing order.
    pub fn from_fields(fields: &FormFields, id: Option<String>) -> (r: QuoteForm)
        ensures
            read_from_fields(r, fields@, id),
    {
        let indexes = field_section_indexes(fields);
        let mut sections: Vec<QuoteFormSection> = Vec::new();
        let mut i: usize = 0;
        while i < indexes.len()
            invariant
                i <= indexes.len(),
                sections@.len() == i,
                forall|j: int|
                    0 <= j < i ==> section_from_fields(
                        #[trigger] sections@[j],
                        fields@,
                        indexes@[j],
                    ),
            decreases indexes.len() - i,
        {
            sections.push(section_of_fields(fields, indexes[i]));
            i += 1;
        }
        QuoteForm {
            id,
            discord_id: field(fields, "discord_id"),
            title: field(fields, "title"),
            description: field(fields, "description"),
            is_visible: fields.contains_key("is_visible"),
            sections,
            error: None,
        }
    }
}


/// A refusal in a prefix of the sections is the refusal of all of them.
proof fn lemma_sections_check_err(s: Seq<QuoteFormSection>, k: int, e: FormError)
    requires
        0 <= k <= s.len(),
        sections_check(s.take(k)) == Err::<Seq<SectionNumbers>, FormError>(e),
    ensures
        sections_check(s) == Err::<Seq<SectionNumbers>, FormError>(e),
    decreases s.len() - k,
{
    if k == s.len() {
        assert(s.take(k) =~= s);
    } else {
        assert(s.take(k + 1).drop_last() =~= s.take(k));
        lemma_sections_check_err(s, k + 1, e);
    }
}

/// Checks one section of the form.
fn check_section(s: &QuoteFormSection) -> (r: Result<SectionInput, FormError>)
    ensures
        match r {
            Ok(input) => {
                &&& section_check(*s) == Ok::<SectionNumbers, FormError>(
                    (input.min_minutes, input.max_minutes, input.price_cents),
                )
                &&& input.title@ == trim(s.title@)
                &&& input.description@ == trim(s.description@)
            },
            Err(e) => section_check(*s) == Err::<SectionNumbers, FormError>(e),
        },
{
    let minimum = positive_i32(s.min_hours.as_str());
    let maximum = optional_i32(s.max_hours.as_str());
    let price = non_negative_i64(s.price_euros.as_str());
    let below_minimum = match maximum {
        Some(Some(value)) => value < match minimum {
            Some(m) => m,
            None => 0,
        },
        _ => false,
    };
    if is_blank(s.title.as_str()) || is_blank(s.description.as_str()) || minimum.is_none()
        || maximum.is_none() || below_minimum || price.is_none() {
        return Err(FormError::IncompleteSection);
    }
    let min_minutes = match minimum.unwrap().checked_mul(60) {
        Some(v) => v,
        None => {
            return Err(FormError::MinimumTooLarge);
        },
    };
    let max_minutes = match maximum.unwrap() {
        Some(value) => match value.checked_mul(60) {
            Some(v) => Some(v),
            None => {
                return Err(FormError::MaximumTooLarge);
            },
        },
        None => None,
    };
    let price_cents = match price.unwrap().checked_mul(100) {
        Some(v) => v,
        None => {
            return Err(FormError::PriceTooLarge);
        },
    };
    Ok(
        SectionInput {
            title: string_of(&trimmed(s.title.as_str())),
            description: string_of(&trimmed(s.description.as_str())),
            min_minutes,
            max_minutes,
            price_cents,
        },
    )
}

/// Whether `s`, once trimmed, is a Discord user ID.
fn discord_id_ok(s: &Vec<char>) -> (r: bool)
    ensures
        r == (17 <= s@.len() <= 20 && all_ascii_digits(s@)),
{
    if s.len() < 17 || s.len() > 20 {
        return false;
    }
    let mut i: usize = 0;
    while i < s.len()
        invariant
            i <= s.len(),
            forall|j: int| 0 <= j < i ==> crate::text::is_ascii_digit(#[trigger] s@[j]),
        decreases s.len() - i,
    {
        if !ascii_digit(s[i]) {
            return false;
        }
        i += 1;
    }
    true
}

impl QuoteForm {
    /// Records `error` as the form's message and refuses the form.
    fn invalid<T>(&mut self, error: FormError) -> (r: Result<T, ()>)
        ensures
            r is Err,
            final(self).error matches Some(m) && m@ == error_message(error),
            final(self).id == old(self).id,
            final(self).discord_id == old(self).discord_id,
            final(self).title == old(self).title,
            final(self).description == old(self).description,
            final(self).is_visible == old(self).is_visible,
            final(self).sections == old(self).sections,
    {
        self.error = Some(error.message());
        Err(())
    }

    /// Checks the form. Accepted, it gives the quote to store, with trimmed
    /// text, estimates in minutes and prices in cents, and the form stays as
    /// it was; refused, the form keeps the message of the first reason, and
    /// nothing else of it changes.
    pub fn validate(&mut self) -> (r: Result<QuoteInput, ()>)
        ensures
            r is Ok <==> form_check(*old(self)) is Ok,
            r matches Ok(input) ==> {
                &&& *final(self) == *old(self)
                &&& checked_input(input, *old(self), form_check(*old(self))->Ok_0)
            },
            r is Err ==> {
                &&& form_check(*old(self)) matches Err(e)
                &&& final(self).error matches Some(m) && m@ == error_message(e)
                &&& final(self).id == old(self).id
                &&& final(self).discord_id == old(self).discord_id
                &&& final(self).title == old(self).title
                &&& final(self).description == old(self).description
                &&& final(self).is_visible == old(self).is_visible
                &&& final(self).sections == old(self).sections
            },
    {
        let ghost form = *self;
        let discord_id = trimmed(self.discord_id.as_str());
        if !discord_id_ok(&discord_id) {
            return self.invalid(FormError::InvalidDiscordId);
        }
        if is_blank(self.title.as_str()) || is_blank(self.description.as_str()) {
            return self.invalid(FormError::MissingTitleOrDescription);
        }
        if self.sections.len() == 0 {
            return self.invalid(FormError::NoSections);
        }
        let mut sections: Vec<SectionInput> = Vec::with_capacity(self.sections.len());
        let ghost mut nums: Seq<SectionNumbers> = Seq::empty();
        let mut i: usize = 0;
        assert(form.sections@.take(0) =~= Seq::<QuoteFormSection>::empty());
        while i < self.sections.len()
            invariant
                *self == form,
                form == *old(self),
                i <= form.sections@.len(),
                form.sections@.len() > 0,
                valid_discord_id(form.discord_id@),
                trim(form.title@).len() != 0,
                trim(form.description@).len() != 0,
                sections_check(form.sections@.take(i as int)) == Ok::<
                    Seq<SectionNumbers>,
                    FormError,
                >(nums),
                sections@.len() == i,
                nums.len() == i,
                forall|j: int|
                    0 <= j < i ==> {
                        let s = #[trigger] sections@[j];
                        &&& s.title@ == trim(form.sections@[j].title@)
                        &&& s.description@ == trim(form.sections@[j].description@)
                        &&& (s.min_minutes, s.max_minutes, s.price_cents) == nums[j]
                    },
            decreases form.sections@.len() - i,
        {
            assert(form.sections@.take(i + 1).drop_last() =~= form.sections@.take(i as int));
            assert(form.sections@.take(i + 1).last() == form.sections@[i as int]);
            match check_section(&self.sections[i]) {
                Ok(section) => {
                    proof {
                        nums = nums.push((section.min_minutes, section.max_minutes, section.price_cents));
                    }
                    sections.push(section);
                },
                Err(e) => {
                    proof {
                        assert(sections_check(form.sections@.take(i + 1)) == Err::<
                            Seq<SectionNumbers>,
                            FormError,
                        >(e));
                        lemma_sections_check_err(form.sections@, i + 1, e);
                    }
                    return self.invalid(e);
                },
            }
            i += 1;
        }
        assert(form.sections@.take(form.sections@.len() as int) =~= form.sections@);
        Ok(
            QuoteInput {
                discord_id: string_of(&discord_id),
                title: string_of(&trimmed(self.title.as_str())),
                description: string_of(&trimmed(self.description.as_str())),
                is_visible: self.is_visible,
                sections,
            },
        )
    }
}


/// What a check lets through: a positive minimum of whole hours in minutes,
/// a maximum of whole hours no smaller than the minimum, and a non-negative
/// price of whole euros in cents.
pub proof fn lemma_checked_section(s: QuoteFormSection)
    requires
        section_check(s) is Ok,
    ensures
        ({
            let (min, max, cents) = section_check(s)->Ok_0;
            &&& min > 0
            &&& min % 60 == 0
            &&& (max matches Some(m) ==> m >= min && m % 60 == 0)
            &&& cents >= 0
            &&& cents % 100 == 0
        }),
{
    let minimum = spec_positive_i32(s.min_hours@)->0 as int;
    let price = spec_non_negative_i64(s.price_euros@)->0 as int;
    vstd::arithmetic::div_mod::lemma_mod_multiples_basic(minimum, 60);
    vstd::arithmetic::div_mod::lemma_mod_multiples_basic(price, 100);
    assert(minimum * 60 > 0) by (nonlinear_arith)
        requires
            minimum > 0,
    ;
    assert(price * 100 >= 0) by (nonlinear_arith)
        requires
            price >= 0,
    ;
    if let Some(Some(m)) = spec_optional_i32(s.max_hours@) {
        let mi = m as int;
        vstd::arithmetic::div_mod::lemma_mod_multiples_basic(mi, 60);
        assert(mi * 60 >= minimum * 60) by (nonlinear_arith)
            requires
                mi >= minimum,
        ;
    }
}

/// A checked quote keeps, in every section, what a check lets through.
pub proof fn lemma_checked_form(f: QuoteForm)
    requires
        form_check(f) is Ok,
    ensures
        form_check(f)->Ok_0.len() == f.sections@.len(),
        forall|i: int|
            0 <= i < f.sections@.len() ==> section_check(#[trigger] f.sections@[i]) == Ok::<
                SectionNumbers,
                FormError,
            >(form_check(f)->Ok_0[i]),
{
    lemma_sections_check_all(f.sections@);
}

/// Where all sections pass, each passes with its own numbers.
proof fn lemma_sections_check_all(s: Seq<QuoteFormSection>)
    requires
        sections_check(s) is Ok,
    ensures
        sections_check(s)->Ok_0.len() == s.len(),
        forall|i: int|
            0 <= i < s.len() ==> section_check(#[trigger] s[i]) == Ok::<SectionNumbers, FormError>(
                sections_check(s)->Ok_0[i],
            ),
    decreases s.len(),
{
    if s.len() > 0 {
        lemma_sections_check_all(s.drop_last());
        assert forall|i: int| 0 <= i < s.len() implies section_check(#[trigger] s[i]) == Ok::<
            SectionNumbers,
            FormError,
        >(sections_check(s)->Ok_0[i]) by {
            if i < s.len() - 1 {
                assert(s[i] == s.drop_last()[i]);
            }
        }
    }
}

/// A quote that the check accepts is complete: its Discord ID is 17 to 20
/// ASCII digits once trimmed, its title and description are not blank, it
/// has a section, and every section has a title and a description that are
/// not blank, a minimum of whole hours above zero, a maximum that is absent
/// or no smaller than the minimum, and a price of whole euros of zero or
/// more.
pub proof fn lemma_accepted_quote_is_complete(f: QuoteForm)
    requires
        form_check(f) is Ok,
    ensures
        17 <= trim(f.discord_id@).len() <= 20,
        forall|k: int|
            0 <= k < trim(f.discord_id@).len() ==> '0' <= #[trigger] trim(f.discord_id@)[k] <= '9',
        trim(f.title@).len() > 0,
        trim(f.description@).len() > 0,
        f.sections@.len() > 0,
        forall|i: int|
            0 <= i < f.sections@.len() ==> {
                let s = #[trigger] f.sections@[i];
                &&& trim(s.title@).len() > 0
                &&& trim(s.description@).len() > 0
                &&& spec_positive_i32(s.min_hours@) matches Some(lo) && lo > 0
                &&& (spec_optional_i32(s.max_hours@) matches Some(hi) && (hi matches Some(h)
                    ==> h >= spec_positive_i32(s.min_hours@)->0))
                &&& spec_non_negative_i64(s.price_euros@) matches Some(c) && c >= 0
            },
{
    lemma_sections_check_all(f.sections@);
    assert forall|i: int| 0 <= i < f.sections@.len() implies {
        let s = #[trigger] f.sections@[i];
        &&& trim(s.title@).len() > 0
        &&& trim(s.description@).len() > 0
        &&& spec_positive_i32(s.min_hours@) matches Some(lo) && lo > 0
        &&& (spec_optional_i32(s.max_hours@) matches Some(hi) && (hi matches Some(h) ==> h
            >= spec_positive_i32(s.min_hours@)->0))
        &&& spec_non_negative_i64(s.price_euros@) matches Some(c) && c >= 0
    } by {
        assert(section_check(f.sections@[i]) is Ok);
    }
}

/// The names of a section's fields.
pub open spec fn is_section_name(name: Seq<char>) -> bool {
    ||| name == "title"@
    ||| name == "description"@
    ||| name == "min_hours"@
    ||| name == "max_hours"@
    ||| name == "price_euros"@
}

/// The text of the field `name` of a section.
pub open spec fn section_text(s: QuoteFormSection, name: Seq<char>) -> Seq<char> {
    if name == "title"@ {
        s.title@
    } else if name == "description"@ {
        s.description@
    } else if name == "min_hours"@ {
        s.min_hours@
    } else if name == "max_hours"@ {
        s.max_hours@
    } else {
        s.price_euros@
    }
}

/// `m` holds exactly the fields that the form `f` submits: its own text
/// fields, `is_visible` where it is visible, and the fields of section `i`
/// under `sections.<i>.<name>`.
pub open spec fn submits(m: Map<Seq<char>, Seq<char>>, f: QuoteForm) -> bool {
    &&& m.contains_key("discord_id"@) && m["discord_id"@] == f.discord_id@
    &&& m.contains_key("title"@) && m["title"@] == f.title@
    &&& m.contains_key("description"@) && m["description"@] == f.description@
    &&& m.contains_key("is_visible"@) == f.is_visible
    &&& forall|i: usize, name: Seq<char>|
        i < f.sections@.len() && is_section_name(name) ==> m.contains_key(
            #[trigger] section_field(i, name),
        ) && m[section_field(i, name)] == section_text(f.sections@[i as int], name)
    &&& forall|k: Seq<char>|
        m.contains_key(k) ==> {
            ||| k == "discord_id"@
            ||| k == "title"@
            ||| k == "description"@
            ||| k == "is_visible"@
            ||| exists|i: usize, name: Seq<char>|
                i < f.sections@.len() && is_section_name(name) && k == #[trigger] section_field(
                    i,
                    name,
                )
        }
}

/// A section field's name addresses its section.
proof fn lemma_section_field_index(i: usize, name: Seq<char>)
    ensures
        section_index(section_field(i, name)) == Some(i),
{
    reveal_strlit("sections.");
    let d = decimal(i as nat);
    let key = section_field(i, name);
    lemma_decimal(i as nat);
    assert(key.subrange(0, 9) =~= "sections."@);
    let rest = key.subrange(9, key.len() as int);
    assert(rest =~= d + seq!['.'] + name);
    assert forall|j: int| 0 <= j < d.len() implies rest[j] != '.' by {
        assert(rest[j] == d[j]);
        assert(crate::text::is_ascii_digit(d[j]));
    }
    crate::text::lemma_before_char_at(rest, '.', d.len() as int);
    assert(rest.take(d.len() as int) =~= d);
    lemma_parse_signed_decimal(i as int);
}

/// The form's own field names address no section.
proof fn lemma_base_fields_index()
    ensures
        section_index("discord_id"@) is None,
        section_index("title"@) is None,
        section_index("description"@) is None,
        section_index("is_visible"@) is None,
{
    reveal_strlit("sections.");
    reveal_strlit("discord_id");
    reveal_strlit("title");
    reveal_strlit("description");
    reveal_strlit("is_visible");
    assert("discord_id"@.subrange(0, 9)[0] != "sections."@[0]);
    assert("description"@.subrange(0, 9)[0] != "sections."@[0]);
    assert("is_visible"@.subrange(0, 9)[0] != "sections."@[0]);
}

/// A strictly increasing sequence holding exactly `0..n` is `0, 1, ..., n - 1`.
proof fn lemma_increasing_range(idx: Seq<usize>, n: nat)
    requires
        n <= usize::MAX,
        strictly_increasing(idx),
        forall|x: usize| idx.to_set().contains(x) <==> x < n,
    ensures
        idx.len() == n,
        forall|i: int| 0 <= i < n ==> idx[i] == i,
{
    if idx.len() > 0 {
        lemma_increasing_prefix(idx, n, idx.len() - 1);
    }
    if idx.len() < n {
        let x = idx.len() as usize;
        assert(idx.to_set().contains(x));
        let p = choose|p: int| 0 <= p < idx.len() && idx[p] == x;
        assert(idx[p] == p);
    }
    if idx.len() > n {
        lemma_increasing_prefix(idx, n, n as int);
        assert(idx.to_set().contains(idx[n as int]));
    }
}

proof fn lemma_increasing_prefix(idx: Seq<usize>, n: nat, i: int)
    requires
        strictly_increasing(idx),
        forall|x: usize| idx.to_set().contains(x) <==> x < n,
        0 <= i < idx.len(),
    ensures
        forall|j: int| 0 <= j <= i ==> idx[j] == j,
    decreases i,
{
    if i > 0 {
        lemma_increasing_prefix(idx, n, i - 1);
        assert(idx[i] > idx[i - 1]);
    }
    assert(idx.to_set().contains(idx[i]));
    assert(idx[i] >= i);
    let x = i as usize;
    assert(x < n);
    assert(idx.to_set().contains(x));
    let p = choose|p: int| 0 <= p < idx.len() && idx[p] == x;
    if p < i {
        assert(idx[p] == p);
    }
    if p > i {
        assert(idx[i] < idx[p]);
    }
}

/// Reading back the fields that a form submits gives the form: the same
/// text, visibility and sections in the same order.
pub proof fn lemma_fields_round_trip(f: QuoteForm, m: Map<Seq<char>, Seq<char>>, r: QuoteForm)
    requires
        f.error is None,
        submits(m, f),
        read_from_fields(r, m, f.id),
    ensures
        r.id == f.id,
        r.discord_id@ == f.discord_id@,
        r.title@ == f.title@,
        r.description@ == f.description@,
        r.is_visible == f.is_visible,
        r.error == f.error,
        r.sections@.len() == f.sections@.len(),
        forall|i: int|
            0 <= i < f.sections@.len() ==> {
                let a = #[trigger] r.sections@[i];
                let b = f.sections@[i];
                &&& a.title@ == b.title@
                &&& a.description@ == b.description@
                &&& a.min_hours@ == b.min_hours@
                &&& a.max_hours@ == b.max_hours@
                &&& a.price_euros@ == b.price_euros@
            },
{
    reveal_strlit("title");
    reveal_strlit("description");
    reveal_strlit("min_hours");
    reveal_strlit("max_hours");
    reveal_strlit("price_euros");
    lemma_base_fields_index();
    let n = f.sections@.len();
    assert(n <= usize::MAX) by {
        assert(f.sections@.len() == f.sections.len());
    }
    assert forall|x: usize| section_indexes(m).contains(x) <==> x < n by {
        if section_indexes(m).contains(x) {
            let k = choose|k: Seq<char>| m.contains_key(k) && section_index(k) == Some(x);
            if k != "discord_id"@ && k != "title"@ && k != "description"@ && k != "is_visible"@ {
                let (i, name) = choose|i: usize, name: Seq<char>|
                    i < n && is_section_name(name) && k == #[trigger] section_field(i, name);
                lemma_section_field_index(i, name);
            }
        }
        if x < n {
            assert(is_section_name("title"@));
            assert(m.contains_key(section_field(x, "title"@)));
            lemma_section_field_index(x, "title"@);
        }
    }
    let idx = choose|idx: Seq<usize>|
        {
            &&& strictly_increasing(idx)
            &&& idx.to_set() == section_indexes(m)
            &&& r.sections@.len() == idx.len()
            &&& forall|i: int|
                0 <= i < idx.len() ==> section_from_fields(#[trigger] r.sections@[i], m, idx[i])
        };
    lemma_increasing_range(idx, n);
    assert forall|i: int| 0 <= i < n implies {
        let a = #[trigger] r.sections@[i];
        let b = f.sections@[i];
        &&& a.title@ == b.title@
        &&& a.description@ == b.description@
        &&& a.min_hours@ == b.min_hours@
        &&& a.max_hours@ == b.max_hours@
        &&& a.price_euros@ == b.price_euros@
    } by {
        let u = i as usize;
        assert(idx[i] == u);
        assert(section_from_fields(r.sections@[i], m, u));
        assert(is_section_name("title"@));
        assert(is_section_name("description"@));
        assert(is_section_name("min_hours"@));
        assert(is_section_name("max_hours"@));
        assert(is_section_name("price_euros"@));
        assert(m.contains_key(section_field(u, "title"@)));
        assert(m.contains_key(section_field(u, "description"@)));
        assert(m.contains_key(section_field(u, "min_hours"@)));
        assert(m.contains_key(section_field(u, "max_hours"@)));
        assert(m.contains_key(section_field(u, "price_euros"@)));
        assert(u as int == i);
        assert("max_hours"@[1] != "min_hours"@[1]);
        assert("price_euros"@[0] != "description"@[0]);
        assert(section_text(f.sections@[i], "title"@) == f.sections@[i].title@);
        assert(section_text(f.sections@[i], "description"@) == f.sections@[i].description@);
        assert(section_text(f.sections@[i], "min_hours"@) == f.sections@[i].min_hours@);
        assert(section_text(f.sections@[i], "max_hours"@) == f.sections@[i].max_hours@);
        assert(section_text(f.sections@[i], "price_euros"@) == f.sections@[i].price_euros@);
        assert(r.sections@[i].title@ == f.sections@[i].title@);
        assert(r.sections@[i].description@ == f.sections@[i].description@);
        assert(r.sections@[i].min_hours@ == f.sections@[i].min_hours@);
        assert(r.sections@[i].max_hours@ == f.sections@[i].max_hours@);
    }
}
} // verus!
