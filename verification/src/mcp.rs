//! Quotes as the assistant tools exchange them: numbers rather than form
//! text.
use vstd::prelude::*;
use crate::decimal::{
    i32_to_string, i64_to_string, lemma_decimal, lemma_parse_signed_decimal, parse_i32, parse_i64,
    signed_decimal, str_to_i32, str_to_i64,
};
use crate::form::{QuoteForm, QuoteFormSection};
use crate::vecs::into_reversed;
use crate::text::{chars_of, string_of};

verus! {

/// A quote as a tool writes it.
#[derive(Debug)]
pub struct QuoteWrite {
    pub discord_id: String,
    pub title: String,
    pub description: String,
    pub is_visible: bool,
    pub sections: Vec<QuoteSectionWrite>,
}

/// A section as a tool writes it: whole hours and whole euros.
#[derive(Debug)]
pub struct QuoteSectionWrite {
    pub title: String,
    pub description: String,
    pub min_hours: i32,
    pub max_hours: Option<i32>,
    pub price_euros: i64,
}

/// A stored quote as a tool reads it.
#[derive(Debug)]
pub struct QuoteRead {
    pub id: String,
    pub quote: QuoteWrite,
}

/// Why a stored form could not be given to a tool.
#[derive(Debug, Clone, Copy, PartialEq, Eq)]
pub enum ReadError {
    MissingId,
    InvalidNumber,
}

/// The numbers of a section: minimum hours, maximum hours, euros.
pub type WrittenNumbers = (i32, Option<i32>, i64);

/// The text of an optional number in a form: empty for none.
pub open spec fn optional_text(v: Option<i32>) -> Seq<char> {
    match v {
        Some(x) => signed_decimal(x as int),
        None => Seq::empty(),
    }
}

/// `s` is the form section written for `w`.
pub open spec fn written_section(s: QuoteFormSection, w: QuoteSectionWrite) -> bool {
    &&& s.title == w.title
    &&& s.description == w.description
    &&& s.min_hours@ == signed_decimal(w.min_hours as int)
    &&& s.max_hours@ == optional_text(w.max_hours)
    &&& s.price_euros@ == signed_decimal(w.price_euros as int)
}

/// `f` is the form written for `w`, under the ID `id`.
pub open spec fn written_form(f: QuoteForm, w: QuoteWrite, id: Option<String>) -> bool {
    &&& f.id == id
    &&& f.discord_id == w.discord_id
    &&& f.title == w.title
    &&& f.description == w.description
    &&& f.is_visible == w.is_visible
    &&& f.error is None
    &&& f.sections@.len() == w.sections@.len()
    &&& forall|i: int|
        0 <= i < f.sections@.len() ==> written_section(#[trigger] f.sections@[i], w.sections@[i])
}

/// The numbers of a section read from its form text; an empty maximum is
/// none.
pub open spec fn read_section(s: QuoteFormSection) -> Option<WrittenNumbers> {
    let max = if s.max_hours@.len() == 0 {
        Some(None)
    } else {
        match parse_i32(s.max_hours@) {
            Some(v) => Some(Some(v)),
            None => None,
        }
    };
    match (parse_i32(s.min_hours@), max, parse_i64(s.price_euros@)) {
        (Some(a), Some(b), Some(c)) => Some((a, b, c)),
        _ => None,
    }
}

/// The numbers of all sections, where every one of them reads.
pub open spec fn read_sections(s: Seq<QuoteFormSection>) -> Option<Seq<WrittenNumbers>>
    decreases s.len(),
{
    if s.len() == 0 {
        Some(Seq::empty())
    } else {
        match (read_sections(s.drop_last()), read_section(s.last())) {
            (Some(p), Some(n)) => Some(p.push(n)),
            _ => None,
        }
    }
}

/// The numbers of a written section.
pub open spec fn numbers_of(w: QuoteSectionWrite) -> WrittenNumbers {
    (w.min_hours, w.max_hours, w.price_euros)
}

/// `r` is the quote read from the form `f`, with the section numbers `nums`.
pub open spec fn read_form(r: QuoteRead, f: QuoteForm, nums: Seq<WrittenNumbers>) -> bool {
    &&& f.id == Some(r.id)
    &&& r.quote.discord_id == f.discord_id
    &&& r.quote.title == f.title
    &&& r.quote.description == f.description
    &&& r.quote.is_visible == f.is_visible
    &&& r.quote.sections@.len() == f.sections@.len() == nums.len()
    &&& forall|i: int|
        0 <= i < nums.len() ==> {
            let s = #[trigger] r.quote.sections@[i];
            &&& s.title == f.sections@[i].title
            &&& s.description == f.sections@[i].description
            &&& numbers_of(s) == nums[i]
        }
}

/// A section read back from what was written for it gives its numbers.
proof fn lemma_read_written_section(s: QuoteFormSection, w: QuoteSectionWrite)
    requires
        written_section(s, w),
    ensures
        read_section(s) == Some(numbers_of(w)),
{
    lemma_parse_signed_decimal(w.min_hours as int);
    lemma_parse_signed_decimal(w.price_euros as int);
    if let Some(m) = w.max_hours {
        lemma_parse_signed_decimal(m as int);
        if m < 0 {
            lemma_decimal((-m) as nat);
        } else {
            lemma_decimal(m as nat);
        }
    }
}

/// Reading back the form written for a quote gives the quote's numbers:
/// what a tool writes, it reads back unchanged.
pub proof fn lemma_read_written_sections(s: Seq<QuoteFormSection>, w: Seq<QuoteSectionWrite>)
    requires
        s.len() == w.len(),
        forall|i: int| 0 <= i < s.len() ==> written_section(#[trigger] s[i], w[i]),
    ensures
        read_sections(s) == Some(w.map_values(|x: QuoteSectionWrite| numbers_of(x))),
    decreases s.len(),
{
    if s.len() > 0 {
        lemma_read_written_sections(s.drop_last(), w.drop_last());
        lemma_read_written_section(s.last(), w.last());
        assert(w.drop_last().map_values(|x: QuoteSectionWrite| numbers_of(x)).push(
            numbers_of(w.last()),
        ) =~= w.map_values(|x: QuoteSectionWrite| numbers_of(x)));
    } else {
        assert(w.map_values(|x: QuoteSectionWrite| numbers_of(x)) =~= Seq::<WrittenNumbers>::empty());
    }
}

/// A prefix that fails to read makes the whole fail.
proof fn lemma_read_sections_none(s: Seq<QuoteFormSection>, k: int)
    requires
        0 <= k <= s.len(),
        read_sections(s.take(k)) is None,
    ensures
        read_sections(s) is None,
    decreases s.len() - k,
{
    if k == s.len() {
        assert(s.take(k) =~= s);
    } else {
        assert(s.take(k + 1).drop_last() =~= s.take(k));
        lemma_read_sections_none(s, k + 1);
    }
}

/// What a tool writes, it reads back: the form written for a quote always
/// reads, and the quote read from it is the quote written, field by field.
pub proof fn lemma_tool_round_trip(w: QuoteWrite, id: String, f: QuoteForm, r: QuoteRead)
    requires
        written_form(f, w, Some(id)),
        read_sections(f.sections@) is Some ==> read_form(r, f, read_sections(f.sections@)->0),
    ensures
        read_sections(f.sections@) is Some,
        r.id == id,
        r.quote.discord_id == w.discord_id,
        r.quote.title == w.title,
        r.quote.description == w.description,
        r.quote.is_visible == w.is_visible,
        r.quote.sections@.len() == w.sections@.len(),
        forall|i: int|
            0 <= i < w.sections@.len() ==> {
                let a = #[trigger] r.quote.sections@[i];
                let b = w.sections@[i];
                &&& a.title == b.title
                &&& a.description == b.description
                &&& a.min_hours == b.min_hours
                &&& a.max_hours == b.max_hours
                &&& a.price_euros == b.price_euros
            },
{
    lemma_read_written_sections(f.sections@, w.sections@);
    let nums = read_sections(f.sections@)->0;
    assert forall|i: int| 0 <= i < w.sections@.len() implies {
        let a = #[trigger] r.quote.sections@[i];
        let b = w.sections@[i];
        &&& a.title == b.title
        &&& a.description == b.description
        &&& a.min_hours == b.min_hours
        &&& a.max_hours == b.max_hours
        &&& a.price_euros == b.price_euros
    } by {
        assert(written_section(f.sections@[i], w.sections@[i]));
        assert(numbers_of(r.quote.sections@[i]) == nums[i]);
    }
}

impl QuoteWrite {
    /// The quote form for this quote under the ID `id`: the numbers written
    /// as text, an absent maximum as empty text.
    pub fn into_form(self, id: Option<String>) -> (r: QuoteForm)
        ensures
            written_form(r, self, id),
    {
        let QuoteWrite { discord_id, title, description, is_visible, sections: writes } = self;
        let ghost w = writes@;
        let n = writes.len();
        let mut reversed = into_reversed(writes);
        let mut sections: Vec<QuoteFormSection> = Vec::new();
        let mut i: usize = 0;
        while reversed.len() > 0
            invariant
                i + reversed@.len() == n == w.len(),
                forall|j: int| 0 <= j < reversed@.len() ==> #[trigger] reversed@[j] == w[n - 1 - j],
                sections@.len() == i,
                forall|k: int| 0 <= k < i ==> written_section(#[trigger] sections@[k], w[k]),
            decreases reversed@.len(),
        {
            let section = reversed.pop().unwrap();
            assert(section == w[i as int]);
            let max_hours = match section.max_hours {
                Some(value) => i32_to_string(value),
                None => String::new(),
            };
            sections.push(
                QuoteFormSection {
                    min_hours: i32_to_string(section.min_hours),
                    max_hours,
                    price_euros: i64_to_string(section.price_euros),
                    title: section.title,
                    description: section.description,
                },
            );
            i += 1;
        }
        QuoteForm { id, discord_id, title, description, is_visible, sections, error: None }
    }
}

/// Reads the numbers of one form section.
fn read_form_section(s: QuoteFormSection) -> (r: Result<QuoteSectionWrite, ReadError>)
    ensures
        match r {
            Ok(w) => read_section(s) == Some(numbers_of(w)) && w.title == s.title
                && w.description == s.description,
            Err(e) => e == ReadError::InvalidNumber && read_section(s) is None,
        },
{
    let min_hours = match str_to_i32(s.min_hours.as_str()) {
        Some(v) => v,
        None => {
            return Err(ReadError::InvalidNumber);
        },
    };
    let max_hours = if s.max_hours.as_str().is_empty() {
        None
    } else {
        match str_to_i32(s.max_hours.as_str()) {
            Some(v) => Some(v),
            None => {
                return Err(ReadError::InvalidNumber);
            },
        }
    };
    let price_euros = match str_to_i64(s.price_euros.as_str()) {
        Some(v) => v,
        None => {
            return Err(ReadError::InvalidNumber);
        },
    };
    Ok(
        QuoteSectionWrite {
            title: s.title,
            description: s.description,
            min_hours,
            max_hours,
            price_euros,
        },
    )
}

impl QuoteRead {
    /// The stored form as a tool reads it: it needs its ID, and every
    /// section's numbers must read.
    pub fn try_from(form: QuoteForm) -> (r: Result<QuoteRead, ReadError>)
        ensures
            r matches Ok(read) ==> read_sections(form.sections@) is Some && read_form(
                read,
                form,
                read_sections(form.sections@)->0,
            ),
            r == Err::<QuoteRead, ReadError>(ReadError::MissingId) ==> form.id is None,
            r == Err::<QuoteRead, ReadError>(ReadError::InvalidNumber) ==> form.id is Some
                && read_sections(form.sections@) is None,
    {
        let ghost f = form;
        let QuoteForm { id, discord_id, title, description, is_visible, sections: forms, error: _ } =
            form;
        let id = match id {
            Some(id) => id,
            None => {
                return Err(ReadError::MissingId);
            },
        };
        let ghost s = forms@;
        let n = forms.len();
        let mut reversed = into_reversed(forms);
        let mut sections: Vec<QuoteSectionWrite> = Vec::new();
        let ghost mut nums: Seq<WrittenNumbers> = Seq::empty();
        let mut i: usize = 0;
        assert(s.take(0) =~= Seq::<QuoteFormSection>::empty());
        while reversed.len() > 0
            invariant
                i + reversed@.len() == n == s.len(),
                f.sections@ == s,
                f.id is Some,
                f == form,
                forall|j: int| 0 <= j < reversed@.len() ==> #[trigger] reversed@[j] == s[n - 1 - j],
                read_sections(s.take(i as int)) == Some(nums),
                sections@.len() == i == nums.len(),
                forall|k: int|
                    0 <= k < i ==> {
                        let w = #[trigger] sections@[k];
                        &&& w.title == s[k].title
                        &&& w.description == s[k].description
                        &&& numbers_of(w) == nums[k]
                    },
            decreases reversed@.len(),
        {
            let x = reversed.pop().unwrap();
            assert(x == s[i as int]);
            assert(s.take(i + 1).drop_last() =~= s.take(i as int));
            match read_form_section(x) {
                Ok(w) => {
                    proof {
                        nums = nums.push(numbers_of(w));
                    }
                    sections.push(w);
                },
                Err(e) => {
                    proof {
                        assert(s.take(i + 1).last() == s[i as int]);
                        assert(read_sections(s.take(i + 1)) is None);
                        lemma_read_sections_none(s, i + 1);
                        assert(read_sections(f.sections@) is None);
                    }
                    return Err(e);
                },
            }
            i += 1;
        }
        assert(s.take(n as int) =~= s);
        Ok(
            QuoteRead {
                id,
                quote: QuoteWrite { discord_id, title, description, is_visible, sections },
            },
        )
    }
}

/// The message a tool gets for a refused quote: the form's message, or a
/// generic one.
pub fn refusal_message(form: &QuoteForm) -> (r: String)
    ensures
        r@ == match form.error {
            Some(m) => m@,
            None => "Invalid quote."@,
        },
{
    match &form.error {
        Some(m) => string_of(&chars_of(m.as_str())),
        None => string_of(&chars_of("Invalid quote.")),
    }
}

} // verus!
