use aboutme::fields::FormFields;
use aboutme::form::{
    field, non_negative_i64, optional_i32, positive_i32, FormError, QuoteForm, QuoteFormSection,
};

fn fields(pairs: &[(&str, &str)]) -> FormFields {
    let mut f = FormFields::new();
    for (k, v) in pairs {
        f.insert(k.to_string(), v.to_string());
    }
    f
}

fn section(title: &str, min: &str, max: &str, price: &str) -> QuoteFormSection {
    QuoteFormSection {
        title: title.to_string(),
        description: "Work".to_string(),
        min_hours: min.to_string(),
        max_hours: max.to_string(),
        price_euros: price.to_string(),
    }
}

fn form(discord_id: &str, sections: Vec<QuoteFormSection>) -> QuoteForm {
    QuoteForm {
        id: Some("q1".to_string()),
        discord_id: discord_id.to_string(),
        title: "  Site  ".to_string(),
        description: "A site ".to_string(),
        is_visible: true,
        sections,
        error: None,
    }
}

const ID: &str = "123456789012345678";

#[test]
fn the_empty_form_has_one_empty_section() {
    let f = QuoteForm::empty();
    assert!(f.id.is_none());
    assert!(f.discord_id.is_empty() && f.title.is_empty() && f.description.is_empty());
    assert!(!f.is_visible);
    assert!(f.error.is_none());
    assert_eq!(f.sections.len(), 1);
    let s = &f.sections[0];
    assert!(s.title.is_empty() && s.description.is_empty());
    assert!(s.min_hours.is_empty() && s.max_hours.is_empty() && s.price_euros.is_empty());
    let e = QuoteFormSection::empty();
    assert!(e.title.is_empty() && e.price_euros.is_empty());
}

#[test]
fn inserting_a_field_again_replaces_it() {
    let mut f = fields(&[("title", "a"), ("x", "1")]);
    f.insert("title".to_string(), "b".to_string());
    assert_eq!(f.len(), 2);
    assert_eq!(field(&f, "title"), "b");
    assert_eq!(field(&f, "missing"), "");
    assert!(f.contains_key("x"));
    assert!(!f.contains_key("y"));
}

#[test]
fn from_fields_reads_sections_in_index_order() {
    let f = fields(&[
        ("discord_id", ID),
        ("title", "Site"),
        ("description", "Desc"),
        ("is_visible", "on"),
        ("sections.10.title", "Ten"),
        ("sections.2.title", "Two"),
        ("sections.2.min_hours", "3"),
        ("sections.2.max_hours", "4"),
        ("sections.2.price_euros", "100"),
        ("sections.10.description", "Tenth"),
        ("sections.x.title", "ignored"),
        ("sections.7", "no dot after the index"),
        ("other", "ignored"),
    ]);
    let form = QuoteForm::from_fields(&f, Some("id".to_string()));
    assert_eq!(form.id.as_deref(), Some("id"));
    assert_eq!(form.discord_id, ID);
    assert_eq!(form.title, "Site");
    assert_eq!(form.description, "Desc");
    assert!(form.is_visible);
    assert!(form.error.is_none());
    assert_eq!(form.sections.len(), 2);
    assert_eq!(form.sections[0].title, "Two");
    assert_eq!(form.sections[0].min_hours, "3");
    assert_eq!(form.sections[0].max_hours, "4");
    assert_eq!(form.sections[0].price_euros, "100");
    assert_eq!(form.sections[1].title, "Ten");
    assert_eq!(form.sections[1].description, "Tenth");
    assert_eq!(form.sections[1].min_hours, "");
}

#[test]
fn section_indexes_are_parsed_as_usize() {
    // "01" and "+1" both address section 1, whose fields are looked up under
    // "sections.1.…".
    let f = fields(&[("sections.01.title", "a"), ("sections.+1.x", ""), ("sections.1.title", "One")]);
    let form = QuoteForm::from_fields(&f, None);
    assert_eq!(form.sections.len(), 1);
    assert_eq!(form.sections[0].title, "One");
    assert!(!form.is_visible);
    assert_eq!(form.discord_id, "");
}

#[test]
fn number_fields_follow_parse() {
    assert_eq!(positive_i32("3"), Some(3));
    assert_eq!(positive_i32("0"), None);
    assert_eq!(positive_i32("-3"), None);
    assert_eq!(positive_i32(" 3"), None);
    assert_eq!(optional_i32("  "), Some(None));
    assert_eq!(optional_i32("5"), Some(Some(5)));
    assert_eq!(optional_i32("x"), None);
    assert_eq!(non_negative_i64("0"), Some(0));
    assert_eq!(non_negative_i64("-1"), None);
}

#[test]
fn a_valid_form_is_converted_and_left_unchanged() {
    let mut f = form(ID, vec![section(" Design ", "2", "3", "150"), section("Build", "1", "", "0")]);
    let input = f.validate().unwrap();
    assert!(f.error.is_none());
    assert_eq!(f.title, "  Site  ");
    assert_eq!(input.discord_id, ID);
    assert_eq!(input.title, "Site");
    assert_eq!(input.description, "A site");
    assert!(input.is_visible);
    assert_eq!(input.sections.len(), 2);
    assert_eq!(input.sections[0].title, "Design");
    assert_eq!(input.sections[0].min_minutes, 120);
    assert_eq!(input.sections[0].max_minutes, Some(180));
    assert_eq!(input.sections[0].price_cents, 15000);
    assert_eq!(input.sections[1].max_minutes, None);
    assert_eq!(input.sections[1].price_cents, 0);
}

fn refusal(mut f: QuoteForm) -> String {
    assert!(f.validate().is_err());
    f.error.unwrap()
}

#[test]
fn each_refusal_has_its_message() {
    assert_eq!(refusal(form("1234", vec![section("a", "1", "", "1")])), "Enter a valid Discord ID.");
    assert_eq!(
        refusal(form("12345678901234567a", vec![section("a", "1", "", "1")])),
        "Enter a valid Discord ID."
    );
    let mut no_title = form(ID, vec![section("a", "1", "", "1")]);
    no_title.title = " ".to_string();
    assert_eq!(refusal(no_title), "Title and description are required.");
    assert_eq!(refusal(form(ID, vec![])), "Add at least one section.");
    let incomplete = "Complete every section with valid whole hours and a non-negative price.";
    assert_eq!(refusal(form(ID, vec![section(" ", "1", "", "1")])), incomplete);
    assert_eq!(refusal(form(ID, vec![section("a", "1.5", "", "1")])), incomplete);
    assert_eq!(refusal(form(ID, vec![section("a", "3", "2", "1")])), incomplete);
    assert_eq!(refusal(form(ID, vec![section("a", "1", "", "-1")])), incomplete);
    assert_eq!(
        refusal(form(ID, vec![section("a", "40000000", "", "1")])),
        "The minimum estimate is too large."
    );
    assert_eq!(
        refusal(form(ID, vec![section("a", "1", "40000000", "1")])),
        "The maximum estimate is too large."
    );
    assert_eq!(
        refusal(form(ID, vec![section("a", "1", "", "100000000000000000")])),
        "The price is too large."
    );
    assert_eq!(FormError::QuoteMissing.message(), "This quote no longer exists.");
}

#[test]
fn the_first_refused_section_decides_and_the_rest_of_the_form_stays() {
    let mut f = form(ID, vec![section("a", "1", "", "x"), section("b", "40000000", "", "1")]);
    assert!(f.validate().is_err());
    assert_eq!(
        f.error.as_deref(),
        Some("Complete every section with valid whole hours and a non-negative price.")
    );
    assert_eq!(f.title, "  Site  ");
    assert_eq!(f.sections.len(), 2);
    assert_eq!(f.sections[1].min_hours, "40000000");
}

#[test]
fn discord_ids_are_seventeen_to_twenty_digits_once_trimmed() {
    let ok = |id: &str| form(id, vec![section("a", "1", "", "1")]).validate().is_ok();
    assert!(ok("12345678901234567"));
    assert!(ok("12345678901234567890"));
    assert!(ok("  12345678901234567  "));
    assert!(!ok("1234567890123456"));
    assert!(!ok("123456789012345678901"));
    assert!(!ok("１２３４５６７８９０１２３４５６７"));
}
