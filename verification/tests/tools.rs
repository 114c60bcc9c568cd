use aboutme::form::{QuoteForm, QuoteFormSection};
use aboutme::mcp::{refusal_message, QuoteRead, QuoteSectionWrite, QuoteWrite, ReadError};
use aboutme::site::{check_projects, home_notices, image_asset, login_path, Project, ProjectError};

fn write() -> QuoteWrite {
    QuoteWrite {
        discord_id: "123456789012345678".into(),
        title: "Site".into(),
        description: "Desc".into(),
        is_visible: true,
        sections: vec![
            QuoteSectionWrite {
                title: "A".into(),
                description: "a".into(),
                min_hours: 2,
                max_hours: Some(-3),
                price_euros: i64::MIN,
            },
            QuoteSectionWrite {
                title: "B".into(),
                description: "b".into(),
                min_hours: i32::MAX,
                max_hours: None,
                price_euros: 0,
            },
        ],
    }
}

#[test]
fn written_quotes_become_form_text() {
    let form = write().into_form(Some("id".into()));
    assert_eq!(form.id.as_deref(), Some("id"));
    assert_eq!(form.discord_id, "123456789012345678");
    assert!(form.is_visible);
    assert!(form.error.is_none());
    assert_eq!(form.sections[0].min_hours, "2");
    assert_eq!(form.sections[0].max_hours, "-3");
    assert_eq!(form.sections[0].price_euros, i64::MIN.to_string());
    assert_eq!(form.sections[1].max_hours, "");
    assert_eq!(form.sections[1].min_hours, "2147483647");
}

#[test]
fn a_tool_reads_back_what_it_wrote() {
    let read = QuoteRead::try_from(write().into_form(Some("id".into()))).unwrap();
    let w = write();
    assert_eq!(read.id, "id");
    assert_eq!(read.quote.discord_id, w.discord_id);
    assert_eq!(read.quote.title, w.title);
    assert_eq!(read.quote.description, w.description);
    assert_eq!(read.quote.is_visible, w.is_visible);
    assert_eq!(read.quote.sections.len(), 2);
    for (a, b) in read.quote.sections.iter().zip(w.sections.iter()) {
        assert_eq!(a.title, b.title);
        assert_eq!(a.description, b.description);
        assert_eq!(a.min_hours, b.min_hours);
        assert_eq!(a.max_hours, b.max_hours);
        assert_eq!(a.price_euros, b.price_euros);
    }
}

#[test]
fn reading_needs_an_id_and_numbers() {
    assert_eq!(QuoteRead::try_from(write().into_form(None)).unwrap_err(), ReadError::MissingId);
    let mut form = QuoteForm::empty();
    form.id = Some("id".into());
    assert_eq!(QuoteRead::try_from(form).unwrap_err(), ReadError::InvalidNumber);
    let mut form = write().into_form(Some("id".into()));
    form.sections[1].max_hours = " ".into();
    assert_eq!(QuoteRead::try_from(form).unwrap_err(), ReadError::InvalidNumber);
    let mut form = write().into_form(Some("id".into()));
    form.sections = vec![QuoteFormSection {
        title: String::new(),
        description: String::new(),
        min_hours: "1".into(),
        max_hours: String::new(),
        price_euros: "1.5".into(),
    }];
    assert_eq!(QuoteRead::try_from(form).unwrap_err(), ReadError::InvalidNumber);
}

#[test]
fn refused_quotes_report_the_form_message() {
    let mut form = QuoteForm::empty();
    assert_eq!(refusal_message(&form), "Invalid quote.");
    form.error = Some("Add at least one section.".into());
    assert_eq!(refusal_message(&form), "Add at least one section.");
}

fn project(slug: &str, image: &str) -> Project {
    Project {
        slug: slug.into(),
        title: "T".into(),
        category: "C".into(),
        year: "2024".into(),
        summary: "S".into(),
        image: image.into(),
        alt: "A".into(),
        href: None,
    }
}

#[test]
fn projects_need_fields_distinct_slugs_and_images() {
    let ok = vec![project("a", "/static/a.png"), project("b", "/static/b.png")];
    assert!(check_projects(&ok, &vec![true, true]).is_ok());

    let mut blank = project("c", "x");
    blank.alt = "  ".into();
    let err = check_projects(&vec![project("a", "x"), blank], &vec![true, true]).unwrap_err();
    assert!(matches!(err, ProjectError::EmptyField));
    assert_eq!(err.message(), "project fields cannot be empty");

    let dup = vec![project("a", "x"), project("b", "y"), project("a", "z")];
    let err = check_projects(&dup, &vec![true, true, true]).unwrap_err();
    assert_eq!(err.message(), "duplicate project slug: a");

    let err = check_projects(&ok, &vec![true, false]).unwrap_err();
    assert_eq!(err.message(), "missing project image: /static/b.png");

    // The first fault in order decides.
    let err = check_projects(&dup, &vec![false, true, true]).unwrap_err();
    assert_eq!(err.message(), "missing project image: x");
}

#[test]
fn project_images_live_under_the_static_directory() {
    assert_eq!(image_asset("/static/img/a.png"), "img/a.png");
    assert_eq!(image_asset("/static//static/a.png"), "a.png");
    assert_eq!(image_asset("/static//static/a.png"), "/static//static/a.png".trim_start_matches("/static/"));
    assert_eq!(image_asset("/static/static/a.png"), "static/a.png");
    assert_eq!(image_asset("/static//static/"), "/static//static/".trim_start_matches("/static/"));
    assert_eq!(image_asset("img.png"), "img.png");
}

#[test]
fn sign_in_starts_with_the_return_path() {
    assert_eq!(login_path("/quotes"), "/auth/discord?next=/quotes");
    assert_eq!(home_notices(Some("error")), (true, false));
    assert_eq!(home_notices(Some("cancelled")), (false, true));
    assert_eq!(home_notices(Some("other")), (false, false));
    assert_eq!(home_notices(None), (false, false));
}
