use aboutme::admin::{
    admin_list_item, avatar_url, edit_form, form_section, hours, initial, recipient, save_outcome,
};
use aboutme::form::QuoteForm;

#[test]
fn hours_are_whole_or_up_to_two_decimals() {
    assert_eq!(hours(60), "1");
    assert_eq!(hours(0), "0");
    assert_eq!(hours(90), "1.5");
    assert_eq!(hours(20), "0.33");
    assert_eq!(hours(1), "0.02");
    assert_eq!(hours(-90), "-1.5");
    assert_eq!(hours(-120), "-2");
    assert_eq!(hours(75), "1.25");
}

#[test]
fn hours_agree_with_float_formatting() {
    let by_float = |minutes: i32| -> String {
        if minutes % 60 == 0 {
            (minutes / 60).to_string()
        } else {
            format!("{:.2}", minutes as f64 / 60.0).trim_end_matches('0').to_string()
        }
    };
    for m in -3000..3000 {
        assert_eq!(hours(m), by_float(m), "{m}");
    }
    for m in [i32::MIN, i32::MIN + 1, i32::MAX, i32::MAX - 59, 1_000_000_007] {
        assert_eq!(hours(m), by_float(m), "{m}");
    }
}

#[test]
fn initials_are_the_first_character_in_upper_case() {
    assert_eq!(initial("alice"), "A");
    assert_eq!(initial("élan"), "É");
    assert_eq!(initial("ßa"), "SS");
    assert_eq!(initial(""), "?");
    assert_eq!(initial("1x"), "1");
}

#[test]
fn avatar_addresses_point_at_the_discord_cdn() {
    assert_eq!(
        avatar_url("42", "abc"),
        "https://cdn.discordapp.com/avatars/42/abc.webp?size=64"
    );
}

#[test]
fn list_lines_total_whole_euros_and_hours() {
    let rows = vec![(90, Some(150), 12_599), (60, Some(60), 100), (-90, Some(-30), -250)];
    let item = admin_list_item(
        "abcdefgh-1".into(),
        "T".into(),
        true,
        0,
        "123".into(),
        "Alice".into(),
        Some("h1".into()),
        &rows,
    );
    assert_eq!(item.reference, "QUO-ABCDEFGH");
    assert_eq!(item.recipient_name, "Alice");
    assert_eq!(item.recipient_initial, "A");
    assert_eq!(
        item.recipient_avatar.as_deref(),
        Some("https://cdn.discordapp.com/avatars/123/h1.webp?size=64")
    );
    assert_eq!(item.total_euros, 125 + 1 - 2);
    assert_eq!(item.min_hours, 1 + 1 - 1);
    assert_eq!(item.max_hours, Some(2 + 1 + 0));
    assert!(item.is_visible);
    assert_eq!(item.updated_at, "01.01.1970");
    assert_eq!(item.discord_id, "123");
}

#[test]
fn a_missing_maximum_leaves_the_maximum_sum_out() {
    let rows = vec![(60, Some(120), 0), (60, None, 0)];
    let item = admin_list_item(
        "x".into(),
        "T".into(),
        false,
        0,
        "123".into(),
        "123".into(),
        None,
        &rows,
    );
    assert_eq!(item.max_hours, None);
    assert_eq!(item.min_hours, 2);
    assert_eq!(item.recipient_name, "123");
    assert_eq!(item.recipient_initial, "1");
    assert!(item.recipient_avatar.is_none());
    let none = admin_list_item("x".into(), "T".into(), false, 0, "1".into(), "b".into(), None, &vec![]);
    assert_eq!(none.max_hours, Some(0));
    assert_eq!(none.total_euros, 0);
}

#[test]
fn recipients_without_a_real_name_show_their_id() {
    let known = recipient("42".into(), Some(("Bob".into(), Some("h".into()))));
    assert_eq!(known.discord_id, "42");
    assert_eq!(known.display_name.as_deref(), Some("Bob"));
    assert_eq!(known.avatar_url.as_deref(), Some("https://cdn.discordapp.com/avatars/42/h.webp?size=64"));
    assert_eq!(known.initial, "B");
    let placeholder = recipient("42".into(), Some(("42".into(), Some("h".into()))));
    assert!(placeholder.display_name.is_none());
    assert!(placeholder.avatar_url.is_none());
    assert_eq!(placeholder.initial, "4");
    let unknown = recipient("z9".into(), None);
    assert!(unknown.display_name.is_none());
    assert_eq!(unknown.initial, "Z");
}

#[test]
fn stored_sections_are_shown_as_hours_and_euros() {
    let s = form_section("T".into(), "D".into(), 90, None, 12_345);
    assert_eq!(s.min_hours, "1.5");
    assert_eq!(s.max_hours, "");
    assert_eq!(s.price_euros, "123");
    let s = form_section("T".into(), "D".into(), 60, Some(120), -150);
    assert_eq!(s.max_hours, "2");
    assert_eq!(s.price_euros, "-1");
}

#[test]
fn editing_a_whole_hour_quote_and_saving_it_again_keeps_it() {
    let rows = vec![
        ("Design".to_string(), "Layout".to_string(), 120, Some(180), 15_000),
        ("Build".to_string(), "Code".to_string(), 60, None, 0),
    ];
    let mut form = edit_form(
        "q".into(),
        "123456789012345678".into(),
        "Site".into(),
        "Desc".into(),
        true,
        rows,
    );
    assert_eq!(form.id.as_deref(), Some("q"));
    assert_eq!(form.sections[0].min_hours, "2");
    let input = form.validate().unwrap();
    assert_eq!(input.sections[0].min_minutes, 120);
    assert_eq!(input.sections[0].max_minutes, Some(180));
    assert_eq!(input.sections[0].price_cents, 15_000);
    assert_eq!(input.sections[1].max_minutes, None);
    assert_eq!(input.sections[1].price_cents, 0);
    assert_eq!(input.sections[1].title, "Build");
}

#[test]
fn half_hours_do_not_survive_a_second_check() {
    let rows = vec![("Design".to_string(), "Layout".to_string(), 90, None, 100)];
    let mut form = edit_form("q".into(), "123456789012345678".into(), "S".into(), "D".into(), true, rows);
    assert!(form.validate().is_err());
}

#[test]
fn saving_a_quote_that_disappeared_returns_the_form() {
    let ok = save_outcome(QuoteForm::empty(), Some("id-1".into()));
    assert_eq!(ok.unwrap(), "id-1");
    let gone = save_outcome(QuoteForm::empty(), None).unwrap_err();
    assert_eq!(gone.error.as_deref(), Some("This quote no longer exists."));
    assert_eq!(gone.sections.len(), 1);
}
