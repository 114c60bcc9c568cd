use aboutme::decimal::{i32_to_string, i64_to_string, str_to_i32, str_to_i64};
use aboutme::quotes::{
    date, document, duration, estimate, format_date, list_item, price, reference, FIRST_DATED_SECOND,
    LAST_DATED_SECOND,
};
use aboutme::text::{chars_of, string_of, trimmed};

#[test]
fn integers_are_written_as_display_writes_them() {
    assert_eq!(i32_to_string(0), "0");
    assert_eq!(i32_to_string(-7), "-7");
    assert_eq!(i32_to_string(i32::MIN), i32::MIN.to_string());
    assert_eq!(i32_to_string(i32::MAX), i32::MAX.to_string());
    assert_eq!(i64_to_string(i64::MIN), i64::MIN.to_string());
    assert_eq!(i64_to_string(1234567890123), "1234567890123");
}

#[test]
fn integers_are_read_as_parse_reads_them() {
    for s in ["0", "+5", "-5", "-0", "007", "2147483647", "-2147483648"] {
        assert_eq!(str_to_i32(s), s.parse::<i32>().ok(), "{s}");
    }
    for s in ["", "+", "-", " 5", "5 ", "1.5", "2147483648", "-2147483649", "+-1", "١"] {
        assert_eq!(str_to_i32(s), None, "{s}");
        assert_eq!(s.parse::<i32>().ok(), None, "{s}");
    }
    assert_eq!(str_to_i64("9223372036854775807"), Some(i64::MAX));
    assert_eq!(str_to_i64("-9223372036854775808"), Some(i64::MIN));
    assert_eq!(str_to_i64("9223372036854775808"), None);
}

#[test]
fn reading_what_was_written_gives_the_number_back() {
    for v in [0, 1, -1, 9, 10, -10, 12345, i32::MIN, i32::MAX] {
        assert_eq!(str_to_i32(&i32_to_string(v)), Some(v));
    }
    for v in [0i64, -99, i64::MIN, i64::MAX] {
        assert_eq!(str_to_i64(&i64_to_string(v)), Some(v));
    }
}

#[test]
fn trim_removes_unicode_white_space_at_both_ends() {
    for s in ["  a b  ", "\u{3000}x\u{a0}", "\t\n", "", "x"] {
        assert_eq!(string_of(&trimmed(s)), s.trim());
    }
    assert_eq!(string_of(&chars_of("ünï")), "ünï");
}

#[test]
fn reference_takes_the_first_eight_bytes_in_upper_case() {
    assert_eq!(reference("550e8400-e29b-41d4-a716-446655440000"), "QUO-550E8400");
    assert_eq!(reference("abc"), "QUO-ABC");
    assert_eq!(reference("éééééé"), "QUO-ÉÉÉÉ");
    // Eight bytes end inside a character: the whole ID is used.
    assert_eq!(reference("aéééééé"), "QUO-AÉÉÉÉÉÉ");
}

#[test]
fn dates_are_day_month_year() {
    assert_eq!(date(0), "01.01.1970");
    assert_eq!(date(1_700_000_000), "14.11.2023");
    assert_eq!(date(-86_400), "31.12.1969");
    assert_eq!(date(i64::MAX), "—");
    assert_eq!(format_date(Some((5, 3, 9))), "09.03.5");
    assert_eq!(format_date(Some((-44, 12, 31))), "31.12.-44");
    assert_eq!(format_date(None), "—");
}

#[test]
fn dates_run_from_year_minus_9999_to_9999() {
    assert_eq!(date(LAST_DATED_SECOND), "31.12.9999");
    assert_eq!(date(LAST_DATED_SECOND + 1), "—");
    assert_eq!(date(FIRST_DATED_SECOND), "01.01.-9999");
    assert_eq!(date(FIRST_DATED_SECOND - 1), "—");
    assert_eq!(date(i64::MIN), "—");
}

#[test]
fn durations_are_hours_and_minutes() {
    assert_eq!(duration(0), "0 min");
    assert_eq!(duration(45), "45 min");
    assert_eq!(duration(60), "1 h");
    assert_eq!(duration(90), "1 h 30 min");
    assert_eq!(duration(-30), "-30 min");
    assert_eq!(duration(-90), "-1 h -30 min");
    assert_eq!(duration(i32::MIN), "-35791394 h -8 min");
}

#[test]
fn estimates_show_a_range_only_when_the_maximum_is_larger() {
    assert_eq!(estimate(60, Some(120)), "1 h–2 h");
    assert_eq!(estimate(60, Some(60)), "1 h");
    assert_eq!(estimate(120, Some(60)), "2 h");
    assert_eq!(estimate(90, None), "from 1 h 30 min");
}

#[test]
fn prices_are_euros_and_cents() {
    assert_eq!(price(12345), "€ 123,45");
    assert_eq!(price(5), "€ 0,05");
    assert_eq!(price(0), "€ 0,00");
    assert_eq!(price(-5), "€ 0,-5");
    assert_eq!(price(-105), "€ -1,-5");
    assert_eq!(price(i64::MIN), "€ -92233720368547758,-8");
}

#[test]
fn list_items_carry_reference_and_date() {
    let item = list_item(
        "abcdef12-0000".to_string(),
        "Website".to_string(),
        "A site".to_string(),
        0,
    );
    assert_eq!(item.id, "abcdef12-0000");
    assert_eq!(item.reference, "QUO-ABCDEF12");
    assert_eq!(item.title, "Website");
    assert_eq!(item.description, "A site");
    assert_eq!(item.updated_at, "01.01.1970");
}

#[test]
fn documents_number_sections_and_total_their_prices() {
    let rows = vec![
        ("Design".to_string(), "Layout".to_string(), 60, Some(120), 10000),
        ("Build".to_string(), "Code".to_string(), 30, None, 2550),
    ];
    let doc = document("0123456789", "T".into(), "D".into(), 0, 86_400, rows).unwrap();
    assert_eq!(doc.reference, "QUO-01234567");
    assert_eq!(doc.created_at, "01.01.1970");
    assert_eq!(doc.updated_at, "02.01.1970");
    assert_eq!(doc.total, "€ 125,50");
    assert_eq!(doc.sections.len(), 2);
    assert_eq!(doc.sections[0].number, 1);
    assert_eq!(doc.sections[0].title, "Design");
    assert_eq!(doc.sections[0].estimate, "1 h–2 h");
    assert_eq!(doc.sections[0].price, "€ 100,00");
    assert_eq!(doc.sections[1].number, 2);
    assert_eq!(doc.sections[1].description, "Code");
    assert_eq!(doc.sections[1].estimate, "from 30 min");
    assert_eq!(doc.sections[1].price, "€ 25,50");
}

#[test]
fn a_total_that_overflows_is_refused() {
    let rows = vec![
        ("a".to_string(), "b".to_string(), 60, None, i64::MAX),
        ("c".to_string(), "d".to_string(), 60, None, 1),
        ("e".to_string(), "f".to_string(), 60, None, -5),
    ];
    assert!(document("x", "T".into(), "D".into(), 0, 0, rows).is_err());
    let empty = document("x", "T".into(), "D".into(), 0, 0, Vec::new()).unwrap();
    assert_eq!(empty.total, "€ 0,00");
    assert!(empty.sections.is_empty());
}
