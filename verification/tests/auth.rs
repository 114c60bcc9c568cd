use aboutme::auth::{
    account_view, bearer_authorized, callback_action, callback_url, cancelled_redirect,
    check_callback, display_name, exchange_redirect, hash, return_to_cookie, safe_return_to,
    secure_cookies, session_expires_at, token_digest, valid_id, valid_tool_token, CallbackAction,
    CallbackError, SESSION_SECONDS,
};
use aboutme::text::chars_of;

const UUID: &str = "550e8400-e29b-41d4-a716-446655440000";

#[test]
fn only_quote_pages_are_safe_to_return_to() {
    assert!(safe_return_to("/quotes"));
    assert!(safe_return_to("/admin/quotes"));
    assert!(safe_return_to("/admin/quotes/new"));
    assert!(safe_return_to(&format!("/quotes/{UUID}")));
    assert!(safe_return_to(&format!("/admin/quotes/{UUID}/edit")));
    assert!(!safe_return_to("/"));
    assert!(!safe_return_to("https://evil.example/quotes"));
    assert!(!safe_return_to("//evil.example"));
    assert!(!safe_return_to("/quotes/"));
    assert!(!safe_return_to("/quotes/abc"));
    assert!(!safe_return_to(&format!("/admin/quotes/{UUID}")));
    assert!(!safe_return_to(&format!("/admin/quotes/{UUID}/edit/")));
    assert!(!safe_return_to("/admin/quotes/edit"));
    assert!(!safe_return_to(&format!("/quotes/{UUID}?x=1")));
}

#[test]
fn ids_are_thirty_six_hex_digits_and_dashes() {
    assert!(valid_id(&chars_of(UUID)));
    assert!(valid_id(&chars_of("------------------------------------")));
    assert!(!valid_id(&chars_of("550e8400-e29b-41d4-a716-44665544000g")));
    assert!(!valid_id(&chars_of("550e8400")));
}

#[test]
fn tokens_are_stored_as_hex_sha256() {
    assert_eq!(hash("abc"), "ba7816bf8f01cfea414140de5dae2223b00361a396177a9cb410ff61f20015ad");
    assert_eq!(hash(""), "e3b0c44298fc1c149afbf4c8996fb92427ae41e4649b934ca495991b7852b855");
    assert_eq!(hash("token").len(), 64);
}

#[test]
fn bearer_tokens_are_checked_by_digest() {
    let expected = token_digest("secret-token");
    assert_eq!(expected.len(), 32);
    assert!(bearer_authorized(Some("Bearer secret-token"), &expected));
    assert!(!bearer_authorized(Some("Bearer other"), &expected));
    assert!(!bearer_authorized(Some("bearer secret-token"), &expected));
    assert!(!bearer_authorized(Some("secret-token"), &expected));
    assert!(!bearer_authorized(None, &expected));
}

#[test]
fn tool_tokens_need_thirty_two_visible_ascii_bytes() {
    assert!(valid_tool_token(&"a".repeat(32)));
    assert!(!valid_tool_token(&"a".repeat(31)));
    assert!(!valid_tool_token(&format!("{} ", "a".repeat(32))));
    assert!(!valid_tool_token(&format!("{}é", "a".repeat(32))));
}

#[test]
fn only_safe_return_paths_are_kept() {
    assert_eq!(return_to_cookie(Some("/quotes")).as_deref(), Some("/quotes"));
    assert_eq!(return_to_cookie(Some("/elsewhere")), None);
    assert_eq!(return_to_cookie(None), None);
}

#[test]
fn callbacks_are_cancelled_or_exchanged() {
    assert!(matches!(callback_action(Some("access_denied"), Some("/quotes")), CallbackAction::Cancelled));
    match callback_action(None, Some("/quotes")) {
        CallbackAction::Exchange { return_to } => assert_eq!(return_to, "/quotes"),
        CallbackAction::Cancelled => panic!("not cancelled"),
    }
    match callback_action(Some("other"), Some("/nope")) {
        CallbackAction::Exchange { return_to } => assert_eq!(return_to, "/"),
        CallbackAction::Cancelled => panic!("not cancelled"),
    }
    assert_eq!(exchange_redirect("/quotes".into(), true), "/quotes");
    assert_eq!(exchange_redirect("/quotes".into(), false), "/?auth=error");
    assert_eq!(cancelled_redirect(), "/?auth=cancelled");
}

#[test]
fn callback_checks_come_in_order() {
    let s = |v: &str| Some(v.to_string());
    assert_eq!(
        check_callback(s("st"), s("st"), s("code"), s("ver")).unwrap(),
        ("code".to_string(), "ver".to_string())
    );
    assert_eq!(check_callback(None, None, None, None).unwrap_err(), CallbackError::MissingState);
    assert_eq!(check_callback(s("a"), s("b"), s("c"), s("v")).unwrap_err(), CallbackError::InvalidState);
    assert_eq!(check_callback(s("a"), None, s("c"), s("v")).unwrap_err(), CallbackError::InvalidState);
    assert_eq!(check_callback(s("a"), s("a"), None, None).unwrap_err(), CallbackError::MissingCode);
    assert_eq!(check_callback(s("a"), s("a"), s("c"), None).unwrap_err(), CallbackError::MissingVerifier);
}

#[test]
fn accounts_show_name_avatar_and_role() {
    assert_eq!(display_name(Some("Global".into()), "user".into()), "Global");
    assert_eq!(display_name(None, "user".into()), "user");
    assert_eq!(session_expires_at(1000), 1000 + SESSION_SECONDS);
    assert_eq!(SESSION_SECONDS, 30 * 24 * 60 * 60);
    let admin = account_view("42".into(), "eve".into(), Some("av".into()), "42");
    assert!(admin.is_admin);
    assert_eq!(admin.initial, "E");
    assert_eq!(admin.avatar_url.as_deref(), Some("https://cdn.discordapp.com/avatars/42/av.webp?size=64"));
    let user = account_view("7".into(), "bob".into(), None, "42");
    assert!(!user.is_admin);
    assert!(user.avatar_url.is_none());
    assert_eq!(user.discord_id, "7");
    assert_eq!(user.display_name, "bob");
}

#[test]
fn the_callback_address_follows_the_site_address() {
    assert_eq!(callback_url("https://frig.dev/"), "https://frig.dev/auth/discord/callback");
    assert_eq!(callback_url("http://localhost:3000"), "http://localhost:3000/auth/discord/callback");
    assert!(secure_cookies("https://frig.dev//"));
    assert!(!secure_cookies("http://localhost:3000"));
    assert!(!secure_cookies("https://"));
}
