//! Sign-in with Discord: where a sign-in may return to, how the callback is
//! checked, how session tokens are stored, and the account shown once
//! signed in.
use vstd::prelude::*;
use vstd::utf8::{encode_scalar, encode_utf8};
use crate::admin::{avatar_url, avatar_url_text, initial, initial_text};
use crate::text::{
    chars_eq, chars_of, ascii_hexdigit, ends_with, has_prefix, has_suffix, is_ascii_hexdigit,
    slice_chars, starts_with, string_of, trim_end_char,
};

verus! {

/// How long a session lasts, in seconds: thirty days.
pub const SESSION_SECONDS: i64 = 2592000;

/// The signed-in account as pages show it.
#[derive(Debug)]
pub struct AccountView {
    pub discord_id: String,
    pub display_name: String,
    pub avatar_url: Option<String>,
    pub initial: String,
    pub is_admin: bool,
}

/// Why a Discord sign-in callback was refused before any token exchange.
#[derive(Debug, Clone, Copy, PartialEq, Eq)]
pub enum CallbackError {
    MissingState,
    InvalidState,
    MissingCode,
    MissingVerifier,
}

/// What to do with a Discord sign-in callback.
#[derive(Debug)]
pub enum CallbackAction {
    /// The user declined: go back to the home page with a notice.
    Cancelled,
    /// Exchange the code; on success go to `return_to`.
    Exchange { return_to: String },
}

/// The SHA-256 digest of `data`.
pub uninterp spec fn sha256(data: Seq<u8>) -> Seq<u8>;

/// Calls `sha2::Sha256::digest`; the result is named `sha256(data@)` and, as
/// the digest's output type fixes, is 32 bytes long.
#[verifier::external_body]
fn sha256_digest(data: &[u8]) -> (r: Vec<u8>)
    ensures
        r@ == sha256(data@),
        r@.len() == 32,
{
    <sha2::Sha256 as sha2::Digest>::digest(data).to_vec()
}

/// A quote ID: 36 characters, each a hex digit or `-`.
pub open spec fn valid_id_text(id: Seq<char>) -> bool {
    id.len() == 36 && forall|i: int| 0 <= i < id.len() ==> is_ascii_hexdigit(#[trigger] id[i])
        || id[i] == '-'
}

/// The paths a sign-in may return to: the quote pages.
pub open spec fn safe_return_to_text(path: Seq<char>) -> bool {
    ||| path == "/quotes"@
    ||| path == "/admin/quotes"@
    ||| path == "/admin/quotes/new"@
    ||| (starts_with(path, "/admin/quotes/"@) && ends_with(path, "/edit"@) && path.len() >= 19
        && valid_id_text(path.subrange(14, path.len() - 5)))
    ||| (starts_with(path, "/quotes/"@) && valid_id_text(path.subrange(8, path.len() as int)))
}

/// The lowercase hex digit for `d < 16`.
pub open spec fn hex_digit(d: nat) -> char {
    if d < 10 {
        (d + 48) as char
    } else {
        (d + 87) as char
    }
}

/// `bytes` in lowercase hex, two digits a byte, as `{:x}` writes a digest.
pub open spec fn hex_text(bytes: Seq<u8>) -> Seq<char>
    decreases bytes.len(),
{
    if bytes.len() == 0 {
        Seq::empty()
    } else {
        hex_text(bytes.drop_last()) + seq![
            hex_digit((bytes.last() / 16) as nat),
            hex_digit((bytes.last() % 16) as nat),
        ]
    }
}

/// The stored form of a session token: its SHA-256 digest in hex.
pub open spec fn token_hash_text(token: Seq<char>) -> Seq<char> {
    hex_text(sha256(vstd::utf8::encode_utf8(token)))
}

/// The token of an `Authorization: Bearer <token>` header value.
pub open spec fn bearer_token(header: Seq<char>) -> Option<Seq<char>> {
    if starts_with(header, "Bearer "@) {
        Some(header.subrange(7, header.len() as int))
    } else {
        None
    }
}

/// Whether `id` names a quote: 36 hex digits and dashes.
pub fn valid_id(id: &Vec<char>) -> (r: bool)
    ensures
        r == valid_id_text(id@),
{
    if id.len() != 36 {
        return false;
    }
    let mut i: usize = 0;
    while i < id.len()
        invariant
            i <= id.len(),
            forall|j: int| 0 <= j < i ==> is_ascii_hexdigit(#[trigger] id@[j]) || id@[j] == '-',
        decreases id.len() - i,
    {
        if !(ascii_hexdigit(id[i]) || id[i] == '-') {
            return false;
        }
        i += 1;
    }
    true
}

/// Whether a sign-in may return to `path`: the quote list, the admin list,
/// the new-quote page, an admin edit page or a quote page of a valid ID.
pub fn safe_return_to(path: &str) -> (r: bool)
    ensures
        r == safe_return_to_text(path@),
{
    let p = chars_of(path);
    if chars_eq(&p, &chars_of("/quotes")) || chars_eq(&p, &chars_of("/admin/quotes")) || chars_eq(
        &p,
        &chars_of("/admin/quotes/new"),
    ) {
        return true;
    }
    proof {
        reveal_strlit("/admin/quotes/");
        reveal_strlit("/edit");
        reveal_strlit("/quotes/");
    }
    let admin = has_prefix(&p, &chars_of("/admin/quotes/")) && has_suffix(&p, &chars_of("/edit"))
        && p.len() >= 19 && valid_id(&slice_chars(&p, 14, p.len() - 5));
    if admin {
        return true;
    }
    has_prefix(&p, &chars_of("/quotes/")) && valid_id(&slice_chars(&p, 8, p.len()))
}

/// A sign-in only returns to a path of this site: one that starts with a
/// single `/`, never to another host.
pub proof fn lemma_return_paths_stay_on_site(path: Seq<char>)
    requires
        safe_return_to_text(path),
    ensures
        path.len() >= 2,
        path[0] == '/',
        path[1] != '/',
{
    reveal_strlit("/quotes");
    reveal_strlit("/admin/quotes");
    reveal_strlit("/admin/quotes/new");
    reveal_strlit("/admin/quotes/");
    reveal_strlit("/quotes/");
    if starts_with(path, "/admin/quotes/"@) {
        assert(path[0] == path.subrange(0, 14)[0]);
        assert(path[1] == path.subrange(0, 14)[1]);
    } else if starts_with(path, "/quotes/"@) {
        assert(path[0] == path.subrange(0, 8)[0]);
        assert(path[1] == path.subrange(0, 8)[1]);
    }
}

/// The ASCII hex digits are `0` to `9`, `a` to `f` and `A` to `F`, as
/// `char::is_ascii_hexdigit` documents them.
pub proof fn lemma_hex_digits(c: char)
    ensures
        is_ascii_hexdigit(c) <==> ('0' <= c <= '9' || 'a' <= c <= 'f' || 'A' <= c <= 'F'),
{
}

/// A quote ID is accepted exactly when it has 36 characters, each an ASCII
/// hex digit of either case or a dash.
pub proof fn lemma_quote_ids(id: Seq<char>)
    ensures
        valid_id_text(id) <==> (id.len() == 36 && forall|i: int|
            0 <= i < id.len() ==> is_ascii_hexdigit(#[trigger] id[i]) || id[i] == '-'),
        valid_id_text(id) <==> (id.len() == 36 && forall|i: int|
            0 <= i < id.len() ==> ('0' <= #[trigger] id[i] <= '9' || 'a' <= id[i] <= 'f' || 'A'
                <= id[i] <= 'F' || id[i] == '-')),
{
}

/// A sign-in may return to the page of every quote with a valid ID, and to
/// its edit page.
pub proof fn lemma_quote_pages_are_safe(id: Seq<char>)
    requires
        valid_id_text(id),
    ensures
        safe_return_to_text("/quotes/"@ + id),
        safe_return_to_text("/admin/quotes/"@ + id + "/edit"@),
{
    reveal_strlit("/quotes/");
    reveal_strlit("/admin/quotes/");
    reveal_strlit("/edit");
    let q = "/quotes/"@ + id;
    assert(q.subrange(0, 8) =~= "/quotes/"@);
    assert(q.subrange(8, q.len() as int) =~= id);
    let a = "/admin/quotes/"@ + id + "/edit"@;
    assert(a.subrange(0, 14) =~= "/admin/quotes/"@);
    assert(a.subrange(a.len() - 5, a.len() as int) =~= "/edit"@);
    assert(a.subrange(14, a.len() - 5) =~= id);
}

/// Appends `bytes` in lowercase hex to `out`.
fn push_hex(bytes: &Vec<u8>, out: &mut Vec<char>)
    ensures
        final(out)@ == old(out)@ + hex_text(bytes@),
{
    let mut i: usize = 0;
    while i < bytes.len()
        invariant
            i <= bytes.len(),
            out@ == old(out)@ + hex_text(bytes@.take(i as int)),
        decreases bytes.len() - i,
    {
        let b = bytes[i];
        let hi = b / 16;
        let lo = b % 16;
        out.push(if hi < 10 { (hi + 48) as char } else { (hi + 87) as char });
        out.push(if lo < 10 { (lo + 48) as char } else { (lo + 87) as char });
        assert(bytes@.take(i + 1).drop_last() =~= bytes@.take(i as int));
        assert(out@ =~= old(out)@ + hex_text(bytes@.take(i + 1)));
        i += 1;
    }
    assert(bytes@.take(bytes.len() as int) =~= bytes@);
}

/// The stored form of a session token: the lowercase hex of its SHA-256
/// digest.
pub fn hash(value: &str) -> (r: String)
    ensures
        r@ == token_hash_text(value@),
        r@.len() == 64,
{
    let digest = sha256_digest(value.as_bytes());
    let mut out: Vec<char> = Vec::new();
    push_hex(&digest, &mut out);
    proof {
        lemma_hex_len(digest@);
    }
    string_of(&out)
}

proof fn lemma_hex_len(bytes: Seq<u8>)
    ensures
        hex_text(bytes).len() == 2 * bytes.len(),
    decreases bytes.len(),
{
    if bytes.len() > 0 {
        lemma_hex_len(bytes.drop_last());
    }
}

/// The header carries a bearer token whose SHA-256 digest is `expected`.
pub open spec fn bearer_matches(header: Option<&str>, expected: Seq<u8>) -> bool {
    match header {
        Some(h) => match bearer_token(h@) {
            Some(t) => sha256(vstd::utf8::encode_utf8(t)) == expected,
            None => false,
        },
        None => false,
    }
}

/// Whether an `Authorization` header value carries a bearer token whose
/// SHA-256 digest is `expected`.
pub fn bearer_authorized(header: Option<&str>, expected: &Vec<u8>) -> (r: bool)
    ensures
        r == bearer_matches(header, expected@),
{
    let h = match header {
        Some(h) => h,
        None => {
            return false;
        },
    };
    let v = chars_of(h);
    proof {
        reveal_strlit("Bearer ");
    }
    if !has_prefix(&v, &chars_of("Bearer ")) {
        return false;
    }
    let token = string_of(&slice_chars(&v, 7, v.len()));
    assert(bearer_token(h@) == Some(token@));
    let digest = sha256_digest(token.as_str().as_bytes());
    assert(digest@ == sha256(vstd::utf8::encode_utf8(token@)));
    if digest.len() != expected.len() {
        assert(digest@.len() != expected@.len());
        return false;
    }
    let mut i: usize = 0;
    while i < digest.len()
        invariant
            i <= digest.len() == expected.len(),
            forall|j: int| 0 <= j < i ==> digest@[j] == expected@[j],
            header == Some(h),
            bearer_token(h@) == Some(token@),
            digest@ == sha256(vstd::utf8::encode_utf8(token@)),
        decreases digest.len() - i,
    {
        if digest[i] != expected[i] {
            assert(digest@[i as int] != expected@[i as int]);
            return false;
        }
        i += 1;
    }
    assert(digest@ =~= expected@);
    true
}

/// The return path that a sign-in keeps, where it may return there.
pub fn return_to_cookie(return_to: Option<&str>) -> (r: Option<String>)
    ensures
        match return_to {
            Some(p) if safe_return_to_text(p@) => r matches Some(s) && s@ == p@,
            _ => r is None,
        },
{
    match return_to {
        Some(p) => if safe_return_to(p) {
            Some(string_of(&chars_of(p)))
        } else {
            None
        },
        None => None,
    }
}

/// The callback reports that the user declined.
pub open spec fn access_denied(error: Option<&str>) -> bool {
    error matches Some(e) && e@ == "access_denied"@
}

/// The kept path where a sign-in may return there, else the home page.
pub open spec fn return_path(return_to: Option<&str>) -> Seq<char> {
    match return_to {
        Some(q) => if safe_return_to_text(q@) {
            q@
        } else {
            "/"@
        },
        None => "/"@,
    }
}

/// What to do with a sign-in callback: a denied authorization is a
/// cancellation; otherwise the code is exchanged, and success returns to the
/// kept path where it is a safe one, else to the home page.
pub fn callback_action(error: Option<&str>, return_to: Option<&str>) -> (r: CallbackAction)
    ensures
        access_denied(error) ==> r is Cancelled,
        !access_denied(error) ==> (r matches CallbackAction::Exchange { return_to: p } && p@
            == return_path(return_to)),
{
    let denied = match error {
        Some(e) => chars_eq(&chars_of(e), &chars_of("access_denied")),
        None => false,
    };
    if denied {
        return CallbackAction::Cancelled;
    }
    let path = match return_to_cookie(return_to) {
        Some(p) => p,
        None => string_of(&chars_of("/")),
    };
    CallbackAction::Exchange { return_to: path }
}

/// Where a sign-in ends: the kept path after a successful exchange, the home
/// page with an error notice after a failed one.
pub fn exchange_redirect(return_to: String, exchanged: bool) -> (r: String)
    ensures
        exchanged ==> r == return_to,
        !exchanged ==> r@ == "/?auth=error"@,
{
    if exchanged {
        return_to
    } else {
        string_of(&chars_of("/?auth=error"))
    }
}

/// Where a cancelled sign-in goes.
pub fn cancelled_redirect() -> (r: String)
    ensures
        r@ == "/?auth=cancelled"@,
{
    string_of(&chars_of("/?auth=cancelled"))
}

/// The checks of a callback before the code is exchanged, in order: the
/// state is present and equals the one kept at sign-in, then the code and
/// the PKCE verifier are present. On success, the code and the verifier.
pub fn check_callback(
    state: Option<String>,
    expected_state: Option<String>,
    code: Option<String>,
    verifier: Option<String>,
) -> (r: Result<(String, String), CallbackError>)
    ensures
        match r {
            Ok((c, v)) => state is Some && expected_state is Some && expected_state->0@
                == state->0@ && code == Some(c) && verifier == Some(v),
            Err(CallbackError::MissingState) => state is None,
            Err(CallbackError::InvalidState) => state is Some && !(expected_state is Some
                && expected_state->0@ == state->0@),
            Err(CallbackError::MissingCode) => state is Some && expected_state is Some
                && expected_state->0@ == state->0@ && code is None,
            Err(CallbackError::MissingVerifier) => state is Some && expected_state is Some
                && expected_state->0@ == state->0@ && code is Some && verifier is None,
        },
{
    let state = match state {
        Some(s) => s,
        None => {
            return Err(CallbackError::MissingState);
        },
    };
    let matches = match &expected_state {
        Some(e) => *e == state,
        None => false,
    };
    if !matches {
        return Err(CallbackError::InvalidState);
    }
    let code = match code {
        Some(c) => c,
        None => {
            return Err(CallbackError::MissingCode);
        },
    };
    let verifier = match verifier {
        Some(v) => v,
        None => {
            return Err(CallbackError::MissingVerifier);
        },
    };
    Ok((code, verifier))
}

/// The name a Discord user is shown under: the global name where there is
/// one, else the user name.
pub fn display_name(global_name: Option<String>, username: String) -> (r: String)
    ensures
        r == match global_name {
            Some(g) => g,
            None => username,
        },
{
    match global_name {
        Some(g) => g,
        None => username,
    }
}

/// When a session created at `timestamp` expires.
pub fn session_expires_at(timestamp: i64) -> (r: i64)
    requires
        timestamp <= i64::MAX - SESSION_SECONDS,
    ensures
        r == timestamp + SESSION_SECONDS,
{
    timestamp + SESSION_SECONDS
}

/// The signed-in account from the stored user: its initial, its avatar
/// address where it has an avatar, and whether it is the administrator.
pub fn account_view(
    id: String,
    display_name: String,
    avatar: Option<String>,
    admin_discord_id: &str,
) -> (r: AccountView)
    ensures
        r.discord_id == id,
        r.display_name == display_name,
        r.initial@ == initial_text(display_name@),
        match avatar {
            Some(h) => r.avatar_url matches Some(u) && u@ == avatar_url_text(id@, h@),
            None => r.avatar_url is None,
        },
        r.is_admin == (id@ == admin_discord_id@),
{
    let is_admin = chars_eq(&chars_of(id.as_str()), &chars_of(admin_discord_id));
    AccountView {
        initial: initial(display_name.as_str()),
        avatar_url: match avatar {
            Some(h) => Some(avatar_url(id.as_str(), h.as_str())),
            None => None,
        },
        is_admin,
        discord_id: id,
        display_name,
    }
}

/// The site address without trailing slashes.
pub open spec fn app_base(app_url: Seq<char>) -> Seq<char> {
    trim_end_char(app_url, '/')
}

/// The address Discord sends the user back to.
pub fn callback_url(app_url: &str) -> (r: String)
    ensures
        r@ == app_base(app_url@) + "/auth/discord/callback"@,
{
    let mut v = chars_of(app_url);
    while v.len() > 0 && v[v.len() - 1] == '/'
        invariant
            app_base(v@) == app_base(app_url@),
        decreases v.len(),
    {
        v.pop();
    }
    crate::text::append_str(&mut v, "/auth/discord/callback");
    string_of(&v)
}

/// Whether cookies are marked secure: the site is served over HTTPS.
pub fn secure_cookies(app_url: &str) -> (r: bool)
    ensures
        r == starts_with(app_base(app_url@), "https://"@),
{
    let mut v = chars_of(app_url);
    while v.len() > 0 && v[v.len() - 1] == '/'
        invariant
            app_base(v@) == app_base(app_url@),
        decreases v.len(),
    {
        v.pop();
    }
    has_prefix(&v, &chars_of("https://"))
}


/// The SHA-256 digest of the bytes of `token`, against which bearer tokens
/// are checked.
pub fn token_digest(token: &str) -> (r: Vec<u8>)
    ensures
        r@ == sha256(vstd::utf8::encode_utf8(token@)),
        r@.len() == 32,
{
    sha256_digest(token.as_bytes())
}

/// A usable tool token: at least 32 bytes, all visible ASCII characters.
pub open spec fn valid_token_text(token: Seq<char>) -> bool {
    let bytes = vstd::utf8::encode_utf8(token);
    bytes.len() >= 32 && forall|i: int| 0 <= i < bytes.len() ==> 0x21 <= #[trigger] bytes[i] <= 0x7e
}

/// The UTF-8 encoding of one character: the character itself for ASCII,
/// else a leading byte of `0xC0` or more.
proof fn lemma_scalar_bytes(c: char)
    ensures
        (c as u32) <= 0x7f ==> encode_scalar(c as u32) == seq![(c as u32) as u8],
        (c as u32) > 0x7f ==> encode_scalar(c as u32).len() >= 1 && encode_scalar(c as u32)[0]
            >= 0xc0,
{
    let v = c as u32;
    if v <= 0x7f {
        assert(v & 0x7f == v) by (bit_vector)
            requires
                v <= 0x7f,
        ;
    } else if v <= 0x7ff {
        let x = ((v >> 6) & 0x1f) as u8;
        assert(0xc0 | x >= 0xc0) by (bit_vector);
    } else if v <= 0xffff {
        let x = ((v >> 12) & 0x0f) as u8;
        assert(0xe0 | x >= 0xc0) by (bit_vector);
    } else {
        let x = ((v >> 18) & 0x7) as u8;
        assert(0xf0 | x >= 0xc0) by (bit_vector);
    }
}

/// Visible ASCII text is encoded one byte a character, each byte the
/// character's code; text with another character has a byte outside
/// `0x21..=0x7e`.
proof fn lemma_visible_ascii_bytes(t: Seq<char>)
    ensures
        (forall|i: int| 0 <= i < t.len() ==> 0x21 <= (#[trigger] t[i]) as u32 <= 0x7e) ==> {
            &&& encode_utf8(t).len() == t.len()
            &&& forall|i: int| 0 <= i < t.len() ==> #[trigger] encode_utf8(t)[i] == (t[i] as u32) as u8
        },
        (exists|i: int| 0 <= i < t.len() && !(0x21 <= (#[trigger] t[i]) as u32 <= 0x7e)) ==> exists|j: int|
            0 <= j < encode_utf8(t).len() && !(0x21 <= #[trigger] encode_utf8(t)[j] <= 0x7e),
    decreases t.len(),
{
    if t.len() > 0 {
        let rest = t.drop_first();
        lemma_visible_ascii_bytes(rest);
        lemma_scalar_bytes(t[0]);
        let head = encode_scalar(t[0] as u32);
        let bytes = encode_utf8(t);
        assert(bytes == head + encode_utf8(rest));
        if forall|i: int| 0 <= i < t.len() ==> 0x21 <= (#[trigger] t[i]) as u32 <= 0x7e {
            assert(forall|i: int| 0 <= i < rest.len() ==> 0x21 <= (#[trigger] rest[i]) as u32 <= 0x7e) by {
                assert forall|i: int| 0 <= i < rest.len() implies 0x21 <= (#[trigger] rest[i]) as u32 <= 0x7e by {
                    assert(rest[i] == t[i + 1]);
                }
            }
            assert(0x21 <= t[0] as u32 <= 0x7e);
            assert forall|i: int| 0 <= i < t.len() implies #[trigger] bytes[i] == (t[i] as u32) as u8 by {
                if i > 0 {
                    assert(bytes[i] == encode_utf8(rest)[i - 1]);
                    assert(rest[i - 1] == t[i]);
                }
            }
        }
        if exists|i: int| 0 <= i < t.len() && !(0x21 <= (#[trigger] t[i]) as u32 <= 0x7e) {
            let i = choose|i: int| 0 <= i < t.len() && !(0x21 <= (#[trigger] t[i]) as u32 <= 0x7e);
            if i == 0 {
                if (t[0] as u32) <= 0x7f {
                    let v = t[0] as u32;
                    assert(bytes[0] == v as u8);
                    assert((v as u8) as u32 == v) by (bit_vector)
                        requires
                            v <= 0x7f,
                    ;
                    assert(!(0x21 <= v <= 0x7e));
                } else {
                    assert(bytes[0] == head[0]);
                }
                assert(!(0x21 <= bytes[0] <= 0x7e));
            } else {
                assert(rest[i - 1] == t[i]);
                assert(exists|k: int| 0 <= k < rest.len() && !(0x21 <= (#[trigger] rest[k]) as u32 <= 0x7e));
                let j = choose|j: int|
                    0 <= j < encode_utf8(rest).len() && !(0x21 <= #[trigger] encode_utf8(rest)[j] <= 0x7e);
                assert(bytes[head.len() + j] == encode_utf8(rest)[j]);
                assert(!(0x21 <= bytes[head.len() + j] <= 0x7e));
            }
        }
    }
}

/// A tool token is usable exactly when it has at least 32 characters and
/// each is a visible ASCII character, `!` (0x21) to `~` (0x7e): letters, digits and
/// punctuation such as `+`, `/`, `=`, `-` and `_` all count.
pub proof fn lemma_tool_tokens(t: Seq<char>)
    ensures
        valid_token_text(t) <==> (t.len() >= 32 && forall|i: int| 0 <= i < t.len() ==> 0x21 <= (#[trigger] t[i]) as u32 <= 0x7e),
{
    lemma_visible_ascii_bytes(t);
    let bytes = encode_utf8(t);
    if forall|i: int| 0 <= i < t.len() ==> 0x21 <= (#[trigger] t[i]) as u32 <= 0x7e {
        assert forall|i: int| 0 <= i < bytes.len() implies 0x21 <= #[trigger] bytes[i] <= 0x7e by {
            assert(bytes[i] == (t[i] as u32) as u8);
        }
    } else {
        let i = choose|i: int| !(0 <= i < t.len() ==> 0x21 <= (#[trigger] t[i]) as u32 <= 0x7e);
        assert(exists|k: int| 0 <= k < t.len() && !(0x21 <= (#[trigger] t[k]) as u32 <= 0x7e));
    }
}

/// Whether `token` may guard the tool endpoint: at least 32 bytes, none of
/// them white space, control or non-ASCII.
pub fn valid_tool_token(token: &str) -> (r: bool)
    ensures
        r == valid_token_text(token@),
{
    let bytes = token.as_bytes();
    if bytes.len() < 32 {
        return false;
    }
    let mut i: usize = 0;
    while i < bytes.len()
        invariant
            i <= bytes@.len(),
            bytes@ == vstd::utf8::encode_utf8(token@),
            forall|j: int| 0 <= j < i ==> 0x21 <= #[trigger] bytes@[j] <= 0x7e,
        decreases bytes@.len() - i,
    {
        if bytes[i] < 0x21 || bytes[i] > 0x7e {
            return false;
        }
        i += 1;
    }
    true
}
} // verus!
