//! The web frame: which host reaches which space, who is let in at all, and
//! what every answer carries. This is the frame each page passes through, and
//! it is the layer that fails closed.
use crate::auth::oidc::PendingLogin;
use crate::authz::{
    may_modify, may_post, may_read, may_reply, posts, reads, replies, Identity, IdentityView,
};
use crate::codec::{percent_encode, percent_encoded};
use crate::config::{category_named, CategoryView, Space, SpaceView, View};
use crate::db::events::control;
use crate::db::likes::Outcome;
use crate::db::topics::Deleted;
use crate::live::{path_to_post, post_path};
use crate::media::{detect, detected, strip_metadata, stripped, MediaType};
use crate::text::{
    begins, chars, decimal, decimal_text, find_char, first_at, first_at_found, same, slice_string,
    starts_with, text_of, trim, trimmed,
};
use crate::web::internal::same_bytes;
use vstd::prelude::*;
use vstd::string::*;
use vstd::utf8::encode_utf8;
use vstd::view::View as _;

pub mod html;
pub mod internal;
pub mod scim;
pub mod times;
pub mod views;

verus! {

/// No inline anything, no third party, nothing framed. The stylesheet and the
/// scripts are served as their own routes so that `style-src 'self'` and
/// `script-src 'self'` can stay honest.
pub const CSP: &'static str = "default-src 'self'; img-src 'self'; style-src 'self'; script-src 'self'; object-src 'none'; frame-ancestors 'none'; base-uri 'none'; form-action 'self'";

pub const SESSION_COOKIE: &'static str = "treff_session";

pub const PENDING_COOKIE: &'static str = "treff_pending";

/// How long a sign-in may take.
pub const PENDING_MINUTES: i64 = 10;

pub const PAGE_SIZE: i64 = 50;

/// How many lines the notifications page shows. Enough for a week away; a list
/// longer than that is not read, it is scrolled past.
pub const INBOX_PAGE: i64 = 50;

/// How many entries the overlay under the bell shows. The rest is one click
/// further, on the page.
pub const OVERLAY_ENTRIES: i64 = 12;

/// The point at which a request is refused before it is read into memory. Not
/// the user-facing limit: that one is per space and configurable.
pub const HARD_UPLOAD_LIMIT: usize = 33554432;

/// The limits on what may be written.
pub const MAX_TITLE_CHARS: usize = 200;

pub const MAX_BODY_BYTES: usize = 65536;

/// The least a stored key for the cookies must hold.
pub const COOKIE_KEY_BYTES: usize = 64;

/// Does a cookie go along when another site leads here?
#[derive(Debug, Clone, Copy, PartialEq, Eq, Structural)]
pub enum SameSite {
    /// On no account.
    Strict,
    /// When somebody follows a link, as they do on the way back from the
    /// provider.
    Lax,
}

/// A cookie as it is handed to a browser.
#[derive(Debug)]
pub struct Cookie {
    pub name: String,
    pub value: String,
    /// Out of reach of every script.
    pub http_only: bool,
    /// Never over a plain connection.
    pub secure: bool,
    pub same_site: SameSite,
    pub path: String,
    /// How long it is kept; without a limit, until the browser is closed.
    pub minutes: Option<i64>,
}

/// The cookie that remembers who signed in.
pub fn session_cookie(id: String) -> (r: Cookie)
    ensures
        r.name@ == SESSION_COOKIE@,
        r.value@ == id@,
        r.http_only && r.secure,
        r.same_site == SameSite::Lax,
        r.path@ == "/"@,
        r.minutes is None,
{
    Cookie {
        name: SESSION_COOKIE.to_owned(),
        value: id,
        http_only: true,
        secure: true,
        same_site: SameSite::Lax,
        path: "/".to_owned(),
        minutes: None,
    }
}

/// The cookie that remembers a sign-in while it is under way. It is sent to
/// the pages of the sign-in alone, and it does not outlive it.
pub fn pending_cookie(value: String) -> (r: Cookie)
    ensures
        r.name@ == PENDING_COOKIE@,
        r.value@ == value@,
        r.http_only && r.secure,
        r.same_site == SameSite::Lax,
        r.path@ == "/auth"@,
        r.minutes == Some(PENDING_MINUTES),
{
    Cookie {
        name: PENDING_COOKIE.to_owned(),
        value,
        http_only: true,
        secure: true,
        same_site: SameSite::Lax,
        path: "/auth".to_owned(),
        minutes: Some(PENDING_MINUTES),
    }
}

/// Where the provider sends people back to for a space.
pub open spec fn callback_of(host: Seq<char>) -> Seq<char> {
    "https://"@ + host + "/auth/callback"@
}

/// Where the provider must send people back to for a given space.
///
/// DERIVED FROM THE HOST, NOT CONFIGURED. One process serves several
/// addresses, and a cookie belongs to exactly one of them: the short-lived
/// cookie of a sign-in is set on the host it began at, and is never sent to
/// another. So each space comes back to itself. HTTPS is not a choice here:
/// the session cookie is `Secure`, so the site is served over TLS or not at
/// all.
pub fn redirect_uri_for(host: &str) -> (r: String)
    ensures
        r@ == callback_of(host@),
{
    "https://".to_owned().concat(host).concat("/auth/callback")
}

/// Is what stands in the key file usable? A key made at every start would sign
/// everyone out on every restart.
pub fn usable_cookie_key(stored: &[u8]) -> (r: bool)
    ensures
        r == (stored@.len() >= COOKIE_KEY_BYTES),
{
    stored.len() >= COOKIE_KEY_BYTES
}

/// Why a request is refused, and what is said about it. A refusal says as
/// little as possible.
#[derive(Debug, Clone, Copy, PartialEq, Eq, Structural)]
pub enum Refusal {
    /// The host is no space's: refused, not mapped to the first space.
    UnknownHost,
    /// A page of some other site asked for a change.
    Foreign,
    /// Not for this person.
    Forbidden,
    /// Through this address the thing does not exist, and the answer must not
    /// hint otherwise.
    NotFound,
    /// A word that is neither of the two that are meant.
    NotASwitch,
    NoTitle,
    LongTitle,
    NoText,
    LongText,
    NoFile,
    TooLarge,
    Unsupported,
    /// Other people have replied.
    HasReplies,
    /// The provider said no.
    ProviderRefused,
    /// Neither a code nor a refusal.
    NotACallback,
    /// No sign-in was begun here.
    NotBegun,
}

impl Refusal {
    pub open spec fn code(self) -> u16 {
        match self {
            Refusal::UnknownHost => 403,
            Refusal::Foreign => 403,
            Refusal::Forbidden => 403,
            Refusal::ProviderRefused => 403,
            Refusal::NotFound => 404,
            Refusal::HasReplies => 409,
            Refusal::TooLarge => 413,
            Refusal::Unsupported => 415,
            _ => 400,
        }
    }

    /// The status of the answer.
    pub fn status(self) -> (r: u16)
        ensures
            r == self.code(),
    {
        match self {
            Refusal::UnknownHost => 403,
            Refusal::Foreign => 403,
            Refusal::Forbidden => 403,
            Refusal::ProviderRefused => 403,
            Refusal::NotFound => 404,
            Refusal::HasReplies => 409,
            Refusal::TooLarge => 413,
            Refusal::Unsupported => 415,
            _ => 400,
        }
    }

    pub open spec fn words(self) -> Seq<char> {
        match self {
            Refusal::UnknownHost => "unknown host"@,
            Refusal::Foreign => "that came from somewhere else"@,
            Refusal::Forbidden => "not for you"@,
            Refusal::NotFound => "not found"@,
            Refusal::NotASwitch => "on is 1 or 0"@,
            Refusal::NoTitle => "a topic needs a title"@,
            Refusal::LongTitle => "that title is too long"@,
            Refusal::NoText => "a post needs a text"@,
            Refusal::LongText => "that text is too long"@,
            Refusal::NoFile => "no file in the upload"@,
            Refusal::TooLarge => "that file is too large"@,
            Refusal::Unsupported => "only JPEG, PNG, GIF and WebP images can be attached"@,
            Refusal::HasReplies =>
                "other people have replied here; deleting this would delete their posts too"@,
            Refusal::ProviderRefused => "the provider refused the sign-in"@,
            Refusal::NotACallback => "not a callback"@,
            Refusal::NotBegun => "this sign-in was not started here, or it took too long"@,
        }
    }

    /// What the answer says.
    pub fn as_str(self) -> (r: &'static str)
        ensures
            r@ == self.words(),
    {
        match self {
            Refusal::UnknownHost => "unknown host",
            Refusal::Foreign => "that came from somewhere else",
            Refusal::Forbidden => "not for you",
            Refusal::NotFound => "not found",
            Refusal::NotASwitch => "on is 1 or 0",
            Refusal::NoTitle => "a topic needs a title",
            Refusal::LongTitle => "that title is too long",
            Refusal::NoText => "a post needs a text",
            Refusal::LongText => "that text is too long",
            Refusal::NoFile => "no file in the upload",
            Refusal::TooLarge => "that file is too large",
            Refusal::Unsupported => "only JPEG, PNG, GIF and WebP images can be attached",
            Refusal::HasReplies =>
                "other people have replied here; deleting this would delete their posts too",
            Refusal::ProviderRefused => "the provider refused the sign-in",
            Refusal::NotACallback => "not a callback",
            Refusal::NotBegun => "this sign-in was not started here, or it took too long",
        }
    }
}

/// Does this method change nothing?
pub open spec fn only_reads(method: Seq<char>) -> bool {
    method == "GET"@ || method == "HEAD"@ || method == "OPTIONS"@
}

/// Is the request one that no other site made?
pub open spec fn not_borrowed(method: Seq<char>, site: Option<Seq<u8>>) -> bool {
    only_reads(method) || site is None || site->0 == encode_utf8("same-origin"@)
}

/// The second line of defence against borrowed cookies, and the first one that
/// is ours. `site` is what the browser says in `Sec-Fetch-Site`, which is
/// nothing the page doing the asking can set or suppress.
///
/// * **Only methods that change something are asked.** A link in a mail or a
///   chat must keep working.
/// * **`same-site` is refused like `cross-site`.** Every space is its own host
///   with its own groups, so a page served by a neighbouring space is as
///   foreign as any other site.
/// * **No header at all is let through.** Every browser that can be borrowed
///   from sends it; something that does not has no cookies to borrow.
pub fn same_origin_enough(method: &str, site: Option<&[u8]>) -> (r: bool)
    ensures
        r == not_borrowed(
            method@,
            match site {
                Some(site) => Some(site@),
                None => None,
            },
        ),
{
    if same(method, "GET") || same(method, "HEAD") || same(method, "OPTIONS") {
        return true;
    }
    match site {
        None => true,
        Some(site) => same_bytes(site, "same-origin".as_bytes()),
    }
}

/// Is this path open to everybody? The way out of a mail is, BY DESIGN: an
/// unsubscribe link that asks for a sign-in is not an unsubscribe link. It
/// carries its own proof.
pub open spec fn open_path(path: Seq<char>) -> bool {
    starts_with(path, "/auth/"@) || starts_with(path, "/assets/"@) || starts_with(path, "/u/"@)
}

/// What happens to a request before any page sees it.
#[derive(Debug, Clone, Copy, PartialEq, Eq, Structural)]
pub enum Door {
    Refuse(Refusal),
    SignIn,
    Pass,
}

pub open spec fn door_for(
    known_host: bool,
    own_site: bool,
    path: Seq<char>,
    signed_in: bool,
) -> Door {
    if !known_host {
        Door::Refuse(Refusal::UnknownHost)
    } else if !own_site {
        Door::Refuse(Refusal::Foreign)
    } else if !open_path(path) && !signed_in {
        Door::SignIn
    } else {
        Door::Pass
    }
}

/// Everything that is not the sign-in itself, a static asset or the way out of
/// a mail needs a session. The door stands in front of the routes, so a page
/// added later cannot forget it.
pub fn require_session(known_host: bool, own_site: bool, path: &str, signed_in: bool) -> (r: Door)
    ensures
        r == door_for(known_host, own_site, path@, signed_in),
{
    if !known_host {
        return Door::Refuse(Refusal::UnknownHost);
    }
    if !own_site {
        return Door::Refuse(Refusal::Foreign);
    }
    let all = chars(path);
    let open = begins(&all, &chars("/auth/")) || begins(&all, &chars("/assets/")) || begins(
        &all,
        &chars("/u/"),
    );
    if !open && !signed_in {
        Door::SignIn
    } else {
        Door::Pass
    }
}

/// Is this a place on this site to return to?
pub open spec fn safe_path(path: Seq<char>) -> bool {
    &&& path.len() > 0 && path[0] == '/'
    &&& !starts_with(path, "//"@)
    &&& !starts_with(path, "/\\"@)
    &&& !starts_with(path, "/auth/"@)
    &&& forall|i: int| 0 <= i < path.len() ==> !control(#[trigger] path[i])
}

/// Where a sign-in returns to.
pub open spec fn return_place(raw: Option<Seq<char>>) -> Seq<char> {
    if raw is Some && safe_path(raw->0) {
        raw->0
    } else {
        "/"@
    }
}

/// Where a sign-in returns to. `next` comes from an address, so anyone can
/// write it: only a path on this site is followed. Anything that would leave
/// the site (a scheme, a `//host`, a backslash a browser reads as one), land
/// on the sign-in again (a loop), or break the cookie it is stored in (a line
/// break) falls back to the front page.
pub fn safe_return_path(raw: Option<&str>) -> (r: String)
    ensures
        r@ == return_place(
            match raw {
                Some(raw) => Some(raw@),
                None => None,
            },
        ),
{
    match raw {
        Some(path) => if is_safe_path(path) {
            path.to_owned()
        } else {
            "/".to_owned()
        },
        None => "/".to_owned(),
    }
}

fn is_safe_path(path: &str) -> (r: bool)
    ensures
        r == safe_path(path@),
{
    let all = chars(path);
    if all.len() == 0 || all[0] != '/' {
        return false;
    }
    if begins(&all, &chars("//")) || begins(&all, &chars("/\\")) || begins(&all, &chars("/auth/")) {
        return false;
    }
    let mut i: usize = 0;
    while i < all.len()
        invariant
            i <= all@.len(),
            all@ == path@,
            forall|k: int| 0 <= k < i ==> !control(#[trigger] path@[k]),
        decreases all@.len() - i,
    {
        let c = all[i];
        if c <= '\u{1f}' || (c >= '\u{7f}' && c <= '\u{9f}') {
            assert(control(path@[i as int]));
            return false;
        }
        i += 1;
    }
    true
}

/// Wherever a sign-in returns to is a place on this site, whatever was asked
/// for; and asking for that place again changes nothing.
pub proof fn a_sign_in_stays_on_this_site(raw: Option<Seq<char>>)
    ensures
        safe_path(return_place(raw)),
        return_place(Some(return_place(raw))) == return_place(raw),
{
    reveal_strlit("/");
    reveal_strlit("//");
    reveal_strlit("/\\");
    reveal_strlit("/auth/");
    let root = "/"@;
    assert(root.len() == 1 && root[0] == '/');
    assert(!control('/'));
    assert(safe_path(root));
}

/// The sign-in, with the page that asked for it.
pub open spec fn sign_in_place(method: Seq<char>, page: Option<Seq<char>>) -> Seq<char> {
    if method == "GET"@ && page is Some && return_place(page) != "/"@ {
        "/auth/login?next="@ + percent_encoded(page->0)
    } else {
        "/auth/login"@
    }
}

/// The redirect to the sign-in, carrying the page that asked for it: a link to
/// a topic must lead THERE after the sign-in, not to the front page. Only a
/// GET is remembered: a form posted after the session ran out cannot be
/// replayed by the GET that follows the callback.
pub fn login_redirect(method: &str, page: Option<&str>) -> (r: String)
    ensures
        r@ == sign_in_place(
            method@,
            match page {
                Some(page) => Some(page@),
                None => None,
            },
        ),
{
    if same(method, "GET") {
        match page {
            Some(page) => {
                let place = safe_return_path(Some(page));
                if !same(&place, "/") {
                    return "/auth/login?next=".to_owned().concat(&percent_encode(page));
                }
            },
            None => {},
        }
    }
    "/auth/login".to_owned()
}

/// What a sign-in remembers: three secrets and the page to return to, a line
/// each.
pub open spec fn pending_text(
    state: Seq<char>,
    nonce: Seq<char>,
    verifier: Seq<char>,
    return_to: Seq<char>,
) -> Seq<char> {
    state + "\n"@ + nonce + "\n"@ + verifier + "\n"@ + return_to
}

/// What goes into the cookie of a sign-in. The secrets never appear in an
/// address; the page is checked by `safe_return_path` BEFORE it goes in.
pub fn pending_value(pending: &PendingLogin, return_to: &str) -> (r: String)
    ensures
        r@ == pending_text(
            pending.state@,
            pending.nonce@,
            pending.pkce_verifier@,
            return_to@,
        ),
{
    pending.state.clone().concat("\n").concat(&pending.nonce).concat("\n").concat(
        &pending.pkce_verifier,
    ).concat("\n").concat(return_to)
}

/// The lines of a text.
pub open spec fn lines_of(s: Seq<char>) -> Seq<Seq<char>>
    decreases s.len(),
{
    let n = first_at(s, '\n');
    if 0 <= n < s.len() {
        seq![s.take(n)] + lines_of(s.skip(n + 1))
    } else {
        seq![s]
    }
}

/// What the lines of the cookie say.
pub open spec fn pending_in(lines: Seq<Seq<char>>) -> Option<
    (Seq<char>, Seq<char>, Seq<char>, Seq<char>),
> {
    if lines.len() < 3 || lines.len() > 4 || lines[0].len() == 0 || lines[1].len() == 0
        || lines[2].len() == 0 {
        None
    } else {
        Some(
            (
                lines[0],
                lines[1],
                lines[2],
                return_place(
                    if lines.len() == 4 {
                        Some(lines[3])
                    } else {
                        None
                    },
                ),
            ),
        )
    }
}

fn split_lines(s: &str) -> (r: Vec<String>)
    ensures
        crate::text::texts(r@) == lines_of(s@),
{
    let all = chars(s);
    let size: usize = all.len();
    let mut out: Vec<String> = Vec::new();
    let mut at: usize = 0;
    assert(s@.skip(0) == s@);
    assert(crate::text::texts(out@) + lines_of(s@.skip(0)) =~= lines_of(s@));
    loop
        invariant
            at <= size == all@.len(),
            all@ == s@,
            crate::text::texts(out@) + lines_of(s@.skip(at as int)) == lines_of(s@),
        decreases size - at,
    {
        let ghost rest = s@.skip(at as int);
        let ghost before = crate::text::texts(out@);
        assert(all@.subrange(at as int, size as int) == rest);
        let n: usize = find_char(&all[at..size], '\n');
        assert(rest.take(n as int) == s@.subrange(at as int, at + n));
        out.push(slice_string(&all, at, at + n));
        assert(crate::text::texts(out@) =~= before.push(rest.take(n as int)));
        if at + n == size {
            assert(rest.take(n as int) == rest);
            assert(crate::text::texts(out@) =~= before + seq![rest]);
            return out;
        }
        assert(rest.skip(n + 1) == s@.skip(at + n + 1));
        assert(crate::text::texts(out@) + lines_of(s@.skip(at + n + 1)) =~= before + (seq![
            rest.take(n as int),
        ] + lines_of(rest.skip(n + 1))));
        at = at + n + 1;
    }
}

/// The cookie's three secrets and the page to return to. A cookie of three
/// lines has no page; such a sign-in still completes, on the front page.
pub fn parse_pending(value: &str) -> (r: Option<(PendingLogin, String)>)
    ensures
        match r {
            Some((pending, return_to)) => pending_in(lines_of(value@)) == Some(
                (pending.state@, pending.nonce@, pending.pkce_verifier@, return_to@),
            ),
            None => pending_in(lines_of(value@)) is None,
        },
{
    let lines = split_lines(value);
    let ghost seen = lines_of(value@);
    assert(lines@.len() == seen.len());
    if lines.len() < 3 || lines.len() > 4 {
        return None;
    }
    assert(lines@[0]@ == seen[0] && lines@[1]@ == seen[1] && lines@[2]@ == seen[2]);
    if lines[0].as_str().is_empty() || lines[1].as_str().is_empty()
        || lines[2].as_str().is_empty() {
        return None;
    }
    let return_to = if lines.len() == 4 {
        assert(lines@[3]@ == seen[3]);
        safe_return_path(Some(lines[3].as_str()))
    } else {
        safe_return_path(None)
    };
    Some(
        (
            PendingLogin {
                state: lines[0].clone(),
                nonce: lines[1].clone(),
                pkce_verifier: lines[2].clone(),
            },
            return_to,
        ),
    )
}

proof fn line_split(line: Seq<char>, rest: Seq<char>)
    requires
        !line.contains('\n'),
    ensures
        lines_of(line + "\n"@ + rest) == seq![line] + lines_of(rest),
{
    reveal_strlit("\n");
    let whole = line + "\n"@ + rest;
    assert(whole[line.len() as int] == '\n');
    assert forall|i: int| 0 <= i < line.len() implies whole[i] != '\n' by {
        assert(whole[i] == line[i]);
        assert(line.contains(line[i]));
    }
    first_at_found(whole, '\n', line.len() as int);
    assert(whole.take(line.len() as int) == line);
    assert(whole.skip(line.len() as int + 1) == rest);
}

proof fn one_line_only(line: Seq<char>)
    requires
        !line.contains('\n'),
    ensures
        lines_of(line) == seq![line],
{
    assert forall|i: int| 0 <= i < line.len() implies line[i] != '\n' by {
        assert(line.contains(line[i]));
    }
    first_at_found(line, '\n', line.len() as int);
}

/// What a sign-in remembers is what it gets back: the same three secrets, and
/// the same page.
pub proof fn a_sign_in_gets_back_what_it_remembered(
    state: Seq<char>,
    nonce: Seq<char>,
    verifier: Seq<char>,
    page: Option<Seq<char>>,
)
    requires
        state.len() > 0 && !state.contains('\n'),
        nonce.len() > 0 && !nonce.contains('\n'),
        verifier.len() > 0 && !verifier.contains('\n'),
    ensures
        pending_in(lines_of(pending_text(state, nonce, verifier, return_place(page)))) == Some(
            (state, nonce, verifier, return_place(page)),
        ),
{
    let place = return_place(page);
    a_sign_in_stays_on_this_site(page);
    assert(!place.contains('\n')) by {
        if place.contains('\n') {
            let i = choose|i: int| 0 <= i < place.len() && place[i] == '\n';
            assert(control(place[i]));
        }
    }
    one_line_only(place);
    let third = verifier + "\n"@ + place;
    let second = nonce + "\n"@ + third;
    let whole = state + "\n"@ + second;
    line_split(verifier, place);
    line_split(nonce, third);
    line_split(state, second);
    assert(whole =~= pending_text(state, nonce, verifier, place));
    let lines = lines_of(whole);
    assert(lines =~= seq![state, nonce, verifier, place]);
}

/// What comes back with the callback of a sign-in.
#[derive(Debug)]
pub struct Returned {
    pub code: String,
    pub state: String,
    pub pending: PendingLogin,
    pub return_to: String,
}

/// What the provider appends to the address of the callback.
#[derive(Debug)]
pub struct CallbackQuery {
    pub code: Option<String>,
    pub state: Option<String>,
    /// The provider can answer with a refusal instead of a code. Saying so is
    /// better than a blank page that looks like a bug in here.
    pub error: Option<String>,
}

/// The other half of a sign-in, up to the question to the provider.
///
/// No cookie, nothing to compare `state` against. That is a refusal and not a
/// new sign-in: silently starting one here would make an unsolicited callback
/// indistinguishable from a real one.
pub fn callback(query: CallbackQuery, cookie: Option<&str>) -> (r: Result<Returned, Refusal>)
    ensures
        match r {
            Ok(back) => {
                &&& query.error is None
                &&& query.code == Some(back.code)
                &&& query.state == Some(back.state)
                &&& cookie is Some
                &&& pending_in(lines_of(cookie->0@)) == Some(
                    (
                        back.pending.state@,
                        back.pending.nonce@,
                        back.pending.pkce_verifier@,
                        back.return_to@,
                    ),
                )
            },
            Err(why) => why == (if query.error is Some {
                Refusal::ProviderRefused
            } else if query.code is None || query.state is None {
                Refusal::NotACallback
            } else {
                Refusal::NotBegun
            }),
        },
        r is Ok == (query.error is None && query.code is Some && query.state is Some
            && cookie is Some && pending_in(lines_of(cookie->0@)) is Some),
{
    if query.error.is_some() {
        return Err(Refusal::ProviderRefused);
    }
    let code = match query.code {
        Some(code) => code,
        None => {
            return Err(Refusal::NotACallback);
        },
    };
    let state = match query.state {
        Some(state) => state,
        None => {
            return Err(Refusal::NotACallback);
        },
    };
    match cookie {
        Some(value) => match parse_pending(value) {
            Some((pending, return_to)) => Ok(Returned { code, state, pending, return_to }),
            None => Err(Refusal::NotBegun),
        },
        None => Err(Refusal::NotBegun),
    }
}

/// A title as it is kept, or why it is none.
pub open spec fn title_of(raw: Seq<char>) -> Result<Seq<char>, Refusal> {
    if trimmed(raw).len() == 0 {
        Err(Refusal::NoTitle)
    } else if trimmed(raw).len() > MAX_TITLE_CHARS {
        Err(Refusal::LongTitle)
    } else {
        Ok(trimmed(raw))
    }
}

/// A text as it is kept, or why it is none.
pub open spec fn body_of(raw: Seq<char>) -> Result<Seq<char>, Refusal> {
    if trimmed(raw).len() == 0 {
        Err(Refusal::NoText)
    } else if encode_utf8(trimmed(raw)).len() > MAX_BODY_BYTES {
        Err(Refusal::LongText)
    } else {
        Ok(trimmed(raw))
    }
}

/// What a `Result` of a text says.
pub open spec fn seen(r: Result<String, Refusal>) -> Result<Seq<char>, Refusal> {
    match r {
        Ok(text) => Ok(text@),
        Err(why) => Err(why),
    }
}

fn kept_title(raw: &str) -> (r: Result<String, Refusal>)
    ensures
        seen(r) == title_of(raw@),
{
    let t = trim(raw);
    let n: usize = chars(&t).len();
    if n == 0 {
        return Err(Refusal::NoTitle);
    }
    if n > MAX_TITLE_CHARS {
        return Err(Refusal::LongTitle);
    }
    Ok(t)
}

fn kept_body(raw: &str) -> (r: Result<String, Refusal>)
    ensures
        seen(r) == body_of(raw@),
{
    let b = trim(raw);
    if b.as_str().is_empty() {
        return Err(Refusal::NoText);
    }
    if b.as_str().as_bytes().len() > MAX_BODY_BYTES {
        return Err(Refusal::LongText);
    }
    Ok(b)
}

/// Trimmed and within its limit, or the reason why not. White space counts as
/// empty: a title of three spaces is not a title. The limit counts characters.
pub fn checked_title(raw: &str) -> (r: Result<String, &'static str>)
    ensures
        match r {
            Ok(title) => title_of(raw@) == Ok::<_, Refusal>(title@),
            Err(why) => title_of(raw@) is Err && why@ == title_of(raw@)->Err_0.words(),
        },
{
    match kept_title(raw) {
        Ok(title) => Ok(title),
        Err(why) => Err(why.as_str()),
    }
}

/// Trimmed and within its limit, or the reason why not. The limit counts
/// bytes.
pub fn checked_body(raw: &str) -> (r: Result<String, &'static str>)
    ensures
        match r {
            Ok(body) => body_of(raw@) == Ok::<_, Refusal>(body@),
            Err(why) => body_of(raw@) is Err && why@ == body_of(raw@)->Err_0.words(),
        },
{
    match kept_body(raw) {
        Ok(body) => Ok(body),
        Err(why) => Err(why.as_str()),
    }
}

/// Checking what was checked changes nothing.
pub proof fn checking_twice_changes_nothing(raw: Seq<char>)
    ensures
        title_of(raw) is Ok ==> title_of(title_of(raw)->Ok_0) == title_of(raw),
        body_of(raw) is Ok ==> body_of(body_of(raw)->Ok_0) == body_of(raw),
{
    crate::text::trimming_twice(raw);
}

#[derive(Debug)]
pub struct SearchQuery {
    pub q: String,
}

#[derive(Debug)]
pub struct MentionMail {
    pub on: String,
}

#[derive(Debug)]
pub struct NewTopic {
    pub title: String,
    pub body: String,
}

#[derive(Debug)]
pub struct NewReply {
    pub body: String,
}

#[derive(Debug)]
pub struct EditPost {
    pub body: String,
}

/// What becomes of a request to open a topic.
pub open spec fn opening(
    space: SpaceView,
    slug: Seq<char>,
    who: IdentityView,
    title: Seq<char>,
    body: Seq<char>,
) -> Result<(Seq<char>, Seq<char>), Refusal> {
    match category_named(space.categories, slug) {
        None => Err(Refusal::NotFound),
        Some(category) => if !reads(who, space) || !posts(who, category) {
            Err(Refusal::Forbidden)
        } else if title_of(title) is Err {
            Err(title_of(title)->Err_0)
        } else if body_of(body) is Err {
            Err(body_of(body)->Err_0)
        } else {
            Ok((title_of(title)->Ok_0, body_of(body)->Ok_0))
        },
    }
}

/// Opens a topic: the title and the text to store, or the refusal. A category
/// that is not configured is not there for anybody, and whoever may not read
/// the space or not post in the category is refused before a word of the text
/// is looked at.
pub fn open_topic(space: &Space, slug: &str, who: &Identity, form: &NewTopic) -> (r: Result<
    NewTopic,
    Refusal,
>)
    ensures
        match r {
            Ok(made) => opening(space@, slug@, who@, form.title@, form.body@) == Ok::<_, Refusal>(
                (made.title@, made.body@),
            ),
            Err(why) => opening(space@, slug@, who@, form.title@, form.body@) == Err::<
                (Seq<char>, Seq<char>),
                _,
            >(why),
        },
{
    let category = match space.category(slug) {
        Some(category) => category,
        None => {
            return Err(Refusal::NotFound);
        },
    };
    if !may_read(who, space) || !may_post(who, category) {
        return Err(Refusal::Forbidden);
    }
    let title = match kept_title(&form.title) {
        Ok(title) => title,
        Err(why) => {
            return Err(why);
        },
    };
    let body = match kept_body(&form.body) {
        Ok(body) => body,
        Err(why) => {
            return Err(why);
        },
    };
    Ok(NewTopic { title, body })
}

/// Why this person may not answer in a topic of this category, if they may
/// not. A topic that is not there through this address has none; one in a
/// category the configuration no longer has can be read, and nothing new goes
/// into it.
pub open spec fn answer_refused(
    space: SpaceView,
    category: Option<Seq<char>>,
    who: IdentityView,
) -> Option<Refusal> {
    match category {
        None => Some(Refusal::NotFound),
        Some(slug) => match category_named(space.categories, slug) {
            None => Some(Refusal::NotFound),
            Some(category) => if !reads(who, space) || !replies(who, category) {
                Some(Refusal::Forbidden)
            } else {
                None
            },
        },
    }
}

pub fn may_answer(space: &Space, category: Option<&str>, who: &Identity) -> (r: Option<Refusal>)
    ensures
        r == answer_refused(
            space@,
            match category {
                Some(category) => Some(category@),
                None => None,
            },
            who@,
        ),
{
    let slug = match category {
        Some(slug) => slug,
        None => {
            return Some(Refusal::NotFound);
        },
    };
    match space.category(slug) {
        None => Some(Refusal::NotFound),
        Some(category) => if !may_read(who, space) || !may_reply(who, category) {
            Some(Refusal::Forbidden)
        } else {
            None
        },
    }
}

/// What becomes of a reply.
pub open spec fn replying(
    space: SpaceView,
    category: Option<Seq<char>>,
    who: IdentityView,
    body: Seq<char>,
) -> Result<Seq<char>, Refusal> {
    match answer_refused(space, category, who) {
        Some(why) => Err(why),
        None => body_of(body),
    }
}

/// Replies to a topic: the text to store, or the refusal. `category` is the
/// topic's, if there is such a topic in this space.
pub fn reply(space: &Space, category: Option<&str>, who: &Identity, form: &NewReply) -> (r: Result<
    String,
    Refusal,
>)
    ensures
        seen(r) == replying(
            space@,
            match category {
                Some(category) => Some(category@),
                None => None,
            },
            who@,
            form.body@,
        ),
{
    match may_answer(space, category, who) {
        Some(why) => Err(why),
        None => kept_body(&form.body),
    }
}

/// Rewrites a post: the text to store, or the refusal. Whether the post is
/// this person's is decided by `db::topics::update_post`.
pub fn edit_post(space: &Space, who: &Identity, form: &EditPost) -> (r: Result<String, Refusal>)
    ensures
        seen(r) == if !reads(who@, space@) {
            Err(Refusal::Forbidden)
        } else {
            body_of(form.body@)
        },
{
    if !may_read(who, space) {
        return Err(Refusal::Forbidden);
    }
    kept_body(&form.body)
}

/// The address of a topic.
pub open spec fn topic_place(topic: Option<i64>) -> Seq<char> {
    match topic {
        Some(id) => "/t/"@ + decimal_text(id as int),
        None => "/"@,
    }
}

/// The address of a topic, or of the front page where there is none.
pub fn topic_path(topic: Option<i64>) -> (r: String)
    ensures
        r@ == topic_place(topic),
{
    match topic {
        Some(id) => "/t/".to_owned().concat(&decimal(id)),
        None => "/".to_owned(),
    }
}

/// What is answered to a request to take a post back: where the page goes, or
/// the refusal.
pub fn after_deleting(outcome: Deleted, topic: Option<i64>) -> (r: Result<String, Refusal>)
    ensures
        seen(r) == match outcome {
            Deleted::Post => Ok(topic_place(topic)),
            Deleted::Topic => Ok("/"@),
            Deleted::HasReplies => Err(Refusal::HasReplies),
            Deleted::NotYours => Err(Refusal::Forbidden),
        },
{
    match outcome {
        Deleted::Post => Ok(topic_path(topic)),
        Deleted::Topic => Ok("/".to_owned()),
        Deleted::HasReplies => Err(Refusal::HasReplies),
        Deleted::NotYours => Err(Refusal::Forbidden),
    }
}

/// What is answered to a click on the heart of a post: where the page goes, or
/// the refusal.
pub fn after_liking(outcome: Outcome, post_id: i64) -> (r: Result<String, Refusal>)
    ensures
        seen(r) == match outcome {
            Outcome::Toggled { topic_id, .. } => Ok(post_path(topic_id, post_id)),
            Outcome::OwnPost => Err(Refusal::Forbidden),
            Outcome::NotFound => Err(Refusal::NotFound),
        },
{
    match outcome {
        Outcome::Toggled { topic_id, .. } => Ok(path_to_post(topic_id, post_id)),
        Outcome::OwnPost => Err(Refusal::Forbidden),
        Outcome::NotFound => Err(Refusal::NotFound),
    }
}

/// May this person be asked whether a post should go? It refuses whoever may
/// not press the button: display follows the right, and a question that leads
/// to a refusal is a small lie. `author` is the post's, if there is such a
/// post in this space.
pub fn delete_question(space: &Space, who: &Identity, author: Option<&str>) -> (r: Option<Refusal>)
    ensures
        r == (if !reads(who@, space@) {
            Some(Refusal::Forbidden)
        } else if author is None {
            Some(Refusal::NotFound)
        } else if who@.subject != author->0@ {
            Some(Refusal::Forbidden)
        } else {
            None
        }),
{
    if !may_read(who, space) {
        return Some(Refusal::Forbidden);
    }
    match author {
        None => Some(Refusal::NotFound),
        Some(author) => if may_modify(who, author) {
            None
        } else {
            Some(Refusal::Forbidden)
        },
    }
}

/// May this person follow or stop following? A subscription to a topic you may
/// not read would be a mail about a room you cannot enter.
pub fn change_subscription(space: &Space, who: &Identity, found: bool) -> (r: Option<Refusal>)
    ensures
        r == (if !reads(who@, space@) {
            Some(Refusal::Forbidden)
        } else if !found {
            Some(Refusal::NotFound)
        } else {
            None
        }),
{
    if !may_read(who, space) {
        Some(Refusal::Forbidden)
    } else if !found {
        Some(Refusal::NotFound)
    } else {
        None
    }
}

/// The switch for mail about mentions: exactly `1` or `0`; anything else is
/// not a guess at what was meant.
pub fn set_mention_mail(space: &Space, who: &Identity, form: &MentionMail) -> (r: Result<
    bool,
    Refusal,
>)
    ensures
        r == (if !reads(who@, space@) {
            Err(Refusal::Forbidden)
        } else if form.on@ == "1"@ {
            Ok(true)
        } else if form.on@ == "0"@ {
            Ok(false)
        } else {
            Err::<bool, Refusal>(Refusal::NotASwitch)
        }),
{
    if !may_read(who, space) {
        return Err(Refusal::Forbidden);
    }
    if same(&form.on, "1") {
        Ok(true)
    } else if same(&form.on, "0") {
        proof {
            reveal_strlit("0");
            reveal_strlit("1");
            assert("0"@[0] != "1"@[0]);
        }
        Ok(false)
    } else {
        Err(Refusal::NotASwitch)
    }
}

/// An upload, ready to be stored.
#[derive(Debug)]
pub struct Upload {
    pub bytes: Vec<u8>,
    pub media_type: MediaType,
    /// The text of the post that shows it.
    pub body: String,
}

/// The text of a post that shows a picture.
pub open spec fn picture_text(id: Seq<char>, caption: Seq<char>) -> Seq<char> {
    let picture = "![](/a/"@ + id + ")"@;
    if trimmed(caption).len() == 0 {
        picture
    } else {
        trimmed(caption) + "\n\n"@ + picture
    }
}

/// What becomes of an upload.
pub open spec fn attaching(
    space: SpaceView,
    category: Option<Seq<char>>,
    who: IdentityView,
    bytes: Option<Seq<u8>>,
) -> Result<(Seq<u8>, MediaType), Refusal> {
    match answer_refused(space, category, who) {
        Some(why) => Err(why),
        None => match bytes {
            None => Err(Refusal::NoFile),
            Some(bytes) => if bytes.len() > space.attachment_max_bytes {
                Err(Refusal::TooLarge)
            } else {
                match detected(bytes) {
                    None => Err(Refusal::Unsupported),
                    Some(kind) => Ok((stripped(bytes, kind), kind)),
                }
            },
        },
    }
}

/// An upload becomes a post of its own, whose text is an image pointing at
/// `/a/<id>`: the picture reaches the page through the same renderer and the
/// same sanitizer as everything else. Uploading is replying: it is the same
/// act with a picture in it.
///
/// The kind comes from the bytes themselves, not from the file name and not
/// from the type the browser announced: the uploader chooses both. What a
/// photograph knows besides the photograph, where it was taken, when, with
/// which camera, is removed BEFORE anything is written.
pub fn attach(
    space: &Space,
    category: Option<&str>,
    who: &Identity,
    bytes: Option<&[u8]>,
    caption: &str,
    id: &str,
) -> (r: Result<Upload, Refusal>)
    ensures
        ({
            let decided = attaching(
                space@,
                match category {
                    Some(category) => Some(category@),
                    None => None,
                },
                who@,
                match bytes {
                    Some(bytes) => Some(bytes@),
                    None => None,
                },
            );
            match r {
                Ok(upload) => decided == Ok::<_, Refusal>((upload.bytes@, upload.media_type))
                    && upload.body@ == picture_text(id@, caption@),
                Err(why) => decided == Err::<(Seq<u8>, MediaType), _>(why),
            }
        }),
{
    match may_answer(space, category, who) {
        Some(why) => {
            return Err(why);
        },
        None => {},
    }
    let bytes = match bytes {
        Some(bytes) => bytes,
        None => {
            return Err(Refusal::NoFile);
        },
    };
    if bytes.len() as u64 > space.attachment_max_bytes {
        return Err(Refusal::TooLarge);
    }
    let media_type = match detect(bytes) {
        Some(kind) => kind,
        None => {
            return Err(Refusal::Unsupported);
        },
    };
    let clean = strip_metadata(bytes, media_type);
    let picture = "![](/a/".to_owned().concat(id).concat(")");
    let caption = trim(caption);
    let body = if caption.as_str().is_empty() {
        picture
    } else {
        caption.concat("\n\n").concat(&picture)
    };
    Ok(Upload { bytes: clean, media_type, body })
}

/// Who a notification was for, what about, and why.
#[derive(Debug)]
pub struct Told {
    pub subject: String,
    pub topic_id: i64,
    pub reason: String,
}

/// What the way out of a mail does.
#[derive(Debug)]
pub enum WayOut {
    /// A token that does not match gets no page either.
    NotFound,
    /// Mails about mentions stop for this person.
    MentionsOff(String),
    /// This person hears no more of this topic.
    Unfollow(String, i64),
    /// The row is gone. The answer is the same one a successful click gets:
    /// the alternative tells a stranger whether a subscription existed.
    Nothing,
}

/// Cancels ONE subscription, never all of them: somebody who is done with one
/// noisy topic has not asked to stop hearing about everything. A MENTION'S
/// LINK TURNS OFF MENTION MAILS instead: the person was never following the
/// topic, and unfollowing it would leave them exactly as mailed as before.
pub fn unsubscribe_now(genuine: bool, row: Option<Told>) -> (r: WayOut)
    ensures
        r == (if !genuine {
            WayOut::NotFound
        } else {
            match row {
                Some(told) => if told.reason@ == "mention"@ {
                    WayOut::MentionsOff(told.subject)
                } else {
                    WayOut::Unfollow(told.subject, told.topic_id)
                },
                None => WayOut::Nothing,
            }
        }),
{
    if !genuine {
        return WayOut::NotFound;
    }
    match row {
        Some(told) => if same(&told.reason, "mention") {
            WayOut::MentionsOff(told.subject)
        } else {
            WayOut::Unfollow(told.subject, told.topic_id)
        },
        None => WayOut::Nothing,
    }
}

/// What the front page of a space shows.
#[derive(Debug)]
pub enum Front {
    /// The entries of one category.
    Entries(String),
    /// The categories.
    Sections,
    Refuse(Refusal),
}

/// The front page of a space.
///
/// A timeline goes straight to its entries: a blog with one category has
/// nothing to choose from. A forum lists its categories instead of jumping
/// into whichever one the configuration happens to name first.
pub fn space_index(space: &Space, who: &Identity) -> (r: Front)
    ensures
        match r {
            Front::Refuse(why) => why == (if !reads(who@, space@) {
                Refusal::Forbidden
            } else {
                Refusal::NotFound
            }) && (!reads(who@, space@) || space@.view == View::Timeline
                && space@.categories.len() == 0),
            Front::Entries(slug) => reads(who@, space@) && space@.view == View::Timeline
                && space@.categories.len() > 0 && slug@ == space@.categories[0].slug,
            Front::Sections => reads(who@, space@) && space@.view == View::Topics,
        },
{
    if !may_read(who, space) {
        return Front::Refuse(Refusal::Forbidden);
    }
    match space.view {
        View::Timeline => if space.categories.len() == 0 {
            Front::Refuse(Refusal::NotFound)
        } else {
            assert(space@.categories[0] == space.categories@[0]@);
            Front::Entries(space.categories[0].slug.clone())
        },
        View::Topics => Front::Sections,
    }
}

/// May this person see this category? It is looked for first: a category that
/// is not configured is not there for anybody.
pub fn space_category(space: &Space, who: &Identity, slug: &str) -> (r: Option<Refusal>)
    ensures
        r == (if category_named(space@.categories, slug@) is None {
            Some(Refusal::NotFound)
        } else if !reads(who@, space@) {
            Some(Refusal::Forbidden)
        } else {
            None
        }),
{
    if space.category(slug).is_none() {
        Some(Refusal::NotFound)
    } else if !may_read(who, space) {
        Some(Refusal::Forbidden)
    } else {
        None
    }
}

/// The slugs of a space's categories.
pub open spec fn slugs_of(categories: Seq<CategoryView>) -> Seq<Seq<char>> {
    Seq::new(categories.len(), |i: int| categories[i].slug)
}

/// The categories a person may find something in, if they may read the space.
///
/// THE CATEGORY LIST IS THE PERMISSION CHECK, and it is computed here rather
/// than trusted from the request: a hit list that shows a title out of a
/// category somebody may not enter is a leak.
pub fn searchable(space: &Space, who: &Identity) -> (r: Result<Vec<String>, Refusal>)
    ensures
        match r {
            Ok(slugs) => reads(who@, space@) && crate::text::texts(slugs@) == slugs_of(
                space@.categories,
            ),
            Err(why) => !reads(who@, space@) && why == Refusal::Forbidden,
        },
{
    if !may_read(who, space) {
        return Err(Refusal::Forbidden);
    }
    let mut slugs: Vec<String> = Vec::new();
    let mut i: usize = 0;
    while i < space.categories.len()
        invariant
            i <= space.categories@.len(),
            slugs@.len() == i,
            forall|k: int| 0 <= k < i ==> (#[trigger] slugs@[k])@ == space@.categories[k].slug,
        decreases space.categories@.len() - i,
    {
        assert(space@.categories[i as int] == space.categories@[i as int]@);
        slugs.push(space.categories[i].slug.clone());
        i += 1;
    }
    assert(crate::text::texts(slugs@) =~= slugs_of(space@.categories));
    Ok(slugs)
}

/// Where following an event leads: on, to the link that was checked when the
/// event came in, or to the list. `opened` is what `db::events::open` found.
pub fn open_event(space: &Space, who: &Identity, opened: Option<Option<String>>) -> (r: Result<
    String,
    Refusal,
>)
    ensures
        seen(r) == if !reads(who@, space@) {
            Err(Refusal::Forbidden)
        } else {
            match opened {
                Some(link) => match text_of(link) {
                    Some(link) => Ok(link),
                    None => Ok("/notifications"@),
                },
                None => Err(Refusal::NotFound),
            }
        },
{
    if !may_read(who, space) {
        return Err(Refusal::Forbidden);
    }
    match opened {
        Some(Some(link)) => Ok(link),
        Some(None) => Ok("/notifications".to_owned()),
        None => Err(Refusal::NotFound),
    }
}

/// Does the browser have this version of a file already?
pub fn not_modified(etag: &str, known: Option<&str>) -> (r: bool)
    ensures
        r == (known is Some && known->0@ == etag@),
{
    match known {
        Some(known) => same(known, etag),
        None => false,
    }
}

/// Whoever may not read a space writes nothing in it: no topic, no reply, no
/// picture.
pub proof fn no_reading_no_writing(
    space: SpaceView,
    who: IdentityView,
    slug: Seq<char>,
    title: Seq<char>,
    body: Seq<char>,
    bytes: Option<Seq<u8>>,
)
    requires
        !reads(who, space),
    ensures
        opening(space, slug, who, title, body) is Err,
        replying(space, Some(slug), who, body) is Err,
        attaching(space, Some(slug), who, bytes) is Err,
{
}

/// Nobody without a session gets past the door, but to the paths that are open
/// to everybody; and nothing gets past it from another site or for a host that
/// is no space's.
pub proof fn the_door_fails_closed(
    known_host: bool,
    own_site: bool,
    path: Seq<char>,
    signed_in: bool,
)
    ensures
        door_for(known_host, own_site, path, signed_in) == Door::Pass ==> known_host && own_site
            && (signed_in || open_path(path)),
{
}

} // verus!
