//! Events from other services, for one person: the bell's third kind of entry,
//! beside replies and mentions.
//!
//! What arrives here is somebody else's data, and it is shown on our page with
//! a link that people follow from it. So nothing is stored that [`checked`] has
//! not checked, field by field, and nothing is repaired: an event that does not
//! fit is refused with the reason.
use crate::auth::{checked_handle, handle_of};
use crate::authz::listed;
use crate::config::{Events, EventsView};
use crate::text::{
    ascii_lower, chars, same, slice_string, text_of, texts, to_ascii_lower, trim, trim_bounds,
    trimmed,
};
use vstd::prelude::*;
use vstd::string::*;

verus! {

/// What an event is about. A closed list: a new kind is a decision, with its
/// own wording, not a string somebody else chose.
#[derive(Debug, Clone, Copy, PartialEq, Eq, Structural)]
pub enum Kind {
    FilmAvailable,
    FilmFailed,
}

impl Kind {
    pub open spec fn word(self) -> Seq<char> {
        match self {
            Kind::FilmAvailable => "film_available"@,
            Kind::FilmFailed => "film_failed"@,
        }
    }

    pub fn as_str(self) -> (r: &'static str)
        ensures
            r@ == self.word(),
    {
        match self {
            Kind::FilmAvailable => "film_available",
            Kind::FilmFailed => "film_failed",
        }
    }

    pub fn parse(s: &str) -> (r: Option<Self>)
        ensures
            r == kind_called(s@),
    {
        if same(s, "film_available") {
            Some(Kind::FilmAvailable)
        } else if same(s, "film_failed") {
            Some(Kind::FilmFailed)
        } else {
            None
        }
    }
}

/// The kind with this name, if there is one.
pub open spec fn kind_called(s: Seq<char>) -> Option<Kind> {
    if s == "film_available"@ {
        Some(Kind::FilmAvailable)
    } else if s == "film_failed"@ {
        Some(Kind::FilmFailed)
    } else {
        None
    }
}

/// A kind is found again by its name, and by no other.
pub proof fn a_kind_is_found_by_its_name(kind: Kind, s: Seq<char>)
    ensures
        kind_called(s) == Some(kind) <==> s == kind.word(),
{
    reveal_strlit("film_available");
    reveal_strlit("film_failed");
    assert("film_available"@.len() != "film_failed"@.len());
}

/// An event as it arrives: unchecked.
#[derive(Debug, Clone)]
pub struct Raw {
    pub handle: String,
    pub kind: String,
    pub title: String,
    pub link: Option<String>,
    pub reason: Option<String>,
    pub source_key: String,
}

pub struct RawView {
    pub handle: Seq<char>,
    pub kind: Seq<char>,
    pub title: Seq<char>,
    pub link: Option<Seq<char>>,
    pub reason: Option<Seq<char>>,
    pub source_key: Seq<char>,
}

impl View for Raw {
    type V = RawView;

    open spec fn view(&self) -> RawView {
        RawView {
            handle: self.handle@,
            kind: self.kind@,
            title: self.title@,
            link: text_of(self.link),
            reason: text_of(self.reason),
            source_key: self.source_key@,
        }
    }
}

/// An event that may be stored.
#[derive(Debug, Clone, PartialEq, Eq)]
pub struct Checked {
    pub handle: String,
    pub kind: Kind,
    pub title: String,
    pub link: Option<String>,
    pub reason: Option<String>,
    pub source_key: String,
}

pub struct CheckedView {
    pub handle: Seq<char>,
    pub kind: Kind,
    pub title: Seq<char>,
    pub link: Option<Seq<char>>,
    pub reason: Option<Seq<char>>,
    pub source_key: Seq<char>,
}

impl View for Checked {
    type V = CheckedView;

    open spec fn view(&self) -> CheckedView {
        CheckedView {
            handle: self.handle@,
            kind: self.kind,
            title: self.title@,
            link: text_of(self.link),
            reason: text_of(self.reason),
            source_key: self.source_key@,
        }
    }
}

pub const MAX_TITLE: usize = 200;

pub const MAX_REASON: usize = 300;

/// A character that moves the cursor rather than being seen.
pub open spec fn control(c: char) -> bool {
    c <= '\u{1f}' || '\u{7f}' <= c <= '\u{9f}'
}

/// Trimmed, within its length in characters, and without control characters:
/// a line break in a title is somebody else's layout on our page.
pub open spec fn line_of(s: Seq<char>, max: int) -> Option<Seq<char>> {
    let t = trimmed(s);
    if 0 < t.len() <= max && forall|i: int| 0 <= i < t.len() ==> !control(#[trigger] t[i]) {
        Some(t)
    } else {
        None
    }
}

pub fn one_line(s: &str, max: usize) -> (r: Option<String>)
    ensures
        text_of(r) == line_of(s@, max as int),
{
    let all = chars(s);
    let (from, to) = trim_bounds(&all);
    let ghost t = trimmed(s@);
    if from == to || to - from > max {
        return None;
    }
    let mut i: usize = from;
    while i < to
        invariant
            from <= i <= to <= all@.len(),
            t == all@.subrange(from as int, to as int),
            t == trimmed(s@),
            forall|k: int| 0 <= k < i - from ==> !control(#[trigger] t[k]),
        decreases to - i,
    {
        let c = all[i];
        assert(t[i - from] == c);
        if c <= '\u{1f}' || (c >= '\u{7f}' && c <= '\u{9f}') {
            assert(control(t[i - from]));
            return None;
        }
        i += 1;
    }
    Some(slice_string(&all, from, to))
}

/// An address on the web, taken apart.
#[derive(Debug)]
pub struct Link {
    pub scheme: String,
    pub host: Option<String>,
    pub username: String,
    pub password: Option<String>,
    /// The address as the parser writes it.
    pub text: String,
}

pub struct LinkView {
    pub scheme: Seq<char>,
    pub host: Option<Seq<char>>,
    pub username: Seq<char>,
    pub password: Option<Seq<char>>,
    pub text: Seq<char>,
}

impl View for Link {
    type V = LinkView;

    open spec fn view(&self) -> LinkView {
        LinkView {
            scheme: self.scheme@,
            host: text_of(self.host),
            username: self.username@,
            password: text_of(self.password),
            text: self.text@,
        }
    }
}

/// What an address consists of, if the text is one.
pub uninterp spec fn url_parsed(text: Seq<char>) -> Option<LinkView>;

/// `url::Url::parse`, and the parts of what it returns: a function of the text
/// alone.
#[verifier::external_body]
fn parse_url(text: &str) -> (r: Option<Link>)
    ensures
        r is Some == url_parsed(text@) is Some,
        r is Some ==> r->0@ == url_parsed(text@)->0,
{
    url::Url::parse(text).ok().map(|url| Link {
        scheme: url.scheme().to_string(),
        host: url.host_str().map(String::from),
        username: url.username().to_string(),
        password: url.password().map(String::from),
        text: url.to_string(),
    })
}

/// `https://` on an allowed host, no user or password in it, nothing else.
pub open spec fn allowed_link(link: LinkView, hosts: Seq<Seq<char>>) -> Option<Seq<char>> {
    match link.host {
        Some(host) => if link.scheme == "https"@ && link.username.len() == 0 && link.password
            is None && hosts.contains(ascii_lower(host)) {
            Some(link.text)
        } else {
            None
        },
        None => None,
    }
}

/// What is left of a parsed address.
pub fn checked_parts(link: Link, hosts: &[String]) -> (r: Option<String>)
    ensures
        text_of(r) == allowed_link(link@, texts(hosts@)),
{
    let host = match &link.host {
        Some(host) => to_ascii_lower(&chars(host)),
        None => {
            return None;
        },
    };
    if same(&link.scheme, "https") && link.username.as_str().is_empty() && link.password.is_none()
        && listed(hosts, &host) {
        Some(link.text)
    } else {
        None
    }
}

/// Parsed, not matched: `https://jellyfin.example.org@elsewhere.example/`
/// starts with the right words and goes somewhere else.
pub fn checked_link(l: &str, hosts: &[String]) -> (r: Option<String>)
    ensures
        text_of(r) == match url_parsed(l@) {
            Some(link) => allowed_link(link, texts(hosts@)),
            None => None,
        },
{
    match parse_url(l) {
        Some(link) => checked_parts(link, hosts),
        None => None,
    }
}

pub open spec fn key_char(c: char) -> bool {
    'a' <= c <= 'z' || 'A' <= c <= 'Z' || '0' <= c <= '9' || c == ':' || c == '_' || c == '-'
}

/// The sender's own name for the event.
pub open spec fn usable_key(key: Seq<char>) -> bool {
    1 <= key.len() <= 64 && forall|i: int| 0 <= i < key.len() ==> key_char(#[trigger] key[i])
}

fn key_is_usable(key: &str) -> (r: bool)
    ensures
        r == usable_key(key@),
{
    let all = chars(key);
    if all.len() < 1 || all.len() > 64 {
        return false;
    }
    let mut i: usize = 0;
    while i < all.len()
        invariant
            i <= all@.len(),
            all@ == key@,
            forall|k: int| 0 <= k < i ==> key_char(#[trigger] key@[k]),
        decreases all@.len() - i,
    {
        let c = all[i];
        if !((c >= 'a' && c <= 'z') || (c >= 'A' && c <= 'Z') || (c >= '0' && c <= '9') || c == ':'
            || c == '_' || c == '-') {
            assert(!key_char(key@[i as int]));
            return false;
        }
        i += 1;
    }
    true
}

/// A field that may be left out: blank is as good as missing.
pub open spec fn given(field: Option<Seq<char>>) -> Option<Seq<char>> {
    match field {
        Some(s) => if trimmed(s).len() > 0 {
            Some(trimmed(s))
        } else {
            None
        },
        None => None,
    }
}

fn trim_given(field: &Option<String>) -> (r: Option<String>)
    ensures
        text_of(r) == given(text_of(*field)),
{
    match field {
        Some(s) => {
            let t = trim(s);
            if t.as_str().is_empty() {
                None
            } else {
                Some(t)
            }
        },
        None => None,
    }
}

/// The link an event carries, or whether it carries one that is not allowed.
pub open spec fn link_verdict(link: Option<Seq<char>>, hosts: Seq<Seq<char>>) -> Result<
    Option<Seq<char>>,
    (),
> {
    match given(link) {
        None => Ok(None),
        Some(l) => match url_parsed(l) {
            Some(parts) => match allowed_link(parts, hosts) {
                Some(text) => Ok(Some(text)),
                None => Err(()),
            },
            None => Err(()),
        },
    }
}

/// Every field, or the reason why not.
pub open spec fn verdict(raw: RawView, events: EventsView) -> Result<CheckedView, Seq<char>> {
    let reason = given(raw.reason);
    if handle_of(raw.handle) is None {
        Err("not a handle"@)
    } else if kind_called(raw.kind) is None {
        Err("unknown kind"@)
    } else if line_of(raw.title, 200) is None {
        Err("a title is 1 to 200 characters"@)
    } else if reason is Some && line_of(reason->0, 300) is None {
        Err("a reason is at most 300 characters"@)
    } else if link_verdict(raw.link, events.link_hosts) is Err {
        Err("that link is not allowed"@)
    } else if !usable_key(raw.source_key) {
        Err("a source_key is [A-Za-z0-9:_-], 1 to 64"@)
    } else {
        Ok(
            CheckedView {
                handle: handle_of(raw.handle)->0,
                kind: kind_called(raw.kind)->0,
                title: line_of(raw.title, 200)->0,
                link: link_verdict(raw.link, events.link_hosts)->Ok_0,
                reason: match reason {
                    Some(r) => line_of(r, 300),
                    None => None,
                },
                source_key: raw.source_key,
            },
        )
    }
}

pub fn checked(raw: Raw, events: &Events) -> (r: Result<Checked, &'static str>)
    ensures
        match r {
            Ok(c) => verdict(raw@, events@) == Ok::<CheckedView, Seq<char>>(c@),
            Err(why) => verdict(raw@, events@) == Err::<CheckedView, Seq<char>>(why@),
        },
{
    let handle = match checked_handle(&raw.handle) {
        Some(handle) => handle,
        None => {
            return Err("not a handle");
        },
    };
    let kind = match Kind::parse(&raw.kind) {
        Some(kind) => kind,
        None => {
            return Err("unknown kind");
        },
    };
    let title = match one_line(&raw.title, MAX_TITLE) {
        Some(title) => title,
        None => {
            return Err("a title is 1 to 200 characters");
        },
    };
    let reason = match trim_given(&raw.reason) {
        None => None,
        Some(r) => match one_line(&r, MAX_REASON) {
            Some(reason) => Some(reason),
            None => {
                return Err("a reason is at most 300 characters");
            },
        },
    };
    let link = match trim_given(&raw.link) {
        None => None,
        Some(l) => match checked_link(&l, &events.link_hosts) {
            Some(link) => Some(link),
            None => {
                return Err("that link is not allowed");
            },
        },
    };
    if !key_is_usable(&raw.source_key) {
        return Err("a source_key is [A-Za-z0-9:_-], 1 to 64");
    }
    Ok(Checked { handle, kind, title, link, reason, source_key: raw.source_key })
}

/// A link in an event that was taken leads to an allowed host over `https`,
/// and carries nobody's name or password.
pub proof fn a_taken_link_is_allowed(raw: RawView, events: EventsView)
    requires
        verdict(raw, events) is Ok,
        verdict(raw, events)->Ok_0.link is Some,
    ensures
        exists|link: LinkView|
            {
                &&& url_parsed(given(raw.link)->0) == Some(link)
                &&& verdict(raw, events)->Ok_0.link == Some(link.text)
                &&& link.scheme == "https"@
                &&& link.host is Some
                &&& events.link_hosts.contains(ascii_lower(link.host->0))
                &&& link.username.len() == 0
                &&& link.password is None
            },
{
    let link = url_parsed(given(raw.link)->0)->0;
    assert(allowed_link(link, events.link_hosts) is Some);
}

/// An event that has just been read, whose place is known.
#[derive(Debug)]
pub struct EventRow {
    pub id: i64,
    pub handle: String,
    pub space: String,
    pub link: Option<String>,
}

/// Opening an event: where it leads, if it belongs to this account's handle
/// and to this space. One answer for "not yours", "not here" and "not there":
/// telling them apart would say something about entries the asker may not see.
///
/// `Some(None)`: it is yours, and it has no link.
pub fn open(row: Option<EventRow>, handle: &Option<String>, space: &str) -> (r: Option<
    Option<String>,
>)
    ensures
        r == match (row, handle) {
            (Some(row), Some(handle)) => if row.handle@ == handle@ && row.space@ == space@ {
                Some(row.link)
            } else {
                None
            },
            _ => None,
        },
{
    match (row, handle) {
        (Some(row), Some(handle)) => {
            if same(&row.handle, handle) && same(&row.space, space) {
                Some(row.link)
            } else {
                None
            }
        },
        _ => None,
    }
}

/// Is this event there already? A source's key and the kind tell events apart.
pub open spec fn taken_before(
    taken: Seq<(String, Kind)>,
    source_key: Seq<char>,
    kind: Kind,
) -> bool {
    exists|i: int|
        0 <= i < taken.len() && (#[trigger] taken[i]).0@ == source_key && taken[i].1 == kind
}

/// Is a checked event new, and to be stored? Given are the events there are:
/// one that arrives twice is one.
pub fn take(taken: &[(String, Kind)], event: &Checked) -> (r: bool)
    ensures
        r == !taken_before(taken@, event.source_key@, event.kind),
{
    let mut i: usize = 0;
    while i < taken.len()
        invariant
            i <= taken@.len(),
            forall|k: int|
                0 <= k < i ==> !((#[trigger] taken@[k]).0@ == event.source_key@ && taken@[k].1
                    == event.kind),
        decreases taken@.len() - i,
    {
        if same(&taken[i].0, &event.source_key) && taken[i].1 == event.kind {
            return false;
        }
        i += 1;
    }
    true
}

/// An event that was stored is not new any more, and storing it makes no
/// other event an old one.
pub proof fn the_same_event_twice_is_one(
    taken: Seq<(String, Kind)>,
    stored: (String, Kind),
    source_key: Seq<char>,
    kind: Kind,
)
    ensures
        taken_before(taken.push(stored), source_key, kind) == (taken_before(
            taken,
            source_key,
            kind,
        ) || (stored.0@ == source_key && stored.1 == kind)),
{
    let after = taken.push(stored);
    if taken_before(taken, source_key, kind) {
        let i = choose|i: int|
            0 <= i < taken.len() && (#[trigger] taken[i]).0@ == source_key && taken[i].1 == kind;
        assert(after[i] == taken[i]);
    }
    if taken_before(after, source_key, kind) {
        let i = choose|i: int|
            0 <= i < after.len() && (#[trigger] after[i]).0@ == source_key && after[i].1 == kind;
        if i < taken.len() {
            assert(taken[i] == after[i]);
        }
    }
    assert(after[taken.len() as int] == stored);
}

} // verus!
