//! The internal listener: a second door, beside the forum's own sign-in, for
//! other services on the same machine.
//!
//! Three kinds of routes, each behind its own token: events for a person, the
//! bell for a page outside the forum, and the directory of the identity
//! provider. It is its own listener: no sessions, no page. **A route whose
//! token is not configured does not exist.** Never "open, because nothing was
//! set".
use crate::auth::{checked_handle, handle_of};
use crate::authz::{may_read, reads, Identity, IdentityView};
use crate::config::{normalised, space_hosted, Config, ConfigView, Events, EventsView, SpaceView};
use crate::db::events::{checked, verdict, Checked, CheckedView, Raw, RawView};
use crate::db::inbox::{
    for_handle, page_entries, rows_view, stored_view, unread_total, EntryView, Row, RowView,
    Stored, StoredView,
};
use crate::live::{bell_json, bell_tree};
use crate::notify::{read_secret, secret_in, SecretError, SecretFault, SecretFile};
use crate::text::{
    begins, chars, find_char, first_at, slice_string, starts_with, texts, trim_bounds, trimmed,
};
use crate::tree::{Tree, TreeView};
use vstd::prelude::*;
use vstd::string::*;
use vstd::utf8::encode_utf8;

verus! {

/// What opens each route. NAMED, not three in a row: the whole point of the
/// separation is that they cannot be confused.
#[derive(Debug, Default)]
pub struct Tokens {
    pub events: Option<Vec<u8>>,
    pub bell: Option<Vec<u8>>,
    pub scim: Option<Vec<u8>>,
}

/// Where the internal listener lives, and what opens each of its routes.
#[derive(Debug)]
pub struct Settings {
    pub listen: String,
    pub tokens: Tokens,
}

/// Why the listener is not set up.
#[derive(Debug)]
pub enum SettingsError {
    /// The token file under this name.
    Token(&'static str, SecretError),
    /// Somebody meant to open a door and it would silently stay shut.
    NoListener,
}

pub enum SettingsFault {
    Token(Seq<char>, SecretFault),
    NoListener,
}

impl View for SettingsError {
    type V = SettingsFault;

    open spec fn view(&self) -> SettingsFault {
        match self {
            SettingsError::Token(name, e) => SettingsFault::Token(name@, e@),
            SettingsError::NoListener => SettingsFault::NoListener,
        }
    }
}

/// What is said of a fault.
pub open spec fn fault_text(fault: SettingsFault) -> Seq<char> {
    match fault {
        SettingsFault::Token(name, SecretFault::Unreadable { path, reason }) => name + " ("@ + path
            + ") cannot be read: "@ + reason,
        SettingsFault::Token(name, SecretFault::Blank { path }) => name + " ("@ + path
            + ") is empty"@,
        SettingsFault::NoListener =>
            "a token file for the internal listener is set, TREFF_INTERNAL_LISTEN is not"@,
    }
}

impl SettingsError {
    pub fn message(&self) -> (r: String)
        ensures
            r@ == fault_text(self@),
    {
        match self {
            SettingsError::Token(name, SecretError::Unreadable { path, reason }) =>
                (*name).to_owned().concat(" (").concat(path).concat(
                ") cannot be read: ",
            ).concat(reason),
            SettingsError::Token(name, SecretError::Blank { path }) => (*name).to_owned().concat(
                " (",
            ).concat(path).concat(") is empty"),
            SettingsError::NoListener =>
                "a token file for the internal listener is set, TREFF_INTERNAL_LISTEN is not".to_owned(),
        }
    }
}

/// The token in a file.
pub open spec fn token_in(file: Option<SecretFile>) -> Result<Option<Seq<u8>>, SecretFault> {
    match secret_in(file) {
        Ok(Some(text)) => Ok(Some(encode_utf8(text))),
        Ok(None) => Ok(None),
        Err(e) => Err(e),
    }
}

/// What an optional token is.
pub open spec fn token_seen(token: Option<Vec<u8>>) -> Option<Seq<u8>> {
    match token {
        Some(token) => Some(token@),
        None => None,
    }
}

fn read_token(name: &'static str, file: Option<SecretFile>) -> (r: Result<
    Option<Vec<u8>>,
    SettingsError,
>)
    ensures
        match r {
            Ok(token) => token_in(file) == Ok::<_, SecretFault>(token_seen(token)),
            Err(e) => token_in(file) is Err && e@ == SettingsFault::Token(
                name@,
                token_in(file)->Err_0,
            ),
        },
{
    match read_secret(file) {
        Ok(Some(text)) => {
            let mut token: Vec<u8> = Vec::new();
            token.extend_from_slice(text.as_str().as_bytes());
            assert(token@ =~= encode_utf8(text@));
            Ok(Some(token))
        },
        Ok(None) => Ok(None),
        Err(e) => Err(SettingsError::Token(name, e)),
    }
}

/// Where the listener lives and what opens it, from what the environment says.
///
/// `None` when no address is set. A token file that is set but cannot be read,
/// or is empty, is an error, and so is a token file without a listener.
pub fn from_env(
    listen: Option<String>,
    events: Option<SecretFile>,
    bell: Option<SecretFile>,
    scim: Option<SecretFile>,
) -> (r: Result<Option<Settings>, SettingsError>)
    ensures
        match r {
            Ok(Some(s)) => {
                &&& listen is Some && s.listen@ == listen->0@
                &&& token_in(events) == Ok::<_, SecretFault>(token_seen(s.tokens.events))
                &&& token_in(bell) == Ok::<_, SecretFault>(token_seen(s.tokens.bell))
                &&& token_in(scim) == Ok::<_, SecretFault>(token_seen(s.tokens.scim))
            },
            Ok(None) => listen is None && token_in(events) == Ok::<_, SecretFault>(
                None::<Seq<u8>>,
            ) && token_in(bell) == Ok::<_, SecretFault>(None::<Seq<u8>>) && token_in(scim) == Ok::<
                _,
                SecretFault,
            >(None::<Seq<u8>>),
            Err(e) => e@ == (if token_in(events) is Err {
                SettingsFault::Token("TREFF_EVENTS_TOKEN_FILE"@, token_in(events)->Err_0)
            } else if token_in(bell) is Err {
                SettingsFault::Token("TREFF_BELL_TOKEN_FILE"@, token_in(bell)->Err_0)
            } else if token_in(scim) is Err {
                SettingsFault::Token("TREFF_SCIM_TOKEN_FILE"@, token_in(scim)->Err_0)
            } else {
                SettingsFault::NoListener
            }),
        },
        r is Ok == (token_in(events) is Ok && token_in(bell) is Ok && token_in(scim) is Ok && (
        listen is Some || token_in(events)->Ok_0 is None && token_in(bell)->Ok_0 is None
            && token_in(scim)->Ok_0 is None)),
{
    let events = match read_token("TREFF_EVENTS_TOKEN_FILE", events) {
        Ok(token) => token,
        Err(e) => {
            return Err(e);
        },
    };
    let bell = match read_token("TREFF_BELL_TOKEN_FILE", bell) {
        Ok(token) => token,
        Err(e) => {
            return Err(e);
        },
    };
    let scim = match read_token("TREFF_SCIM_TOKEN_FILE", scim) {
        Ok(token) => token,
        Err(e) => {
            return Err(e);
        },
    };
    let any = events.is_some() || bell.is_some() || scim.is_some();
    match listen {
        Some(listen) => Ok(Some(Settings { listen, tokens: Tokens { events, bell, scim } })),
        None => if any {
            Err(SettingsError::NoListener)
        } else {
            Ok(None)
        },
    }
}

/// Does the header carry this token?
pub open spec fn carries(authorization: Option<Seq<char>>, token: Seq<u8>) -> bool {
    &&& authorization is Some
    &&& starts_with(authorization->0, "Bearer "@)
    &&& encode_utf8(authorization->0.skip(7)) == token
}

/// `Authorization: Bearer <token>`, compared without an early exit.
pub fn presents(authorization: Option<&str>, token: &[u8]) -> (r: bool)
    ensures
        r == carries(
            match authorization {
                Some(authorization) => Some(authorization@),
                None => None,
            },
            token@,
        ),
{
    let text = match authorization {
        Some(text) => text,
        None => {
            return false;
        },
    };
    let all = chars(text);
    proof {
        reveal_strlit("Bearer ");
    }
    if !begins(&all, &chars("Bearer ")) {
        return false;
    }
    assert(all@.subrange(7, all@.len() as int) == text@.skip(7));
    let given = slice_string(&all, 7, all.len());
    same_bytes(given.as_str().as_bytes(), token)
}

/// Compares bytes without an early exit: what differs is gathered, and looked
/// at once.
pub(crate) fn same_bytes(a: &[u8], b: &[u8]) -> (r: bool)
    ensures
        r == (a@ == b@),
{
    if a.len() != b.len() {
        return false;
    }
    let mut difference: u8 = 0;
    let mut i: usize = 0;
    while i < a.len()
        invariant
            i <= a@.len() == b@.len(),
            (difference == 0) == (forall|k: int| 0 <= k < i ==> a@[k] == b@[k]),
        decreases a@.len() - i,
    {
        let x = a[i];
        let y = b[i];
        let before = difference;
        assert(((before | (x ^ y)) == 0) == (before == 0 && x == y)) by (bit_vector);
        difference = before | (x ^ y);
        i += 1;
    }
    if difference == 0 {
        assert(a@ =~= b@);
    }
    difference == 0
}

/// What is answered to a report of an event.
#[derive(Debug, Clone, Copy)]
pub enum EventAnswer {
    /// The route does not exist.
    NotFound,
    Unauthorized,
    /// Configured to take events and not told where they go: a mistake of the
    /// operator, said as such rather than stored somewhere.
    Unconfigured,
    /// Not an event, or one that does not fit.
    Bad(&'static str),
}

pub enum EventAnswerView {
    NotFound,
    Unauthorized,
    Unconfigured,
    Bad(Seq<char>),
}

impl View for EventAnswer {
    type V = EventAnswerView;

    open spec fn view(&self) -> EventAnswerView {
        match self {
            EventAnswer::NotFound => EventAnswerView::NotFound,
            EventAnswer::Unauthorized => EventAnswerView::Unauthorized,
            EventAnswer::Unconfigured => EventAnswerView::Unconfigured,
            EventAnswer::Bad(why) => EventAnswerView::Bad(why@),
        }
    }
}

impl EventAnswer {
    /// The status of the answer.
    pub fn status(&self) -> (r: u16)
        ensures
            r == match self@ {
                EventAnswerView::NotFound => 404u16,
                EventAnswerView::Unauthorized => 401u16,
                EventAnswerView::Unconfigured => 503u16,
                EventAnswerView::Bad(_) => 400u16,
            },
    {
        match self {
            EventAnswer::NotFound => 404,
            EventAnswer::Unauthorized => 401,
            EventAnswer::Unconfigured => 503,
            EventAnswer::Bad(_) => 400,
        }
    }

    /// What the answer says.
    pub fn as_str(&self) -> (r: &'static str)
        ensures
            r@ == match self@ {
                EventAnswerView::Unconfigured => "no [events] space is configured"@,
                EventAnswerView::Bad(why) => why,
                _ => ""@,
            },
    {
        match self {
            EventAnswer::Unconfigured => "no [events] space is configured",
            EventAnswer::Bad(why) => why,
            _ => "",
        }
    }
}

/// What becomes of a report. `raw` is what the body holds, if it is an event
/// at all.
pub open spec fn taking(
    token: Option<Seq<u8>>,
    authorization: Option<Seq<char>>,
    events: Option<EventsView>,
    raw: Option<RawView>,
) -> Result<CheckedView, EventAnswerView> {
    if token is None {
        Err(EventAnswerView::NotFound)
    } else if !carries(authorization, token->0) {
        Err(EventAnswerView::Unauthorized)
    } else if events is None {
        Err(EventAnswerView::Unconfigured)
    } else if raw is None {
        Err(EventAnswerView::Bad("not an event"@))
    } else {
        match verdict(raw->0, events->0) {
            Ok(event) => Ok(event),
            Err(why) => Err(EventAnswerView::Bad(why)),
        }
    }
}

/// Takes a report of an event: the event to store, or what is answered.
pub fn take_event(
    tokens: &Tokens,
    authorization: Option<&str>,
    events: &Option<Events>,
    raw: Option<Raw>,
) -> (r: Result<Checked, EventAnswer>)
    ensures
        ({
            let decided = taking(
                token_seen(tokens.events),
                match authorization {
                    Some(authorization) => Some(authorization@),
                    None => None,
                },
                match *events {
                    Some(events) => Some(events@),
                    None => None,
                },
                match raw {
                    Some(raw) => Some(raw@),
                    None => None,
                },
            );
            match r {
                Ok(event) => decided == Ok::<_, EventAnswerView>(event@),
                Err(answer) => decided == Err::<CheckedView, _>(answer@),
            }
        }),
{
    let token = match &tokens.events {
        Some(token) => token,
        None => {
            return Err(EventAnswer::NotFound);
        },
    };
    if !presents(authorization, token) {
        return Err(EventAnswer::Unauthorized);
    }
    let events = match events {
        Some(events) => events,
        None => {
            return Err(EventAnswer::Unconfigured);
        },
    };
    let raw = match raw {
        Some(raw) => raw,
        None => {
            return Err(EventAnswer::Bad("not an event"));
        },
    };
    match checked(raw, events) {
        Ok(event) => Ok(event),
        Err(why) => Err(EventAnswer::Bad(why)),
    }
}

/// The status once the event is stored: a report that was there already is no
/// new one.
pub fn stored_status(fresh: bool) -> (r: u16)
    ensures
        r == if fresh {
            201u16
        } else {
            200u16
        },
{
    if fresh {
        201
    } else {
        200
    }
}

/// May this caller write the directory? The status of the refusal, if not: an
/// interface that nobody set a token for is not there, and one that somebody
/// did is shut without it.
pub fn scim_refused(tokens: &Tokens, authorization: Option<&str>) -> (r: Option<u16>)
    ensures
        r == (match token_seen(tokens.scim) {
            None => Some(404u16),
            Some(token) => if carries(
                match authorization {
                    Some(authorization) => Some(authorization@),
                    None => None,
                },
                token,
            ) {
                None
            } else {
                Some(401u16)
            },
        }),
{
    match &tokens.scim {
        None => Some(404),
        Some(token) => if presents(authorization, token) {
            None
        } else {
            Some(401)
        },
    }
}

/// May this caller ask for the bell? The status of the refusal, if not.
pub fn bell_refused(tokens: &Tokens, authorization: Option<&str>) -> (r: Option<u16>)
    ensures
        r == (match token_seen(tokens.bell) {
            None => Some(404u16),
            Some(token) => if carries(
                match authorization {
                    Some(authorization) => Some(authorization@),
                    None => None,
                },
                token,
            ) {
                None
            } else {
                Some(401u16)
            },
        }),
{
    match &tokens.bell {
        None => Some(404),
        Some(token) => if presents(authorization, token) {
            None
        } else {
            Some(401)
        },
    }
}

/// How many entries a page outside the forum shows at most. A list, not an
/// archive.
pub const BELL_ENTRIES: i64 = 20;

/// The groups in a header: what stands between the bars.
pub open spec fn groups_in(header: Seq<char>) -> Seq<Seq<char>>
    decreases header.len(),
{
    let n = first_at(header, '|');
    let name = trimmed(header.take(n));
    let first = if name.len() == 0 {
        Seq::empty()
    } else {
        seq![name]
    };
    if 0 <= n < header.len() {
        first + groups_in(header.skip(n + 1))
    } else {
        first
    }
}

fn split_groups(header: &str) -> (r: Vec<String>)
    ensures
        texts(r@) == groups_in(header@),
{
    let all = chars(header);
    let size: usize = all.len();
    let mut out: Vec<String> = Vec::new();
    let mut at: usize = 0;
    assert(header@.skip(0) == header@);
    assert(texts(out@) + groups_in(header@.skip(0)) =~= groups_in(header@));
    loop
        invariant
            at <= size == all@.len(),
            all@ == header@,
            texts(out@) + groups_in(header@.skip(at as int)) == groups_in(header@),
        decreases size - at,
    {
        let ghost rest = header@.skip(at as int);
        let ghost before = texts(out@);
        assert(all@.subrange(at as int, size as int) == rest);
        let n: usize = find_char(&all[at..size], '|');
        assert(rest.take(n as int) == all@.subrange(at as int, at + n));
        let (from, to) = trim_bounds(&all[at..at + n]);
        let ghost name = trimmed(rest.take(n as int));
        let ghost first = if name.len() == 0 {
            Seq::<Seq<char>>::empty()
        } else {
            seq![name]
        };
        if from < to {
            assert(all@.subrange(at as int, at + n).subrange(from as int, to as int)
                == all@.subrange(at + from, at + to));
            out.push(slice_string(&all, at + from, at + to));
            assert(texts(out@) =~= before.push(name));
        }
        assert(texts(out@) =~= before + first);
        if at + n == size {
            assert(groups_in(rest) == first);
            return out;
        }
        assert(rest.skip(n + 1) == header@.skip(at + n + 1));
        assert(texts(out@) + groups_in(header@.skip(at + n + 1)) =~= before + (first + groups_in(
            rest.skip(n + 1),
        )));
        at = at + n + 1;
    }
}

/// The person a proxy names.
pub open spec fn named_person(handle: Seq<char>, groups: Seq<Seq<char>>) -> IdentityView {
    IdentityView {
        subject: Seq::empty(),
        name: Seq::empty(),
        groups,
        email: None,
        handle: Some(handle),
    }
}

/// Whose bell is asked for, and in which space, if it can be given to them.
pub open spec fn bell_owner(
    config: ConfigView,
    user: Seq<char>,
    groups: Seq<char>,
) -> Option<(Seq<char>, SpaceView)> {
    match config.events {
        None => None,
        Some(events) => match space_hosted(config.spaces, normalised(events.space)) {
            None => None,
            Some(space) => match handle_of(user) {
                None => None,
                Some(handle) => if reads(named_person(handle, groups_in(groups)), space) {
                    Some((handle, space))
                } else {
                    None
                },
            },
        },
    }
}

/// Whose bell the proxy asks for, and the host of the space it is in. `user`
/// and `groups` are what the two headers say, empty where there is none.
pub fn bell_person(config: &Config, user: &str, groups: &str) -> (r: Option<(String, String)>)
    ensures
        match r {
            Some((handle, host)) => match bell_owner(config@, user@, groups@) {
                Some((owner, space)) => handle@ == owner && host@ == space.host,
                None => false,
            },
            None => bell_owner(config@, user@, groups@) is None,
        },
{
    let events = match &config.events {
        Some(events) => events,
        None => {
            return None;
        },
    };
    let space = match config.space_for_host(&events.space) {
        Some(space) => space,
        None => {
            return None;
        },
    };
    let handle = match checked_handle(user) {
        Some(handle) => handle,
        None => {
            return None;
        },
    };
    let who = Identity {
        subject: String::new(),
        name: String::new(),
        groups: split_groups(groups),
        email: None,
        handle: Some(handle.clone()),
    };
    assert(who@ == named_person(handle@, groups_in(groups@)));
    if !may_read(&who, space) {
        return None;
    }
    Some((handle, space.host.clone()))
}

/// The bell of whoever the proxy named, or an empty one.
pub open spec fn outside_bell(
    config: ConfigView,
    user: Seq<char>,
    groups: Seq<char>,
    rows: Seq<RowView>,
    events: Seq<StoredView>,
) -> TreeView {
    match bell_owner(config, user, groups) {
        None => bell_tree(0, Seq::empty(), Seq::empty()),
        Some((_, space)) => bell_tree(
            unread_total(rows, events, seq![space.host]) as i64,
            page_entries(rows, events, seq![space.host], BELL_ENTRIES),
            Seq::empty(),
        ),
    }
}

/// The answer for whoever the proxy named, or an empty bell, for everybody it
/// cannot be given to. One shape for "nobody", "not allowed" and "nothing
/// new", so the door says nothing about who exists. `account` are the rows of
/// the account behind the handle, if there is one, and `events` the events for
/// the handle. Every link names its host: the page that shows them is none of
/// ours.
pub fn bell_for(
    config: &Config,
    user: &str,
    groups: &str,
    account: Option<&[Row]>,
    events: &[Stored],
) -> (r: Tree)
    requires
        account is Some ==> account->0@.len() <= 0x1000000000000000,
        events@.len() <= 0x1000000000000000,
    ensures
        r@ == outside_bell(
            config@,
            user@,
            groups@,
            match account {
                Some(rows) => rows_view(rows@),
                None => Seq::empty(),
            },
            stored_view(events@),
        ),
{
    proof {
        reveal_strlit("");
        assert(""@ =~= Seq::<char>::empty());
    }
    match bell_person(config, user, groups) {
        None => {
            let none: Vec<crate::db::inbox::Entry> = Vec::new();
            assert(crate::db::inbox::entries_view(none@) =~= Seq::<EntryView>::empty());
            bell_json(0, &none, "")
        },
        Some((_, host)) => {
            let (unread, entries) = for_handle(account, events, &host, BELL_ENTRIES);
            bell_json(unread, &entries, "")
        },
    }
}

/// A door whose token was never configured opens for nobody.
pub proof fn no_token_no_door(
    authorization: Option<Seq<char>>,
    events: Option<EventsView>,
    raw: Option<RawView>,
)
    ensures
        taking(None, authorization, events, raw) == Err::<CheckedView, _>(
            EventAnswerView::NotFound,
        ),
{
}

/// Whoever the bell cannot be given to gets the same answer, whatever is in
/// the database: the door says nothing about who exists.
pub proof fn the_door_says_nothing(
    config: ConfigView,
    user: Seq<char>,
    groups: Seq<char>,
    rows: Seq<RowView>,
    events: Seq<StoredView>,
    other_rows: Seq<RowView>,
    other_events: Seq<StoredView>,
)
    requires
        bell_owner(config, user, groups) is None,
    ensures
        outside_bell(config, user, groups, rows, events) == outside_bell(
            config,
            user,
            groups,
            other_rows,
            other_events,
        ),
{
}

} // verus!
