//! Identity and session. The conversation with the provider is in [`oidc`];
//! this module holds what *we* decide: how a set of claims becomes an identity,
//! and how a signed-in person is remembered between requests.
use crate::authz::{Identity, IdentityView};
use crate::codec::random_bytes;
use crate::text::{
    ascii_lower, chars, hex, hex_text, lower_char, text_of, texts, to_ascii_lower, trim, trimmed,
};
use crate::tree::{
    entry, find, items_view, json_parsed, list_view, parse_json, table_view, texts_among,
    texts_as_tree, texts_in, texts_written, write_texts, Tree, TreeView,
};
use vstd::prelude::*;
use vstd::string::*;
use vstd::utf8::encode_utf8;

pub mod oidc;

verus! {

/// May this character stand in a handle?
pub open spec fn handle_char(c: char) -> bool {
    'a' <= c <= 'z' || 'A' <= c <= 'Z' || '0' <= c <= '9' || c == '.' || c == '_' || c == '-'
}

/// A handle as it is kept: one to sixty-four letters, digits, dots,
/// underscores and hyphens, in small letters. Anything else is no handle.
pub open spec fn handle_of(s: Seq<char>) -> Option<Seq<char>> {
    if 1 <= s.len() <= 64 && forall|i: int| 0 <= i < s.len() ==> handle_char(#[trigger] s[i]) {
        Some(ascii_lower(s))
    } else {
        None
    }
}

pub fn is_handle_char(c: char) -> (r: bool)
    ensures
        r == handle_char(c),
{
    (c >= 'a' && c <= 'z') || (c >= 'A' && c <= 'Z') || (c >= '0' && c <= '9') || c == '.' || c
        == '_' || c == '-'
}

/// The handle these characters spell, if they spell one.
pub fn handle_in(s: &[char]) -> (r: Option<String>)
    ensures
        text_of(r) == handle_of(s@),
{
    if s.len() < 1 || s.len() > 64 {
        return None;
    }
    let mut i: usize = 0;
    while i < s.len()
        invariant
            i <= s@.len(),
            forall|k: int| 0 <= k < i ==> handle_char(#[trigger] s@[k]),
        decreases s@.len() - i,
    {
        if !is_handle_char(s[i]) {
            assert(!handle_char(s@[i as int]));
            return None;
        }
        i += 1;
    }
    Some(to_ascii_lower(s))
}

/// The handle this text is, if it is one: what can be typed behind an `@`.
pub fn checked_handle(text: &str) -> (r: Option<String>)
    ensures
        text_of(r) == handle_of(text@),
{
    let s = chars(text);
    handle_in(&s)
}

/// A handle is its own handle, so checking one twice changes nothing.
pub proof fn a_handle_stays_itself(s: Seq<char>)
    requires
        handle_of(s) is Some,
    ensures
        handle_of(handle_of(s)->0) == handle_of(s),
{
    let h = handle_of(s)->0;
    assert forall|i: int| 0 <= i < h.len() implies handle_char(#[trigger] h[i]) by {
        assert(h[i] == lower_char(s[i]));
        assert(handle_char(s[i]));
        if 'A' <= s[i] <= 'Z' {
            assert('a' <= lower_char(s[i]) <= 'z');
        }
    }
    crate::text::ascii_lower_idempotent(s);
}

#[derive(Debug)]
pub struct OidcSettings {
    pub issuer: String,
    pub client_id: String,
    pub client_secret: String,
    pub group_claim: String,
}

/// Why the settings are not usable.
#[derive(Debug)]
pub enum SettingsError {
    /// A variable without a sensible default is unset or blank.
    Missing(String),
    /// The file with the secret cannot be read.
    Unreadable { file: String, reason: String },
    /// The file with the secret holds nothing.
    Blank(String),
}

pub enum SettingsFault {
    Missing(Seq<char>),
    Unreadable { file: Seq<char>, reason: Seq<char> },
    Blank(Seq<char>),
}

impl View for SettingsError {
    type V = SettingsFault;

    open spec fn view(&self) -> SettingsFault {
        match self {
            SettingsError::Missing(name) => SettingsFault::Missing(name@),
            SettingsError::Unreadable { file, reason } => SettingsFault::Unreadable {
                file: file@,
                reason: reason@,
            },
            SettingsError::Blank(file) => SettingsFault::Blank(file@),
        }
    }
}

impl SettingsError {
    /// What the operator is told.
    pub open spec fn said(self) -> Seq<char> {
        match self {
            SettingsError::Missing(name) => name@
                + " is not set; treff does not start without it"@,
            SettingsError::Unreadable { file, reason } => "cannot read "@ + file@ + ": "@
                + reason@,
            SettingsError::Blank(file) => file@
                + " is empty; treff will not start without a client secret"@,
        }
    }

    pub fn message(&self) -> (r: String)
        ensures
            r@ == self.said(),
    {
        match self {
            SettingsError::Missing(name) => {
                name.clone().concat(" is not set; treff does not start without it")
            },
            SettingsError::Unreadable { file, reason } => {
                "cannot read ".to_owned().concat(file).concat(": ").concat(reason)
            },
            SettingsError::Blank(file) => {
                file.clone().concat(" is empty; treff will not start without a client secret")
            },
        }
    }
}

/// A setting with no sensible default. Empty and unset are the same thing
/// here: both mean the operator has not decided, and treff does not guess.
pub open spec fn decided(value: Option<Seq<char>>) -> bool {
    value is Some && trimmed(value->0).len() > 0
}

/// The value of a setting with no sensible default.
pub fn required(name: &str, value: Option<String>) -> (r: Result<String, SettingsError>)
    ensures
        r is Ok == decided(text_of(value)),
        r is Ok ==> r->Ok_0@ == value->0@,
        r is Err ==> r->Err_0@ == SettingsFault::Missing(name@),
{
    match value {
        Some(value) => {
            if trim(&value).as_str().is_empty() {
                Err(SettingsError::Missing(name.to_owned()))
            } else {
                Ok(value)
            }
        },
        None => Err(SettingsError::Missing(name.to_owned())),
    }
}

impl OidcSettings {
    /// The settings, from the environment's variables and what was read from
    /// the file that one of them names.
    ///
    /// The secret comes from a FILE, not from the environment: an environment
    /// variable is readable in /proc/<pid>/environ. An EMPTY file is the
    /// interesting case, not a missing one: it otherwise lets the service
    /// start and look healthy, and fails only when somebody tries to sign in.
    pub fn from_env(
        issuer: Option<String>,
        client_id: Option<String>,
        secret_file: Option<String>,
        secret: Result<String, String>,
        group_claim: Option<String>,
    ) -> (r: Result<OidcSettings, SettingsError>)
        ensures
            match r {
                Ok(s) => ({
                    &&& decided(text_of(secret_file))
                    &&& decided(text_of(issuer)) && s.issuer@ == issuer->0@
                    &&& decided(text_of(client_id)) && s.client_id@ == client_id->0@
                    &&& secret is Ok && s.client_secret@ == trimmed(secret->Ok_0@)
                    &&& s.client_secret@.len() > 0
                    &&& s.group_claim@ == match group_claim {
                        Some(claim) => claim@,
                        None => "groups"@,
                    }
                }),
                Err(e) => e@ == (if !decided(text_of(secret_file)) {
                    SettingsFault::Missing("TREFF_OIDC_CLIENT_SECRET_FILE"@)
                } else if !decided(text_of(issuer)) {
                    SettingsFault::Missing("TREFF_OIDC_ISSUER"@)
                } else if !decided(text_of(client_id)) {
                    SettingsFault::Missing("TREFF_OIDC_CLIENT_ID"@)
                } else if secret is Err {
                    SettingsFault::Unreadable { file: secret_file->0@, reason: secret->Err_0@ }
                } else {
                    SettingsFault::Blank(secret_file->0@)
                }),
            },
            r is Ok == (decided(text_of(secret_file)) && decided(text_of(issuer)) && decided(
                text_of(client_id),
            ) && secret is Ok && trimmed(secret->Ok_0@).len() > 0),
    {
        let file = match required("TREFF_OIDC_CLIENT_SECRET_FILE", secret_file) {
            Ok(file) => file,
            Err(e) => {
                return Err(e);
            },
        };
        let issuer = match required("TREFF_OIDC_ISSUER", issuer) {
            Ok(issuer) => issuer,
            Err(e) => {
                return Err(e);
            },
        };
        let client_id = match required("TREFF_OIDC_CLIENT_ID", client_id) {
            Ok(client_id) => client_id,
            Err(e) => {
                return Err(e);
            },
        };
        let client_secret = match secret {
            Ok(secret) => trim(&secret),
            Err(reason) => {
                return Err(SettingsError::Unreadable { file, reason });
            },
        };
        if client_secret.as_str().is_empty() {
            return Err(SettingsError::Blank(file));
        }
        let group_claim = match group_claim {
            Some(claim) => claim,
            None => "groups".to_owned(),
        };
        Ok(OidcSettings { issuer, client_id, client_secret, group_claim })
    }
}

/// The groups in a set of claims: the texts in the list under that name, and
/// none at all if there is no such list.
pub open spec fn groups_claimed(claims: TreeView, group_claim: Seq<char>) -> Seq<Seq<char>> {
    match claims {
        TreeView::Table(t) => match entry(t, group_claim) {
            Some(TreeView::List(items)) => texts_among(items),
            _ => Seq::empty(),
        },
        _ => Seq::empty(),
    }
}

/// The address in a set of claims, trimmed, if there is one.
pub open spec fn email_claimed(claims: TreeView) -> Option<Seq<char>> {
    match claims {
        TreeView::Table(t) => match entry(t, "email"@) {
            Some(TreeView::Text(s)) => if trimmed(s).len() > 0 {
                Some(trimmed(s))
            } else {
                None
            },
            _ => None,
        },
        _ => None,
    }
}

fn read_groups(claims: &Tree, group_claim: &str) -> (r: Vec<String>)
    ensures
        texts(r@) == groups_claimed(claims@, group_claim@),
{
    let mut out: Vec<String> = Vec::new();
    match claims {
        Tree::Table(t) => {
            proof {
                table_view(*t);
            }
            match find(t, group_claim) {
                Some(Tree::List(items)) => {
                    proof {
                        list_view(*items);
                    }
                    let ghost all = items_view(items@);
                    let mut i: usize = 0;
                    assert(texts(out@) == texts_among(all.take(0)));
                    while i < items.len()
                        invariant
                            i <= items@.len(),
                            all == items_view(items@),
                            texts(out@) == texts_among(all.take(i as int)),
                        decreases items@.len() - i,
                    {
                        assert(all.take(i + 1).drop_last() == all.take(i as int));
                        assert(all.take(i + 1).last() == items@[i as int]@);
                        let ghost before = texts(out@);
                        match &items[i] {
                            Tree::Text(s) => {
                                out.push(s.clone());
                                assert(texts(out@) == before.push(s@));
                            },
                            _ => {},
                        }
                        i += 1;
                    }
                    assert(all.take(i as int) == all);
                    return out;
                },
                _ => {},
            }
        },
        _ => {},
    }
    assert(texts(out@) == Seq::<Seq<char>>::empty());
    out
}

fn read_email(claims: &Tree) -> (r: Option<String>)
    ensures
        text_of(r) == email_claimed(claims@),
{
    match claims {
        Tree::Table(t) => {
            proof {
                table_view(*t);
            }
            match find(t, "email") {
                Some(Tree::Text(s)) => {
                    let address = trim(s);
                    if address.as_str().is_empty() {
                        None
                    } else {
                        Some(address)
                    }
                },
                _ => None,
            }
        },
        _ => None,
    }
}

/// Claims in, identity out.
///
/// Everything unexpected results in **no** groups: a missing claim, a claim
/// that is a string rather than a list, entries that are not strings. The
/// alternative, guessing, would turn a provider's misconfiguration into an open
/// door. A handle is not in the claims: it is the directory's to give.
pub fn claims_to_identity(
    subject: &str,
    name: Option<&str>,
    claims: &Tree,
    group_claim: &str,
) -> (r: Identity)
    ensures
        r@ == (IdentityView {
            subject: subject@,
            name: match name {
                Some(name) => name@,
                None => subject@,
            },
            groups: groups_claimed(claims@, group_claim@),
            email: email_claimed(claims@),
            handle: None,
        }),
{
    let name = match name {
        Some(name) => name.to_owned(),
        None => subject.to_owned(),
    };
    Identity {
        subject: subject.to_owned(),
        name,
        groups: read_groups(claims, group_claim),
        email: read_email(claims),
        handle: None,
    }
}

/// Who signed in, by the claims of the token: under the name the provider
/// gives, or else under the one they prefer, and mentioned by the latter if it
/// makes a handle.
pub fn signed_in(
    subject: &str,
    name: Option<&str>,
    preferred: Option<&str>,
    claims: &Tree,
    group_claim: &str,
) -> (r: Identity)
    ensures
        r@ == (IdentityView {
            subject: subject@,
            name: match (name, preferred) {
                (Some(name), _) => name@,
                (None, Some(preferred)) => preferred@,
                (None, None) => subject@,
            },
            groups: groups_claimed(claims@, group_claim@),
            email: email_claimed(claims@),
            handle: match preferred {
                Some(preferred) => handle_of(preferred@),
                None => None,
            },
        }),
{
    let shown = match name {
        Some(name) => Some(name),
        None => preferred,
    };
    let handle = match preferred {
        Some(preferred) => checked_handle(preferred),
        None => None,
    };
    let who = claims_to_identity(subject, shown, claims, group_claim);
    Identity { handle, ..who }
}

/// A claim of the wrong shape lets nobody in.
pub proof fn no_list_no_groups(claims: TreeView, group_claim: Seq<char>)
    requires
        !(claims is Table && entry(claims->Table_0, group_claim) is Some && entry(
            claims->Table_0,
            group_claim,
        )->0 is List),
    ensures
        groups_claimed(claims, group_claim).len() == 0,
{
}

pub struct Sessions;

pub const SESSION_SECONDS: i64 = 43200;

/// The identifier that drawn bytes make: their hex digits. Where none could be
/// drawn there is none, and the complaint is passed on.
pub fn id_of(drawn: Result<Vec<u8>, String>) -> (r: Result<String, String>)
    ensures
        match drawn {
            Ok(bytes) => r is Ok && r->Ok_0@ == hex_text(bytes@),
            Err(e) => r == Err::<String, String>(e),
        },
{
    match drawn {
        Ok(bytes) => Ok(hex(&bytes)),
        Err(e) => Err(e),
    }
}

/// 32 bytes from the operating system, hex encoded. This identifier *is* the
/// credential, so a failure to get randomness is an error, never a fallback.
pub fn random_id() -> (r: Result<String, String>)
    ensures
        r is Ok ==> exists|bytes: Seq<u8>|
            bytes.len() == 32 && r->Ok_0@ == #[trigger] hex_text(bytes),
{
    id_of(random_bytes(32))
}

/// The groups kept in a row, as a JSON list of texts. Unreadable groups mean
/// none: fail closed even against our own storage.
pub open spec fn groups_stored(bytes: Seq<u8>) -> Seq<Seq<char>> {
    match json_parsed(bytes) {
        Some(tree) => match texts_in(tree) {
            Some(list) => list,
            None => Seq::empty(),
        },
        None => Seq::empty(),
    }
}

/// The texts in a value, if it is a list of nothing else.
pub fn read_text_list(tree: &Tree) -> (r: Vec<String>)
    ensures
        texts(r@) == match texts_in(tree@) {
            Some(list) => list,
            None => Seq::empty(),
        },
{
    let none: Vec<String> = Vec::new();
    assert(texts(none@) == Seq::<Seq<char>>::empty());
    match tree {
        Tree::List(items) => {
            proof {
                list_view(*items);
            }
            let ghost all = items_view(items@);
            let mut out: Vec<String> = Vec::new();
            let mut i: usize = 0;
            while i < items.len()
                invariant
                    i <= items@.len(),
                    all == items_view(items@),
                    tree@ == TreeView::List(all),
                    texts(none@) == Seq::<Seq<char>>::empty(),
                    out@.len() == i,
                    forall|k: int|
                        0 <= k < i ==> (#[trigger] all[k]) is Text && out@[k]@ == all[k]->Text_0,
                decreases items@.len() - i,
            {
                assert(all[i as int] == items@[i as int]@);
                match &items[i] {
                    Tree::Text(s) => {
                        out.push(s.clone());
                    },
                    _ => {
                        assert(!(all[i as int] is Text));
                        return none;
                    },
                }
                i += 1;
            }
            assert(texts(out@) == texts_in(tree@)->0);
            out
        },
        _ => none,
    }
}

/// What is kept of a person who signed in, while the session lasts.
#[derive(Debug)]
pub struct SessionRow {
    pub subject: String,
    pub name: String,
    pub groups_json: String,
    pub email: Option<String>,
    pub handle: Option<String>,
    pub created_at: i64,
    pub expires_at: i64,
}

impl Sessions {
    /// What is kept of a person who signs in now.
    pub fn create(who: &Identity, now: i64) -> (r: SessionRow)
        requires
            now <= i64::MAX - SESSION_SECONDS,
        ensures
            r.subject@ == who@.subject,
            r.name@ == who@.name,
            r.groups_json@ == texts_written(who@.groups),
            groups_stored(encode_utf8(r.groups_json@)) == who@.groups,
            text_of(r.email) == who@.email,
            text_of(r.handle) == who@.handle,
            r.created_at == now,
            r.expires_at == now + SESSION_SECONDS,
    {
        let groups_json = write_texts(&who.groups);
        proof {
            let kept = texts_as_tree(texts(who.groups@));
            let items = kept->List_0;
            assert(forall|i: int| 0 <= i < items.len() ==> (#[trigger] items[i]) is Text);
            assert(texts_in(kept)->0 == who@.groups);
        }
        SessionRow {
            subject: who.subject.clone(),
            name: who.name.clone(),
            groups_json,
            email: match &who.email {
                Some(email) => Some(email.clone()),
                None => None,
            },
            handle: match &who.handle {
                Some(handle) => Some(handle.clone()),
                None => None,
            },
            created_at: now,
            expires_at: Sessions::expires_at(now),
        }
    }

    /// When a session that begins now is over.
    pub fn expires_at(now: i64) -> (r: i64)
        requires
            now <= i64::MAX - SESSION_SECONDS,
        ensures
            r == now + SESSION_SECONDS,
    {
        now + SESSION_SECONDS
    }

    /// A session that is over must be unfindable, not merely unused.
    pub fn is_live(expires_at: i64, now: i64) -> (r: bool)
        ensures
            r == (expires_at > now),
    {
        expires_at > now
    }

    /// The groups kept with a session or an account.
    pub fn stored_groups(groups_json: &str) -> (r: Vec<String>)
        ensures
            texts(r@) == groups_stored(groups_json.spec_bytes()),
    {
        match parse_json(groups_json.as_bytes()) {
            Some(tree) => read_text_list(&tree),
            None => {
                let none: Vec<String> = Vec::new();
                assert(texts(none@) == Seq::<Seq<char>>::empty());
                none
            },
        }
    }

    /// Who a session row stands for, while it is live.
    pub fn load(row: SessionRow, now: i64) -> (r: Option<Identity>)
        ensures
            match r {
                Some(who) => session_stands_for(row, now) == Some(who@),
                None => session_stands_for(row, now) is None,
            },
    {
        if !Sessions::is_live(row.expires_at, now) {
            return None;
        }
        let groups = Sessions::stored_groups(row.groups_json.as_str());
        Some(
            Identity {
                subject: row.subject,
                name: row.name,
                groups,
                email: row.email,
                handle: row.handle,
            },
        )
    }
}

/// Who a session row stands for, while it is live.
pub open spec fn session_stands_for(row: SessionRow, now: i64) -> Option<IdentityView> {
    if row.expires_at > now {
        Some(
            IdentityView {
                subject: row.subject@,
                name: row.name@,
                groups: groups_stored(encode_utf8(row.groups_json@)),
                email: text_of(row.email),
                handle: text_of(row.handle),
            },
        )
    } else {
        None
    }
}

/// Who signs in is known as the same person, with the same groups, for as long
/// as the session lives, and as nobody afterwards.
pub proof fn a_session_gives_back_who_it_was_made_for(
    who: IdentityView,
    row: SessionRow,
    made: i64,
    now: i64,
)
    requires
        row.subject@ == who.subject,
        row.name@ == who.name,
        groups_stored(encode_utf8(row.groups_json@)) == who.groups,
        text_of(row.email) == who.email,
        text_of(row.handle) == who.handle,
        row.expires_at == made + SESSION_SECONDS,
    ensures
        session_stands_for(row, now) == if now < made + SESSION_SECONDS {
            Some(who)
        } else {
            None
        },
{
}

/// A fresh session is live until its time is over, and not a second longer.
pub proof fn a_session_lives_its_time(start: i64, now: i64)
    requires
        start <= i64::MAX - SESSION_SECONDS,
    ensures
        (start + SESSION_SECONDS > now) == (now - start < SESSION_SECONDS),
{
}

} // verus!
