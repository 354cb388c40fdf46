//! `/scim/v2`: the door the identity provider pushes its people and groups
//! through.
//!
//! A mention is for somebody who is not looking, so the forum has to know
//! people before they come, and the provider already knows them all. The door
//! is on the internal listener, behind its OWN token: a leak of the bell's
//! token must not let anybody rewrite who exists.
//!
//! **The id is the `externalId`, and it must be a UUID**: it has to equal the
//! `sub` of a later sign-in, so that the person this door writes and the
//! person who signs in are ONE. An id that is none is the mapping being wrong,
//! and it is refused loudly rather than building a second population nobody
//! ever matches.
use crate::db::directory::{Group, GroupView, User, UserView};
use crate::text::{
    ascii_lower, begins, chars, decimal, decimal_text, ends, ends_with, is_white, lower_char, same,
    slice_string, starts_with, text_of, texts, to_ascii_lower, trim, trim_bounds, trim_start,
    trimmed, white,
};
use crate::tree::{entries_view, items_view, list_view, table_view, Tree, TreeView};
use vstd::prelude::*;
use vstd::string::*;

verus! {

pub const SERVICE_PROVIDER_CONFIG: &'static str = "/scim/v2/ServiceProviderConfig";

pub const USERS: &'static str = "/scim/v2/Users";

pub const GROUPS: &'static str = "/scim/v2/Groups";

pub const CONTENT_TYPE: &'static str = "application/scim+json";

/// How many resources one page holds when the client does not say.
pub const PER_PAGE: i64 = 100;

pub const MOST_PER_PAGE: i64 = 200;

/// Why something was refused: the kind, and a sentence for the operator's log.
/// Nothing here says who exists.
#[derive(Debug)]
pub struct Refused {
    pub scim_type: &'static str,
    pub detail: String,
}

pub struct RefusedView {
    pub scim_type: Seq<char>,
    pub detail: Seq<char>,
}

impl View for Refused {
    type V = RefusedView;

    open spec fn view(&self) -> RefusedView {
        RefusedView { scim_type: self.scim_type@, detail: self.detail@ }
    }
}

pub open spec fn refused_view(scim_type: Seq<char>, detail: Seq<char>) -> RefusedView {
    RefusedView { scim_type, detail }
}

fn refused(scim_type: &'static str, detail: &str) -> (r: Refused)
    ensures
        r@ == refused_view(scim_type@, detail@),
{
    Refused { scim_type, detail: detail.to_owned() }
}

/// What a checked text is.
pub open spec fn told(r: Result<String, Refused>) -> Result<Seq<char>, RefusedView> {
    match r {
        Ok(text) => Ok(text@),
        Err(why) => Err(why@),
    }
}

/// A digit of a UUID, in any spelling.
pub open spec fn hex_char(c: char) -> bool {
    '0' <= c <= '9' || 'a' <= c <= 'f' || 'A' <= c <= 'F'
}

/// Has the text the shape of a UUID?
pub open spec fn uuid_shape(s: Seq<char>) -> bool {
    s.len() == 36 && forall|i: int|
        0 <= i < s.len() ==> if i == 8 || i == 13 || i == 18 || i == 23 {
            (#[trigger] s[i]) == '-'
        } else {
            hex_char(s[i])
        }
}

/// The UUID a text is, in its one spelling.
pub open spec fn id_of(raw: Seq<char>) -> Option<Seq<char>> {
    if uuid_shape(trimmed(raw)) {
        Some(ascii_lower(trimmed(raw)))
    } else {
        None
    }
}

/// A UUID and nothing else, lower-cased.
///
/// Lower-casing is not cosmetic: the value has to equal the `sub` of a later
/// sign-in, and two spellings of one UUID would be two people.
pub fn checked_id(raw: &str) -> (r: Option<String>)
    ensures
        text_of(r) == id_of(raw@),
{
    let all = chars(raw);
    let (from, to) = trim_bounds(&all);
    let ghost id = trimmed(raw@);
    if to - from != 36 {
        return None;
    }
    let mut i: usize = 0;
    while i < 36
        invariant
            i <= 36,
            to - from == 36,
            from <= to <= all@.len(),
            id == all@.subrange(from as int, to as int),
            id == trimmed(raw@),
            forall|k: int|
                0 <= k < i ==> if k == 8 || k == 13 || k == 18 || k == 23 {
                    (#[trigger] id[k]) == '-'
                } else {
                    hex_char(id[k])
                },
        decreases 36 - i,
    {
        let c = all[from + i];
        assert(id[i as int] == c);
        let fits = if i == 8 || i == 13 || i == 18 || i == 23 {
            c == '-'
        } else {
            ('0' <= c && c <= '9') || ('a' <= c && c <= 'f') || ('A' <= c && c <= 'F')
        };
        if !fits {
            return None;
        }
        i += 1;
    }
    Some(to_ascii_lower(&all[from..to]))
}

/// What is said of an id that is none.
pub open spec fn not_an_id(what: Seq<char>) -> RefusedView {
    refused_view(
        "invalidValue"@,
        "the "@ + what
            + " must be a UUID \u{2014} treff's `sub` is the user's UUID, and the SCIM mapping has to set `externalId` to it"@,
    )
}

/// The id in a field, or the refusal.
pub open spec fn id_in(raw: Option<Seq<char>>, what: Seq<char>) -> Result<Seq<char>, RefusedView> {
    match raw {
        Some(raw) => match id_of(raw) {
            Some(id) => Ok(id),
            None => Err(not_an_id(what)),
        },
        None => Err(not_an_id(what)),
    }
}

fn as_id(raw: Option<&str>, what: &str) -> (r: Result<String, Refused>)
    ensures
        told(r) == id_in(
            match raw {
                Some(raw) => Some(raw@),
                None => None,
            },
            what@,
        ),
{
    let found = match raw {
        Some(raw) => checked_id(raw),
        None => None,
    };
    match found {
        Some(id) => Ok(id),
        None => {
            let detail = "the ".to_owned().concat(what).concat(
                " must be a UUID \u{2014} treff's `sub` is the user's UUID, and the SCIM mapping has to set `externalId` to it",
            );
            Err(Refused { scim_type: "invalidValue", detail })
        },
    }
}

/// The id in a path, or the refusal.
pub fn path_id(raw: &str) -> (r: Result<String, Refused>)
    ensures
        told(r) == id_in(Some(raw@), "id in the path"@),
{
    as_id(Some(raw), "id in the path")
}

proof fn lower_keeps_shape(s: Seq<char>)
    requires
        uuid_shape(s),
    ensures
        uuid_shape(ascii_lower(s)),
        trimmed(ascii_lower(s)) == ascii_lower(s),
{
    let low = ascii_lower(s);
    assert(low.len() == s.len());
    assert forall|i: int| 0 <= i < low.len() implies if i == 8 || i == 13 || i == 18 || i == 23 {
        (#[trigger] low[i]) == '-'
    } else {
        hex_char(low[i])
    } by {
        assert(low[i] == lower_char(s[i]));
        if i == 8 || i == 13 || i == 18 || i == 23 {
            assert(s[i] == '-');
        } else {
            assert(hex_char(s[i]));
        }
    }
    assert(hex_char(low[0]) && hex_char(low[35]));
    assert(!white(low[0]) && !white(low.last()));
}

/// An id is in its one spelling once it is checked: checking it again changes
/// nothing, and every spelling of one UUID is the same id.
pub proof fn an_id_has_one_spelling(raw: Seq<char>, other: Seq<char>)
    requires
        id_of(raw) is Some,
    ensures
        id_of(id_of(raw)->0) == id_of(raw),
        ascii_lower(trimmed(raw)) == ascii_lower(trimmed(other)) && id_of(other) is Some ==> id_of(
            raw,
        ) == id_of(other),
{
    lower_keeps_shape(trimmed(raw));
    crate::text::ascii_lower_idempotent(trimmed(raw));
}

/// An address, as it comes in.
#[derive(Debug)]
pub struct EmailIn {
    pub value: Option<String>,
    pub primary: Option<bool>,
}

/// A person, as they come in. What is not named here is ignored on purpose: a
/// server may be sent extensions.
#[derive(Debug)]
pub struct UserIn {
    pub id: Option<String>,
    pub external_id: Option<String>,
    pub user_name: Option<String>,
    pub display_name: Option<String>,
    pub emails: Option<Vec<EmailIn>>,
    pub active: Option<bool>,
}

#[derive(Debug)]
pub struct MemberIn {
    pub value: Option<String>,
}

#[derive(Debug)]
pub struct GroupIn {
    pub id: Option<String>,
    pub external_id: Option<String>,
    pub display_name: Option<String>,
    pub members: Option<Vec<MemberIn>>,
}

/// One operation of a change. The value is what it holds as a list of members,
/// or why it is none.
#[derive(Debug)]
pub struct OperationIn {
    pub op: Option<String>,
    pub path: Option<String>,
    pub value: Option<Result<Vec<MemberIn>, String>>,
}

#[derive(Debug)]
pub struct PatchIn {
    pub operations: Option<Vec<OperationIn>>,
}

/// The addresses there are, those that are marked in front.
pub open spec fn addresses(emails: Seq<EmailIn>) -> Seq<Seq<char>>
    decreases emails.len(),
{
    if emails.len() == 0 {
        Seq::empty()
    } else {
        let before = addresses(emails.drop_last());
        let last = emails.last();
        match last.value {
            None => before,
            Some(value) => if trimmed(value@).len() == 0 {
                before
            } else if last.primary == Some(true) {
                seq![trimmed(value@)] + before
            } else {
                before.push(trimmed(value@))
            },
        }
    }
}

/// The address of a person.
pub open spec fn address_in(emails: Option<Vec<EmailIn>>) -> Option<Seq<char>> {
    match emails {
        Some(emails) => if addresses(emails@).len() == 0 {
            None
        } else {
            Some(addresses(emails@)[0])
        },
        None => None,
    }
}

/// The primary address, or the first one that is an address at all.
pub fn primary_email(emails: &Option<Vec<EmailIn>>) -> (r: Option<String>)
    ensures
        text_of(r) == address_in(*emails),
{
    let emails = match emails {
        Some(emails) => emails,
        None => {
            return None;
        },
    };
    let mut best: Option<String> = None;
    let mut i: usize = 0;
    assert(emails@.take(0).len() == 0);
    while i < emails.len()
        invariant
            i <= emails@.len(),
            text_of(best) == if addresses(emails@.take(i as int)).len() == 0 {
                None
            } else {
                Some(addresses(emails@.take(i as int))[0])
            },
        decreases emails@.len() - i,
    {
        let email = &emails[i];
        let ghost before = addresses(emails@.take(i as int));
        assert(emails@.take(i + 1).drop_last() == emails@.take(i as int));
        assert(emails@.take(i + 1).last() == *email);
        match &email.value {
            None => {},
            Some(value) => {
                let value = trim(value);
                if !value.as_str().is_empty() {
                    let primary = match email.primary {
                        Some(primary) => primary,
                        None => false,
                    };
                    if primary {
                        assert((seq![value@] + before)[0] == value@);
                        best = Some(value);
                    } else if best.is_none() {
                        assert(before.push(value@)[0] == value@);
                        best = Some(value);
                    } else {
                        assert(before.push(value@)[0] == before[0]);
                    }
                }
            },
        }
        i += 1;
    }
    assert(emails@.take(i as int) == emails@);
    best
}

/// What is given for one of these: the first, or else the second.
pub open spec fn either(first: Option<Seq<char>>, second: Option<Seq<char>>) -> Option<Seq<char>> {
    if first is Some {
        first
    } else {
        second
    }
}

/// Does an id in the body agree with the one in the path?
pub open spec fn agrees(
    given: Option<Seq<char>>,
    name: Seq<char>,
    path: Seq<char>,
) -> Option<RefusedView> {
    match given {
        None => None,
        Some(given) => match id_in(Some(given), name) {
            Err(why) => Some(why),
            Ok(id) => if id == path {
                None
            } else {
                Some(
                    refused_view(
                        "invalidValue"@,
                        "the "@ + name + " in the body is not the id in the path"@,
                    ),
                )
            },
        },
    }
}

fn check_agreement(given: &Option<String>, name: &str, path: &str) -> (r: Option<Refused>)
    ensures
        match r {
            Some(why) => agrees(text_of(*given), name@, path@) == Some(why@),
            None => agrees(text_of(*given), name@, path@) is None,
        },
{
    match given {
        None => None,
        Some(given) => match as_id(Some(given.as_str()), name) {
            Err(why) => Some(why),
            Ok(id) => if same(&id, path) {
                None
            } else {
                let detail = "the ".to_owned().concat(name).concat(
                    " in the body is not the id in the path",
                );
                Some(Refused { scim_type: "invalidValue", detail })
            },
        },
    }
}

/// The id of a person: the path's when there is one, and then the body's own
/// ids, where present, have to agree with it.
pub open spec fn user_id(
    id: Option<Seq<char>>,
    external_id: Option<Seq<char>>,
    path: Option<Seq<char>>,
) -> Result<Seq<char>, RefusedView> {
    match path {
        None => id_in(either(external_id, id), "externalId"@),
        Some(path) => match id_in(Some(path), "id in the path"@) {
            Err(why) => Err(why),
            Ok(path) => if agrees(id, "id"@, path) is Some {
                Err(agrees(id, "id"@, path)->0)
            } else if agrees(external_id, "externalId"@, path) is Some {
                Err(agrees(external_id, "externalId"@, path)->0)
            } else {
                Ok(path)
            },
        },
    }
}

fn as_str(text: &Option<String>) -> (r: Option<&str>)
    ensures
        match r {
            Some(s) => text_of(*text) == Some(s@),
            None => text_of(*text) is None,
        },
{
    match text {
        Some(text) => Some(text.as_str()),
        None => None,
    }
}

fn id_of_user(
    id: &Option<String>,
    external_id: &Option<String>,
    path: Option<&str>,
) -> (r: Result<String, Refused>)
    ensures
        told(r) == user_id(
            text_of(*id),
            text_of(*external_id),
            match path {
                Some(path) => Some(path@),
                None => None,
            },
        ),
{
    match path {
        None => {
            let given = if external_id.is_some() {
                as_str(external_id)
            } else {
                as_str(id)
            };
            as_id(given, "externalId")
        },
        Some(path) => {
            let path = match path_id(path) {
                Ok(path) => path,
                Err(why) => {
                    return Err(why);
                },
            };
            match check_agreement(id, "id", &path) {
                Some(why) => {
                    return Err(why);
                },
                None => {},
            }
            match check_agreement(external_id, "externalId", &path) {
                Some(why) => {
                    return Err(why);
                },
                None => {},
            }
            Ok(path)
        },
    }
}

/// What stands in a field, trimmed.
pub open spec fn field_text(field: Option<Seq<char>>) -> Seq<char> {
    match field {
        Some(text) => trimmed(text),
        None => Seq::empty(),
    }
}

fn field(text: &Option<String>) -> (r: String)
    ensures
        r@ == field_text(text_of(*text)),
{
    match text {
        Some(text) => trim(text),
        None => String::new(),
    }
}

/// A person, or why it is none.
pub open spec fn user_in(raw: UserIn, path: Option<Seq<char>>) -> Result<UserView, RefusedView> {
    let id = user_id(text_of(raw.id), text_of(raw.external_id), path);
    let user_name = field_text(text_of(raw.user_name));
    let display_name = field_text(text_of(raw.display_name));
    if id is Err {
        Err(id->Err_0)
    } else if user_name.len() == 0 {
        Err(refused_view("invalidValue"@, "a userName is required"@))
    } else {
        Ok(
            UserView {
                id: id->Ok_0,
                user_name,
                display_name: if display_name.len() == 0 {
                    user_name
                } else {
                    display_name
                },
                email: address_in(raw.emails),
                active: raw.active != Some(false),
            },
        )
    }
}

/// A person, or why it is none.
///
/// The id is the path's when there is one, and then the body's own ids have to
/// agree with it. A disagreement is drift, and drift written down is a second
/// population.
pub fn checked_user(raw: UserIn, path: Option<&str>) -> (r: Result<User, Refused>)
    ensures
        ({
            let decided = user_in(
                raw,
                match path {
                    Some(path) => Some(path@),
                    None => None,
                },
            );
            match r {
                Ok(user) => decided == Ok::<_, RefusedView>(user@),
                Err(why) => decided == Err::<UserView, _>(why@),
            }
        }),
{
    let id = match id_of_user(&raw.id, &raw.external_id, path) {
        Ok(id) => id,
        Err(why) => {
            return Err(why);
        },
    };
    let user_name = field(&raw.user_name);
    if user_name.as_str().is_empty() {
        return Err(refused("invalidValue", "a userName is required"));
    }
    let mut display_name = field(&raw.display_name);
    if display_name.as_str().is_empty() {
        display_name = user_name.clone();
    }
    let email = primary_email(&raw.emails);
    let active = match raw.active {
        Some(active) => active,
        None => true,
    };
    Ok(User { id, user_name, display_name, email, active })
}

/// The ids of members, or the first refusal.
pub open spec fn member_ids(members: Seq<MemberIn>) -> Result<Seq<Seq<char>>, RefusedView>
    decreases members.len(),
{
    if members.len() == 0 {
        Ok(Seq::empty())
    } else {
        match member_ids(members.drop_last()) {
            Err(why) => Err(why),
            Ok(before) => match id_in(text_of(members.last().value), "member"@) {
                Err(why) => Err(why),
                Ok(id) => Ok(before.push(id)),
            },
        }
    }
}

proof fn a_refusal_stays(members: Seq<MemberIn>, n: int)
    requires
        0 <= n <= members.len(),
        member_ids(members.take(n)) is Err,
    ensures
        member_ids(members) == member_ids(members.take(n)),
    decreases members.len() - n,
{
    if n < members.len() {
        assert(members.take(n + 1).drop_last() == members.take(n));
        a_refusal_stays(members, n + 1);
    } else {
        assert(members.take(n) == members);
    }
}

fn ids_of(members: &Vec<MemberIn>) -> (r: Result<Vec<String>, Refused>)
    ensures
        match r {
            Ok(ids) => member_ids(members@) == Ok::<_, RefusedView>(texts(ids@)),
            Err(why) => member_ids(members@) == Err::<Seq<Seq<char>>, _>(why@),
        },
{
    let mut out: Vec<String> = Vec::new();
    let mut i: usize = 0;
    assert(texts(out@) =~= Seq::empty());
    assert(members@.take(0).len() == 0);
    while i < members.len()
        invariant
            i <= members@.len(),
            member_ids(members@.take(i as int)) == Ok::<_, RefusedView>(texts(out@)),
        decreases members@.len() - i,
    {
        let ghost before = texts(out@);
        assert(members@.take(i + 1).drop_last() == members@.take(i as int));
        assert(members@.take(i + 1).last() == members@[i as int]);
        match as_id(as_str(&members[i].value), "member") {
            Ok(id) => {
                let ghost one = id@;
                out.push(id);
                assert(texts(out@) =~= before.push(one));
            },
            Err(why) => {
                proof {
                    a_refusal_stays(members@, i + 1);
                }
                return Err(why);
            },
        }
        i += 1;
    }
    assert(members@.take(i as int) == members@);
    Ok(out)
}

/// What is said of the members of a group, if anything is. ABSENT IS NOT THE
/// SAME AS AN EMPTY LIST: it means "do not touch".
pub open spec fn members_in(members: Option<Vec<MemberIn>>) -> Result<
    Option<Seq<Seq<char>>>,
    RefusedView,
> {
    match members {
        None => Ok(None),
        Some(members) => match member_ids(members@) {
            Ok(ids) => Ok(Some(ids)),
            Err(why) => Err(why),
        },
    }
}

/// What an optional list of ids is.
pub open spec fn ids_seen(ids: Option<Vec<String>>) -> Option<Seq<Seq<char>>> {
    match ids {
        Some(ids) => Some(texts(ids@)),
        None => None,
    }
}

/// The members of a group, as they come in.
pub fn checked_members(members: &Option<Vec<MemberIn>>) -> (r: Result<Option<Vec<String>>, Refused>)
    ensures
        match r {
            Ok(ids) => members_in(*members) == Ok::<_, RefusedView>(ids_seen(ids)),
            Err(why) => members_in(*members) == Err::<Option<Seq<Seq<char>>>, _>(why@),
        },
{
    match members {
        None => Ok(None),
        Some(members) => match ids_of(members) {
            Ok(ids) => Ok(Some(ids)),
            Err(why) => Err(why),
        },
    }
}

/// A group that was checked: its id, its name, and its members where they were
/// given.
#[derive(Debug)]
pub struct CheckedGroup {
    pub id: String,
    pub name: String,
    pub members: Option<Vec<String>>,
}

/// A group, or why it is none.
pub open spec fn group_in(raw: GroupIn, path: Option<Seq<char>>) -> Result<
    (Seq<char>, Seq<char>, Option<Seq<Seq<char>>>),
    RefusedView,
> {
    let id = match path {
        Some(path) => id_in(Some(path), "id in the path"@),
        None => id_in(either(text_of(raw.external_id), text_of(raw.id)), "externalId"@),
    };
    let name = field_text(text_of(raw.display_name));
    if id is Err {
        Err(id->Err_0)
    } else if name.len() == 0 {
        Err(refused_view("invalidValue"@, "a displayName is required"@))
    } else {
        match members_in(raw.members) {
            Ok(members) => Ok((id->Ok_0, name, members)),
            Err(why) => Err(why),
        }
    }
}

/// A group, or why it is none. The id is the path's where there is one, and
/// the body need not agree: a group that came back under a new id is the same
/// group here, and insisting would turn a harmless repetition into a refusal
/// that repeats forever.
pub fn checked_group(raw: GroupIn, path: Option<&str>) -> (r: Result<CheckedGroup, Refused>)
    ensures
        ({
            let decided = group_in(
                raw,
                match path {
                    Some(path) => Some(path@),
                    None => None,
                },
            );
            match r {
                Ok(group) => decided == Ok::<_, RefusedView>(
                    (group.id@, group.name@, ids_seen(group.members)),
                ),
                Err(why) => decided == Err::<(Seq<char>, Seq<char>, Option<Seq<Seq<char>>>), _>(
                    why@,
                ),
            }
        }),
{
    let found = match path {
        Some(path) => path_id(path),
        None => {
            let given = if raw.external_id.is_some() {
                as_str(&raw.external_id)
            } else {
                as_str(&raw.id)
            };
            as_id(given, "externalId")
        },
    };
    let id = match found {
        Ok(id) => id,
        Err(why) => {
            return Err(why);
        },
    };
    let name = field(&raw.display_name);
    if name.as_str().is_empty() {
        return Err(refused("invalidValue", "a displayName is required"));
    }
    match checked_members(&raw.members) {
        Ok(members) => Ok(CheckedGroup { id, name, members }),
        Err(why) => Err(why),
    }
}

/// The id under which a new group is stored. UPSERT BY NAME, because the name
/// is what an account's groups hold and what `may_read` compares: a group that
/// comes back under a new id is the same group to everybody here.
pub fn holding_id(held: Option<String>, id: String) -> (r: String)
    ensures
        r@ == match held {
            Some(held) => held@,
            None => id@,
        },
{
    match held {
        Some(held) => held,
        None => id,
    }
}

/// Does another group hold the name already?
pub fn name_conflicts(held: &Option<String>, id: &str) -> (r: bool)
    ensures
        r == (held is Some && held->0@ != id@),
{
    match held {
        Some(held) => !same(held, id),
        None => false,
    }
}

/// A page that is asked for.
#[derive(Debug)]
pub struct Page {
    pub start_index: Option<i64>,
    pub count: Option<i64>,
    pub filter: Option<String>,
}

/// What is left after the start of a text, if it starts so.
pub open spec fn after(s: Seq<char>, start: Seq<char>) -> Option<Seq<char>> {
    if starts_with(s, start) {
        Some(s.skip(start.len() as int))
    } else {
        None
    }
}

/// What stands between two quotes, if no third stands between them.
pub open spec fn unwrapped(s: Seq<char>) -> Option<Seq<char>> {
    if s.len() >= 2 && s[0] == '"' && s.last() == '"' && !s.subrange(1, s.len() - 1).contains(
        '"',
    ) {
        Some(s.subrange(1, s.len() - 1))
    } else {
        None
    }
}

/// The value a filter asks for: `<attribute> eq "<value>"`, and no other
/// shape.
pub open spec fn filter_value(filter: Seq<char>, attribute: Seq<char>) -> Option<Seq<char>> {
    match after(trimmed(filter), attribute) {
        None => None,
        Some(rest) => match after(trim_start(rest), "eq"@) {
            None => None,
            Some(rest) => unwrapped(trim_start(rest)),
        },
    }
}

fn skip_white(s: &[char], from: usize, to: usize) -> (r: usize)
    requires
        from <= to <= s@.len(),
    ensures
        from <= r <= to,
        s@.subrange(r as int, to as int) == trim_start(s@.subrange(from as int, to as int)),
{
    let mut at: usize = from;
    while at < to && is_white(s[at])
        invariant
            from <= at <= to <= s@.len(),
            trim_start(s@.subrange(at as int, to as int)) == trim_start(
                s@.subrange(from as int, to as int),
            ),
        decreases to - at,
    {
        let ghost now = s@.subrange(at as int, to as int);
        assert(now[0] == s@[at as int]);
        assert(now.drop_first() == s@.subrange(at + 1, to as int));
        at += 1;
    }
    assert(at < to ==> s@.subrange(at as int, to as int)[0] == s@[at as int]);
    at
}

fn read_filter(filter: &str, attribute: &str) -> (r: Option<String>)
    ensures
        text_of(r) == filter_value(filter@, attribute@),
{
    let all = chars(filter);
    let name = chars(attribute);
    let eq = chars("eq");
    proof {
        reveal_strlit("eq");
    }
    let (from, to) = trim_bounds(&all);
    let ghost whole = trimmed(filter@);
    assert(all@.subrange(from as int, to as int) == whole);
    if !begins(&all[from..to], &name) {
        return None;
    }
    let named: usize = from + name.len();
    assert(whole.skip(name@.len() as int) == all@.subrange(named as int, to as int));
    let word: usize = skip_white(&all, named, to);
    let ghost rest = all@.subrange(word as int, to as int);
    if !begins(&all[word..to], &eq) {
        return None;
    }
    assert(rest.skip(2) == all@.subrange(word + 2, to as int));
    let value: usize = skip_white(&all, word + 2, to);
    let ghost quoted = all@.subrange(value as int, to as int);
    if to - value < 2 || all[value] != '"' || all[to - 1] != '"' {
        assert(quoted.len() >= 1 ==> quoted[0] == all@[value as int] && quoted.last() == all@[to
            - 1]);
        return None;
    }
    assert(quoted[0] == all@[value as int] && quoted.last() == all@[to - 1]);
    let ghost inner = quoted.subrange(1, quoted.len() - 1);
    assert(inner == all@.subrange(value + 1, to - 1));
    let mut i: usize = value + 1;
    while i < to - 1
        invariant
            value + 1 <= i <= to - 1 < all@.len(),
            inner == all@.subrange(value + 1, to - 1),
            forall|k: int| 0 <= k < i - value - 1 ==> (#[trigger] inner[k]) != '"',
            inner.contains('"') ==> filter_value(filter@, attribute@) is None,
        decreases to - i,
    {
        assert(inner[i - value - 1] == all@[i as int]);
        if all[i] == '"' {
            return None;
        }
        i += 1;
    }
    Some(slice_string(&all, value + 1, to - 1))
}

/// What is said of a filter that is not understood.
pub open spec fn not_that_filter(attribute: Seq<char>) -> RefusedView {
    refused_view(
        "invalidFilter"@,
        "the only filter here is `"@ + attribute + " eq \"\u{2026}\"`"@,
    )
}

impl Page {
    /// Where the page begins, counted from one.
    pub fn start(&self) -> (r: i64)
        ensures
            r == match self.start_index {
                Some(start) if start > 1 => start,
                _ => 1,
            },
    {
        match self.start_index {
            Some(start) if start > 1 => start,
            _ => 1,
        }
    }

    /// How much of it there is.
    pub fn count(&self) -> (r: i64)
        ensures
            r == match self.count {
                None => PER_PAGE,
                Some(count) => if count < 0 {
                    0
                } else if count > MOST_PER_PAGE {
                    MOST_PER_PAGE
                } else {
                    count
                },
            },
    {
        match self.count {
            None => PER_PAGE,
            Some(count) => if count < 0 {
                0
            } else if count > MOST_PER_PAGE {
                MOST_PER_PAGE
            } else {
                count
            },
        }
    }

    /// The one filter shape: `<attribute> eq "<value>"`.
    ///
    /// A filter that is not understood is REFUSED, never ignored. An ignored
    /// filter answers "everybody", and the client takes the first of that
    /// answer for the person it was looking for.
    pub fn equals(&self, attribute: &str) -> (r: Result<Option<String>, Refused>)
        ensures
            match r {
                Ok(None) => self.filter is None,
                Ok(Some(value)) => self.filter is Some && filter_value(
                    self.filter->0@,
                    attribute@,
                ) == Some(value@),
                Err(why) => self.filter is Some && filter_value(self.filter->0@, attribute@) is None
                    && why@ == not_that_filter(attribute@),
            },
    {
        match &self.filter {
            None => Ok(None),
            Some(filter) => match read_filter(filter, attribute) {
                Some(value) => Ok(Some(value)),
                None => {
                    let detail = "the only filter here is `".to_owned().concat(attribute).concat(
                        " eq \"\u{2026}\"`",
                    );
                    Err(Refused { scim_type: "invalidFilter", detail })
                },
            },
        }
    }
}

/// What is asked for in the one shape is found in it.
pub proof fn a_filter_finds_what_it_asks_for(attribute: Seq<char>, value: Seq<char>)
    requires
        attribute.len() > 0,
        !white(attribute[0]),
        !value.contains('"'),
    ensures
        filter_value(attribute + " eq \""@ + value + "\""@, attribute) == Some(value),
{
    reveal_strlit(" eq \"");
    reveal_strlit("\"");
    reveal_strlit("eq");
    let middle = " eq \""@;
    let filter = attribute + middle + value + "\""@;
    assert(filter[0] == attribute[0]);
    assert(filter.last() == '"');
    assert(!white('"'));
    assert(trimmed(filter) == filter);
    assert(filter.take(attribute.len() as int) == attribute);
    let rest = filter.skip(attribute.len() as int);
    assert(rest =~= middle + value + "\""@);
    assert(rest[0] == ' ' && rest[1] == 'e' && rest[2] == 'q' && rest[3] == ' ' && rest[4] == '"');
    let word = rest.drop_first();
    assert(word[0] == 'e');
    assert(!white('e'));
    assert(trim_start(rest) == trim_start(word));
    assert(trim_start(word) == word);
    assert(word.take(2) =~= "eq"@);
    let tail = word.skip(2);
    assert(tail[0] == ' ');
    let quoted = tail.drop_first();
    assert(quoted[0] == '"');
    assert(trim_start(tail) == trim_start(quoted));
    assert(trim_start(quoted) == quoted);
    assert(quoted =~= seq!['"'] + value + "\""@);
    assert(quoted.subrange(1, quoted.len() - 1) =~= value);
}

/// The member in a path of the shape `members[value eq "<id>"]`.
pub open spec fn path_member(path: Seq<char>) -> Option<Seq<char>> {
    match after(trimmed(path), "members[value eq \""@) {
        None => None,
        Some(rest) => if ends_with(rest, "\"]"@) {
            Some(rest.take(rest.len() - 2))
        } else {
            None
        },
    }
}

/// `members[value eq "<id>"]`: a shape that carries the member in the PATH and
/// no value at all.
pub fn member_in_path(path: &str) -> (r: Option<String>)
    ensures
        text_of(r) == path_member(path@),
{
    let all = chars(path);
    let open = chars("members[value eq \"");
    let close = chars("\"]");
    proof {
        reveal_strlit("\"]");
    }
    let (from, to) = trim_bounds(&all);
    let ghost whole = trimmed(path@);
    assert(all@.subrange(from as int, to as int) == whole);
    if !begins(&all[from..to], &open) {
        return None;
    }
    let start: usize = from + open.len();
    let ghost rest = whole.skip(open@.len() as int);
    assert(rest == all@.subrange(start as int, to as int));
    if !ends(&all[start..to], &close) {
        return None;
    }
    assert(rest.take(rest.len() - 2) == all@.subrange(start as int, to - 2));
    Some(slice_string(&all, start, to - 2))
}

/// One member change.
#[derive(Debug)]
pub struct Change {
    pub add: bool,
    pub subject: String,
}

pub struct ChangeView {
    pub add: bool,
    pub subject: Seq<char>,
}

impl View for Change {
    type V = ChangeView;

    open spec fn view(&self) -> ChangeView {
        ChangeView { add: self.add, subject: self.subject@ }
    }
}

pub open spec fn changes_view(changes: Seq<Change>) -> Seq<ChangeView> {
    Seq::new(changes.len(), |i: int| changes[i]@)
}

pub open spec fn changes_of(add: bool, ids: Seq<Seq<char>>) -> Seq<ChangeView> {
    Seq::new(ids.len(), |i: int| ChangeView { add, subject: ids[i] })
}

pub open spec fn unknown_operation() -> RefusedView {
    refused_view(
        "invalidPath"@,
        "only the three member operations are taken here: add on `members`, remove on `members`, remove on `members[value eq \"\u{2026}\"]`"@,
    )
}

fn unknown() -> (r: Refused)
    ensures
        r@ == unknown_operation(),
{
    refused(
        "invalidPath",
        "only the three member operations are taken here: add on `members`, remove on `members`, remove on `members[value eq \"\u{2026}\"]`",
    )
}

/// The changes a list of members stands for.
pub open spec fn listed_changes(
    add: bool,
    value: Option<Result<Vec<MemberIn>, String>>,
) -> Result<Seq<ChangeView>, RefusedView> {
    match value {
        None => Err(refused_view("invalidValue"@, "this operation needs a value"@)),
        Some(Err(why)) => Err(
            refused_view("invalidValue"@, "not a list of members: "@ + why@),
        ),
        Some(Ok(members)) => if members@.len() == 0 {
            Err(refused_view("invalidValue"@, "no member in the value"@))
        } else {
            match member_ids(members@) {
                Ok(ids) => Ok(changes_of(add, ids)),
                Err(why) => Err(why),
            }
        },
    }
}

/// The kind of an operation.
pub open spec fn operation_kind(op: Option<String>) -> Seq<char> {
    ascii_lower(field_text(text_of(op)))
}

/// The path of an operation.
pub open spec fn operation_path(path: Option<String>) -> Seq<char> {
    match path {
        Some(path) => path@,
        None => Seq::empty(),
    }
}

/// What an operation means. Three shapes exist and no more: add on `members`,
/// remove on `members`, and remove of the member in the path.
pub open spec fn operation_in(op: OperationIn) -> Result<Seq<ChangeView>, RefusedView> {
    let kind = operation_kind(op.op);
    let path = operation_path(op.path);
    match path_member(path) {
        Some(one) => if kind != "remove"@ {
            Err(unknown_operation())
        } else if op.value is Some {
            Err(refused_view("invalidValue"@, "a remove by filter carries no value"@))
        } else {
            match id_in(Some(one), "member"@) {
                Ok(id) => Ok(seq![ChangeView { add: false, subject: id }]),
                Err(why) => Err(why),
            }
        },
        None => if trimmed(path) != "members"@ {
            Err(unknown_operation())
        } else if kind == "add"@ {
            listed_changes(true, op.value)
        } else if kind == "remove"@ {
            listed_changes(false, op.value)
        } else {
            Err(unknown_operation())
        },
    }
}

fn list_changes(add: bool, value: &Option<Result<Vec<MemberIn>, String>>) -> (r: Result<
    Vec<Change>,
    Refused,
>)
    ensures
        match r {
            Ok(changes) => listed_changes(add, *value) == Ok::<_, RefusedView>(
                changes_view(changes@),
            ),
            Err(why) => listed_changes(add, *value) == Err::<Seq<ChangeView>, _>(why@),
        },
{
    let members = match value {
        None => {
            return Err(refused("invalidValue", "this operation needs a value"));
        },
        Some(Err(why)) => {
            let detail = "not a list of members: ".to_owned().concat(why);
            return Err(Refused { scim_type: "invalidValue", detail });
        },
        Some(Ok(members)) => members,
    };
    if members.len() == 0 {
        return Err(refused("invalidValue", "no member in the value"));
    }
    let ids = match ids_of(members) {
        Ok(ids) => ids,
        Err(why) => {
            return Err(why);
        },
    };
    let mut out: Vec<Change> = Vec::new();
    let mut i: usize = 0;
    while i < ids.len()
        invariant
            i <= ids@.len(),
            out@.len() == i,
            forall|k: int|
                0 <= k < i ==> (#[trigger] out@[k])@ == (ChangeView { add, subject: ids@[k]@ }),
        decreases ids@.len() - i,
    {
        out.push(Change { add, subject: ids[i].clone() });
        i += 1;
    }
    assert(changes_view(out@) =~= changes_of(add, texts(ids@)));
    Ok(out)
}

/// What an operation means.
pub fn checked_operation(op: &OperationIn) -> (r: Result<Vec<Change>, Refused>)
    ensures
        match r {
            Ok(changes) => operation_in(*op) == Ok::<_, RefusedView>(changes_view(changes@)),
            Err(why) => operation_in(*op) == Err::<Seq<ChangeView>, _>(why@),
        },
{
    let kind = to_ascii_lower(&chars(&field(&op.op)));
    let path = match &op.path {
        Some(path) => path.clone(),
        None => String::new(),
    };
    match member_in_path(&path) {
        Some(one) => {
            if !same(&kind, "remove") {
                return Err(unknown());
            }
            if op.value.is_some() {
                return Err(refused("invalidValue", "a remove by filter carries no value"));
            }
            match as_id(Some(one.as_str()), "member") {
                Ok(id) => {
                    let changes: Vec<Change> = vec![Change { add: false, subject: id }];
                    assert(changes_view(changes@) =~= seq![
                        ChangeView { add: false, subject: changes@[0].subject@ },
                    ]);
                    Ok(changes)
                },
                Err(why) => Err(why),
            }
        },
        None => {
            if !same(&trim(&path), "members") {
                return Err(unknown());
            }
            if same(&kind, "add") {
                list_changes(true, &op.value)
            } else if same(&kind, "remove") {
                list_changes(false, &op.value)
            } else {
                Err(unknown())
            }
        },
    }
}

/// What all operations mean, or the first refusal.
pub open spec fn operations_in(operations: Seq<OperationIn>) -> Result<Seq<ChangeView>, RefusedView>
    decreases operations.len(),
{
    if operations.len() == 0 {
        Ok(Seq::empty())
    } else {
        match operations_in(operations.drop_last()) {
            Err(why) => Err(why),
            Ok(before) => match operation_in(operations.last()) {
                Err(why) => Err(why),
                Ok(more) => Ok(before + more),
            },
        }
    }
}

/// What a change of a group asks for.
pub open spec fn patch_in(patch: PatchIn) -> Result<Seq<ChangeView>, RefusedView> {
    match patch.operations {
        None => Err(refused_view("invalidValue"@, "no operation in the request"@)),
        Some(operations) => if operations@.len() == 0 {
            Err(refused_view("invalidValue"@, "no operation in the request"@))
        } else {
            operations_in(operations@)
        },
    }
}

proof fn an_operation_refused_stays(operations: Seq<OperationIn>, n: int)
    requires
        0 <= n <= operations.len(),
        operations_in(operations.take(n)) is Err,
    ensures
        operations_in(operations) == operations_in(operations.take(n)),
    decreases operations.len() - n,
{
    if n < operations.len() {
        assert(operations.take(n + 1).drop_last() == operations.take(n));
        an_operation_refused_stays(operations, n + 1);
    } else {
        assert(operations.take(n) == operations);
    }
}

/// THE WHOLE REQUEST OR NONE OF IT. Every operation is understood before the
/// first one is applied: a request that was half applied and then refused
/// would leave a membership nobody asked for, and the client, having seen the
/// refusal, would never come back to correct it.
pub fn patch_group(patch: &PatchIn) -> (r: Result<Vec<Change>, Refused>)
    ensures
        match r {
            Ok(changes) => patch_in(*patch) == Ok::<_, RefusedView>(changes_view(changes@)),
            Err(why) => patch_in(*patch) == Err::<Seq<ChangeView>, _>(why@),
        },
{
    let operations = match &patch.operations {
        Some(operations) => operations,
        None => {
            return Err(refused("invalidValue", "no operation in the request"));
        },
    };
    if operations.len() == 0 {
        return Err(refused("invalidValue", "no operation in the request"));
    }
    all_operations(operations)
}

fn all_operations(operations: &Vec<OperationIn>) -> (r: Result<Vec<Change>, Refused>)
    ensures
        match r {
            Ok(changes) => operations_in(operations@) == Ok::<_, RefusedView>(
                changes_view(changes@),
            ),
            Err(why) => operations_in(operations@) == Err::<Seq<ChangeView>, _>(why@),
        },
{
    let mut out: Vec<Change> = Vec::new();
    let mut i: usize = 0;
    assert(changes_view(out@) =~= Seq::empty());
    assert(operations@.take(0).len() == 0);
    while i < operations.len()
        invariant
            i <= operations@.len(),
            operations_in(operations@.take(i as int)) == Ok::<_, RefusedView>(
                changes_view(out@),
            ),
        decreases operations@.len() - i,
    {
        let ghost before = changes_view(out@);
        assert(operations@.take(i + 1).drop_last() == operations@.take(i as int));
        assert(operations@.take(i + 1).last() == operations@[i as int]);
        match checked_operation(&operations[i]) {
            Ok(more) => {
                let mut more = more;
                let ghost added = changes_view(more@);
                out.append(&mut more);
                assert(changes_view(out@) =~= before + added);
            },
            Err(why) => {
                proof {
                    an_operation_refused_stays(operations@, i + 1);
                }
                return Err(why);
            },
        }
        i += 1;
    }
    assert(operations@.take(i as int) == operations@);
    Ok(out)
}

/// If one operation of a request is refused, the request is: nothing of it is
/// applied.
pub proof fn the_whole_request_or_none_of_it(operations: Seq<OperationIn>, k: int)
    requires
        0 <= k < operations.len(),
        operation_in(operations[k]) is Err,
    ensures
        operations_in(operations) is Err,
    decreases operations.len(),
{
    if k < operations.len() - 1 {
        assert(operations.drop_last()[k] == operations[k]);
        the_whole_request_or_none_of_it(operations.drop_last(), k);
    }
}

/// Whom the changes add, or take out.
pub open spec fn subjects_of(changes: Seq<ChangeView>, add: bool) -> Seq<Seq<char>>
    decreases changes.len(),
{
    if changes.len() == 0 {
        Seq::empty()
    } else {
        let before = subjects_of(changes.drop_last(), add);
        if changes.last().add == add {
            before.push(changes.last().subject)
        } else {
            before
        }
    }
}

/// Whom the changes add, or take out.
pub fn collected(changes: &[Change], add: bool) -> (r: Vec<String>)
    ensures
        texts(r@) == subjects_of(changes_view(changes@), add),
{
    let ghost all = changes_view(changes@);
    let mut out: Vec<String> = Vec::new();
    let mut i: usize = 0;
    assert(texts(out@) =~= subjects_of(all.take(0), add));
    while i < changes.len()
        invariant
            i <= changes@.len(),
            all == changes_view(changes@),
            texts(out@) == subjects_of(all.take(i as int), add),
        decreases changes@.len() - i,
    {
        assert(all.take(i + 1).drop_last() == all.take(i as int));
        assert(all.take(i + 1).last() == changes@[i as int]@);
        if changes[i].add == add {
            let ghost before = texts(out@);
            out.push(changes[i].subject.clone());
            assert(texts(out@) =~= before.push(changes@[i as int]@.subject));
        }
        i += 1;
    }
    assert(all.take(i as int) == all);
    out
}

fn text_entry(key: &str, value: &str) -> (r: (String, Tree))
    ensures
        r.0@ == key@,
        r.1@ == TreeView::Text(value@),
{
    (key.to_owned(), Tree::Text(value.to_owned()))
}

fn flag_entry(key: &str, value: bool) -> (r: (String, Tree))
    ensures
        r.0@ == key@,
        r.1@ == TreeView::Bool(value),
{
    (key.to_owned(), Tree::Bool(value))
}

fn number_entry(key: &str, value: i64) -> (r: (String, Tree))
    ensures
        r.0@ == key@,
        r.1@ == TreeView::Integer(value),
{
    (key.to_owned(), Tree::Integer(value))
}

/// The schemas of a resource: one.
pub open spec fn schemas_view(schema: Seq<char>) -> (Seq<char>, TreeView) {
    ("schemas"@, TreeView::List(seq![TreeView::Text(schema)]))
}

fn schemas(schema: &str) -> (r: (String, Tree))
    ensures
        (r.0@, r.1@) == schemas_view(schema@),
{
    let list: Vec<Tree> = vec![Tree::Text(schema.to_owned())];
    proof {
        list_view(list);
        assert(items_view(list@) =~= seq![TreeView::Text(schema@)]);
    }
    ("schemas".to_owned(), Tree::List(list))
}

/// Where a resource is.
pub open spec fn meta_view(kind: Seq<char>, place: Seq<char>) -> (Seq<char>, TreeView) {
    (
        "meta"@,
        TreeView::Table(
            seq![
                ("resourceType"@, TreeView::Text(kind)),
                ("location"@, TreeView::Text(place)),
            ],
        ),
    )
}

fn meta(kind: &str, place: &str) -> (r: (String, Tree))
    ensures
        (r.0@, r.1@) == meta_view(kind@, place@),
{
    let fields: Vec<(String, Tree)> = vec![
        text_entry("resourceType", kind),
        text_entry("location", place),
    ];
    proof {
        table_view(fields);
        assert(entries_view(fields@) =~= meta_view(kind@, place@).1->Table_0);
    }
    ("meta".to_owned(), Tree::Table(fields))
}

/// The addresses of a person, as they go out.
pub open spec fn emails_view(email: Seq<char>) -> (Seq<char>, TreeView) {
    (
        "emails"@,
        TreeView::List(
            seq![
                TreeView::Table(
                    seq![
                        ("value"@, TreeView::Text(email)),
                        ("type"@, TreeView::Text("other"@)),
                        ("primary"@, TreeView::Bool(true)),
                    ],
                ),
            ],
        ),
    )
}

fn emails_entry(email: &str) -> (r: (String, Tree))
    ensures
        (r.0@, r.1@) == emails_view(email@),
{
    let fields: Vec<(String, Tree)> = vec![
        text_entry("value", email),
        text_entry("type", "other"),
        flag_entry("primary", true),
    ];
    let ghost wanted = seq![
        ("value"@, TreeView::Text(email@)),
        ("type"@, TreeView::Text("other"@)),
        ("primary"@, TreeView::Bool(true)),
    ];
    proof {
        table_view(fields);
        assert(entries_view(fields@) =~= wanted);
    }
    let list: Vec<Tree> = vec![Tree::Table(fields)];
    proof {
        list_view(list);
        assert(items_view(list@) =~= seq![TreeView::Table(wanted)]);
    }
    ("emails".to_owned(), Tree::List(list))
}

/// A person, as they go out. An address only when there is one: an empty text
/// is none.
pub open spec fn user_tree(user: UserView) -> TreeView {
    let fields = seq![
        schemas_view("urn:ietf:params:scim:schemas:core:2.0:User"@),
        ("id"@, TreeView::Text(user.id)),
        ("externalId"@, TreeView::Text(user.id)),
        ("userName"@, TreeView::Text(user.user_name)),
        ("displayName"@, TreeView::Text(user.display_name)),
        ("active"@, TreeView::Bool(user.active)),
        meta_view("User"@, USERS@ + "/"@ + user.id),
    ];
    TreeView::Table(
        match user.email {
            Some(email) => fields.push(emails_view(email)),
            None => fields,
        },
    )
}

pub fn user_resource(user: &User) -> (r: Tree)
    ensures
        r@ == user_tree(user@),
{
    let place = USERS.to_owned().concat("/").concat(&user.id);
    let mut fields: Vec<(String, Tree)> = vec![
        schemas("urn:ietf:params:scim:schemas:core:2.0:User"),
        text_entry("id", &user.id),
        text_entry("externalId", &user.id),
        text_entry("userName", &user.user_name),
        text_entry("displayName", &user.display_name),
        flag_entry("active", user.active),
        meta("User", &place),
    ];
    match &user.email {
        Some(email) => {
            fields.push(emails_entry(email));
        },
        None => {},
    }
    proof {
        table_view(fields);
        assert(entries_view(fields@) =~= user_tree(user@)->Table_0);
    }
    Tree::Table(fields)
}

pub open spec fn member_tree(member: Seq<char>) -> TreeView {
    TreeView::Table(
        seq![("value"@, TreeView::Text(member)), ("type"@, TreeView::Text("User"@))],
    )
}

/// A group, as it goes out.
pub open spec fn group_tree(group: GroupView) -> TreeView {
    TreeView::Table(
        seq![
            schemas_view("urn:ietf:params:scim:schemas:core:2.0:Group"@),
            ("id"@, TreeView::Text(group.id)),
            ("externalId"@, TreeView::Text(group.id)),
            ("displayName"@, TreeView::Text(group.name)),
            (
                "members"@,
                TreeView::List(
                    Seq::new(group.members.len(), |i: int| member_tree(group.members[i])),
                ),
            ),
            meta_view("Group"@, GROUPS@ + "/"@ + group.id),
        ],
    )
}

fn member_resource(member: &str) -> (r: Tree)
    ensures
        r@ == member_tree(member@),
{
    let fields: Vec<(String, Tree)> = vec![
        text_entry("value", member),
        text_entry("type", "User"),
    ];
    proof {
        table_view(fields);
        assert(entries_view(fields@) =~= member_tree(member@)->Table_0);
    }
    Tree::Table(fields)
}

pub fn group_resource(group: &Group) -> (r: Tree)
    ensures
        r@ == group_tree(group@),
{
    let ghost ids = texts(group.members@);
    let mut members: Vec<Tree> = Vec::new();
    let mut i: usize = 0;
    while i < group.members.len()
        invariant
            i <= group.members@.len(),
            ids == texts(group.members@),
            members@.len() == i,
            forall|k: int| 0 <= k < i ==> (#[trigger] members@[k])@ == member_tree(ids[k]),
        decreases group.members@.len() - i,
    {
        assert(ids[i as int] == group.members@[i as int]@);
        members.push(member_resource(&group.members[i]));
        i += 1;
    }
    proof {
        list_view(members);
        assert(items_view(members@) =~= Seq::new(ids.len(), |i: int| member_tree(ids[i])));
    }
    let place = GROUPS.to_owned().concat("/").concat(&group.id);
    let fields: Vec<(String, Tree)> = vec![
        schemas("urn:ietf:params:scim:schemas:core:2.0:Group"),
        text_entry("id", &group.id),
        text_entry("externalId", &group.id),
        text_entry("displayName", &group.name),
        ("members".to_owned(), Tree::List(members)),
        meta("Group", &place),
    ];
    proof {
        table_view(fields);
        assert(entries_view(fields@) =~= group_tree(group@)->Table_0);
    }
    Tree::Table(fields)
}

/// A page of resources.
pub open spec fn list_tree(total: i64, start: i64, resources: Seq<TreeView>) -> TreeView {
    TreeView::Table(
        seq![
            schemas_view("urn:ietf:params:scim:api:messages:2.0:ListResponse"@),
            ("totalResults"@, TreeView::Integer(total)),
            ("startIndex"@, TreeView::Integer(start)),
            ("itemsPerPage"@, TreeView::Integer(resources.len() as i64)),
            ("Resources"@, TreeView::List(resources)),
        ],
    )
}

pub fn list_resource(total: i64, start: i64, resources: Vec<Tree>) -> (r: Tree)
    ensures
        r@ == list_tree(total, start, items_view(resources@)),
{
    let count: i64 = resources.len() as i64;
    proof {
        list_view(resources);
    }
    let ghost held = items_view(resources@);
    let fields: Vec<(String, Tree)> = vec![
        schemas("urn:ietf:params:scim:api:messages:2.0:ListResponse"),
        number_entry("totalResults", total),
        number_entry("startIndex", start),
        number_entry("itemsPerPage", count),
        ("Resources".to_owned(), Tree::List(resources)),
    ];
    proof {
        table_view(fields);
        assert(entries_view(fields@) =~= list_tree(total, start, held)->Table_0);
    }
    Tree::Table(fields)
}

/// A refusal, as it goes out.
pub open spec fn refusal_tree(
    status: u16,
    scim_type: Option<Seq<char>>,
    detail: Seq<char>,
) -> TreeView {
    let fields = seq![
        schemas_view("urn:ietf:params:scim:api:messages:2.0:Error"@),
        ("status"@, TreeView::Text(decimal_text(status as int))),
        ("detail"@, TreeView::Text(detail)),
    ];
    TreeView::Table(
        match scim_type {
            Some(kind) => fields.push(("scimType"@, TreeView::Text(kind))),
            None => fields,
        },
    )
}

pub fn refusal(status: u16, scim_type: Option<&str>, detail: &str) -> (r: Tree)
    ensures
        r@ == refusal_tree(
            status,
            match scim_type {
                Some(kind) => Some(kind@),
                None => None,
            },
            detail@,
        ),
{
    let code = decimal(status as i64);
    let mut fields: Vec<(String, Tree)> = vec![
        schemas("urn:ietf:params:scim:api:messages:2.0:Error"),
        text_entry("status", &code),
        text_entry("detail", detail),
    ];
    match scim_type {
        Some(kind) => {
            fields.push(text_entry("scimType", kind));
        },
        None => {},
    }
    let ghost given = match scim_type {
        Some(kind) => Some(kind@),
        None => None,
    };
    proof {
        table_view(fields);
        assert(entries_view(fields@) =~= refusal_tree(status, given, detail@)->Table_0);
    }
    Tree::Table(fields)
}

/// What can be done here, feature by feature.
pub open spec fn feature_view(name: Seq<char>, on: bool) -> (Seq<char>, TreeView) {
    (name, TreeView::Table(seq![("supported"@, TreeView::Bool(on))]))
}

fn feature(name: &str, on: bool) -> (r: (String, Tree))
    ensures
        (r.0@, r.1@) == feature_view(name@, on),
{
    let fields: Vec<(String, Tree)> = vec![flag_entry("supported", on)];
    proof {
        table_view(fields);
        assert(entries_view(fields@) =~= feature_view(name@, on).1->Table_0);
    }
    (name.to_owned(), Tree::Table(fields))
}

pub open spec fn bulk_view() -> (Seq<char>, TreeView) {
    (
        "bulk"@,
        TreeView::Table(
            seq![
                ("supported"@, TreeView::Bool(false)),
                ("maxOperations"@, TreeView::Integer(0)),
                ("maxPayloadSize"@, TreeView::Integer(0)),
            ],
        ),
    )
}

fn bulk() -> (r: (String, Tree))
    ensures
        (r.0@, r.1@) == bulk_view(),
{
    let fields: Vec<(String, Tree)> = vec![
        flag_entry("supported", false),
        number_entry("maxOperations", 0),
        number_entry("maxPayloadSize", 0),
    ];
    proof {
        table_view(fields);
        assert(entries_view(fields@) =~= bulk_view().1->Table_0);
    }
    ("bulk".to_owned(), Tree::Table(fields))
}

pub open spec fn filter_view() -> (Seq<char>, TreeView) {
    (
        "filter"@,
        TreeView::Table(
            seq![
                ("supported"@, TreeView::Bool(true)),
                ("maxResults"@, TreeView::Integer(MOST_PER_PAGE)),
            ],
        ),
    )
}

fn filter() -> (r: (String, Tree))
    ensures
        (r.0@, r.1@) == filter_view(),
{
    let fields: Vec<(String, Tree)> = vec![
        flag_entry("supported", true),
        number_entry("maxResults", MOST_PER_PAGE),
    ];
    proof {
        table_view(fields);
        assert(entries_view(fields@) =~= filter_view().1->Table_0);
    }
    ("filter".to_owned(), Tree::Table(fields))
}

pub open spec fn scheme_view() -> TreeView {
    TreeView::Table(
        seq![
            ("type"@, TreeView::Text("oauthbearertoken"@)),
            ("name"@, TreeView::Text("OAuth Bearer Token"@)),
            (
                "description"@,
                TreeView::Text(
                    "Authentication with a bearer token, over the internal listener"@,
                ),
            ),
            ("specUri"@, TreeView::Text("https://www.rfc-editor.org/info/rfc6750"@)),
            ("primary"@, TreeView::Bool(true)),
        ],
    )
}

fn scheme() -> (r: Tree)
    ensures
        r@ == scheme_view(),
{
    let fields: Vec<(String, Tree)> = vec![
        text_entry("type", "oauthbearertoken"),
        text_entry("name", "OAuth Bearer Token"),
        text_entry(
            "description",
            "Authentication with a bearer token, over the internal listener",
        ),
        text_entry("specUri", "https://www.rfc-editor.org/info/rfc6750"),
        flag_entry("primary", true),
    ];
    proof {
        table_view(fields);
        assert(entries_view(fields@) =~= scheme_view()->Table_0);
    }
    Tree::Table(fields)
}

/// What this door can do. Groups arrive whole, and no operation is put off to
/// another request: that is the only way the operations of one change can be
/// applied together.
pub open spec fn provider_tree() -> TreeView {
    TreeView::Table(
        seq![
            schemas_view("urn:ietf:params:scim:schemas:core:2.0:ServiceProviderConfig"@),
            (
                "documentationUri"@,
                TreeView::Text("https://github.com/achimcc/treff"@),
            ),
            feature_view("patch"@, false),
            bulk_view(),
            filter_view(),
            feature_view("changePassword"@, false),
            feature_view("sort"@, false),
            feature_view("etag"@, false),
            ("authenticationSchemes"@, TreeView::List(seq![scheme_view()])),
            meta_view("ServiceProviderConfig"@, SERVICE_PROVIDER_CONFIG@),
        ],
    )
}

/// What this door can do, and, through the client's own logic, what it will be
/// sent afterwards.
pub fn service_provider_config() -> (r: Tree)
    ensures
        r@ == provider_tree(),
{
    let schemes: Vec<Tree> = vec![scheme()];
    proof {
        list_view(schemes);
        assert(items_view(schemes@) =~= seq![scheme_view()]);
    }
    let fields: Vec<(String, Tree)> = vec![
        schemas("urn:ietf:params:scim:schemas:core:2.0:ServiceProviderConfig"),
        text_entry("documentationUri", "https://github.com/achimcc/treff"),
        feature("patch", false),
        bulk(),
        filter(),
        feature("changePassword", false),
        feature("sort", false),
        feature("etag", false),
        ("authenticationSchemes".to_owned(), Tree::List(schemes)),
        meta("ServiceProviderConfig", SERVICE_PROVIDER_CONFIG),
    ];
    proof {
        table_view(fields);
        assert(entries_view(fields@) =~= provider_tree()->Table_0);
    }
    Tree::Table(fields)
}

} // verus!
