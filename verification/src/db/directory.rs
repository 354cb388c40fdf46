//! The directory: people and groups as the identity provider pushes them.
//!
//! It decides the rows everything else already reads, accounts with handle,
//! address and groups, so mentions, the `@` list, mail and `may_read` need no
//! second source. A sign-in writes the same row; whoever writes last wins, and
//! both write the same thing.
use crate::auth::{checked_handle, handle_of};
use crate::authz::{listed, shares_group};
use crate::db::inbox::{all_but, all_but_one, everybody_but};
use crate::order::{
    arrange, arranged, comes_before, each_once, first_of_each, once_each, page_of, paged, sorted,
    sorted_texts, sorting_keeps, text_before,
};
use crate::text::{chars, copied, same, text_of, texts};
use vstd::prelude::*;

verus! {

/// A person as the provider describes them.
#[derive(Debug, Clone, PartialEq, Eq)]
pub struct User {
    /// The id there, which is the `sub` a sign-in carries (the user's UUID).
    pub id: String,
    pub user_name: String,
    pub display_name: String,
    pub email: Option<String>,
    pub active: bool,
}

pub struct UserView {
    pub id: Seq<char>,
    pub user_name: Seq<char>,
    pub display_name: Seq<char>,
    pub email: Option<Seq<char>>,
    pub active: bool,
}

impl View for User {
    type V = UserView;

    open spec fn view(&self) -> UserView {
        UserView {
            id: self.id@,
            user_name: self.user_name@,
            display_name: self.display_name@,
            email: text_of(self.email),
            active: self.active,
        }
    }
}

#[derive(Debug, Clone, PartialEq, Eq)]
pub struct Group {
    pub id: String,
    pub name: String,
    /// Subjects, sorted.
    pub members: Vec<String>,
}

pub struct GroupView {
    pub id: Seq<char>,
    pub name: Seq<char>,
    pub members: Seq<Seq<char>>,
}

impl View for Group {
    type V = GroupView;

    open spec fn view(&self) -> GroupView {
        GroupView { id: self.id@, name: self.name@, members: texts(self.members@) }
    }
}

/// What is written down about a person.
#[derive(Debug)]
pub struct Account {
    pub subject: String,
    pub name: String,
    pub email: Option<String>,
    pub handle: Option<String>,
    pub groups: Vec<String>,
    pub user_name: String,
    pub active: bool,
}

pub struct AccountView {
    pub subject: Seq<char>,
    pub name: Seq<char>,
    pub email: Option<Seq<char>>,
    pub handle: Option<Seq<char>>,
    pub groups: Seq<Seq<char>>,
    pub user_name: Seq<char>,
    pub active: bool,
}

impl View for Account {
    type V = AccountView;

    open spec fn view(&self) -> AccountView {
        AccountView {
            subject: self.subject@,
            name: self.name@,
            email: text_of(self.email),
            handle: text_of(self.handle),
            groups: texts(self.groups@),
            user_name: self.user_name@,
            active: self.active,
        }
    }
}

/// The names of the groups this person reads through: all they are a member
/// of, in order, and none for somebody inactive.
pub open spec fn reading_groups(active: bool, memberships: Seq<Seq<char>>) -> Seq<Seq<char>> {
    if active {
        sorted_texts(memberships)
    } else {
        Seq::empty()
    }
}

/// The one place that turns the directory into what `may_read` reads. An
/// inactive person reads nothing.
fn read_through(active: bool, memberships: &[String]) -> (r: Vec<String>)
    ensures
        texts(r@) == reading_groups(active, texts(memberships@)),
{
    if active {
        sorted(copied(memberships))
    } else {
        let none: Vec<String> = Vec::new();
        assert(texts(none@) == Seq::<Seq<char>>::empty());
        none
    }
}

/// Who holds a handle.
#[derive(Debug)]
pub struct Holder {
    pub subject: String,
    pub handle: String,
}

/// Does somebody else hold this handle?
pub open spec fn held_by_another(
    holders: Seq<Holder>,
    handle: Seq<char>,
    subject: Seq<char>,
) -> bool {
    exists|i: int|
        0 <= i < holders.len() && (#[trigger] holders[i]).handle@ == handle
            && holders[i].subject@ != subject
}

fn taken(holders: &[Holder], handle: &str, subject: &str) -> (r: bool)
    ensures
        r == held_by_another(holders@, handle@, subject@),
{
    let mut i: usize = 0;
    while i < holders.len()
        invariant
            i <= holders@.len(),
            forall|k: int|
                0 <= k < i ==> !((#[trigger] holders@[k]).handle@ == handle@
                    && holders@[k].subject@ != subject@),
        decreases holders@.len() - i,
    {
        if same(&holders[i].handle, handle) && !same(&holders[i].subject, subject) {
            return true;
        }
        i += 1;
    }
    false
}

/// The handle a person gets: the one they would have, unless somebody else
/// holds it.
pub open spec fn handle_kept(
    wanted: Option<Seq<char>>,
    holders: Seq<Holder>,
    subject: Seq<char>,
) -> Option<Seq<char>> {
    if wanted is Some && held_by_another(holders, wanted->0, subject) {
        None
    } else {
        wanted
    }
}

/// The rule of a sign-in and of the directory alike: a handle is given if
/// nobody else holds it.
pub fn free_handle(wanted: Option<String>, holders: &[Holder], subject: &str) -> (r: Option<String>)
    ensures
        text_of(r) == handle_kept(text_of(wanted), holders@, subject@),
{
    match wanted {
        Some(handle) => if taken(holders, &handle, subject) {
            None
        } else {
            Some(handle)
        },
        None => None,
    }
}

/// The row of a person.
pub open spec fn account_of(
    user: UserView,
    holders: Seq<Holder>,
    memberships: Seq<Seq<char>>,
) -> AccountView {
    AccountView {
        subject: user.id,
        name: user.display_name,
        email: if user.active {
            user.email
        } else {
            None
        },
        handle: if user.active {
            handle_kept(handle_of(user.user_name), holders, user.id)
        } else {
            None
        },
        groups: reading_groups(user.active, memberships),
        user_name: user.user_name,
        active: user.active,
    }
}

/// Creates or replaces a person.
///
/// The handle is the user name through `auth::checked_handle`, and only if
/// nobody else holds it: the rule a sign-in follows. Inactive: no handle, no
/// address, no groups; the row and its name stay.
pub fn put_user(user: &User, holders: &[Holder], memberships: &[String]) -> (r: Account)
    ensures
        r@ == account_of(user@, holders@, texts(memberships@)),
{
    let handle: Option<String> = if user.active {
        free_handle(checked_handle(&user.user_name), holders, &user.id)
    } else {
        None
    };
    let email: Option<String> = if user.active {
        match &user.email {
            Some(email) => Some(email.clone()),
            None => None,
        }
    } else {
        None
    };
    Account {
        subject: user.id.clone(),
        name: user.display_name.clone(),
        email,
        handle,
        groups: read_through(user.active, memberships),
        user_name: user.user_name.clone(),
        active: user.active,
    }
}

/// Somebody inactive reads nothing, whatever the groups and whatever the
/// space: no handle, no address, no rights.
pub proof fn the_inactive_read_nothing(
    user: UserView,
    holders: Seq<Holder>,
    memberships: Seq<Seq<char>>,
    allowed: Seq<Seq<char>>,
)
    requires
        !user.active,
    ensures
        ({
            let row = account_of(user, holders, memberships);
            &&& row.handle is None
            &&& row.email is None
            &&& !shares_group(row.groups, allowed)
            &&& row.name == user.display_name
        }),
{
}

/// A handle has one holder, whether it comes with a sign-in or out of the
/// directory: what is given is held by nobody else.
pub proof fn a_handle_has_one_holder(
    user: UserView,
    holders: Seq<Holder>,
    memberships: Seq<Seq<char>>,
    wanted: Option<Seq<char>>,
)
    ensures
        ({
            let row = account_of(user, holders, memberships);
            row.handle is Some ==> !held_by_another(holders, row.handle->0, user.id)
                && row.handle == handle_of(user.user_name)
        }),
        ({
            let kept = handle_kept(wanted, holders, user.id);
            kept is Some ==> !held_by_another(holders, kept->0, user.id) && kept == wanted
        }),
{
}

/// An active person reads through the groups they are a member of, and
/// through no other.
pub proof fn groups_are_the_memberships(memberships: Seq<Seq<char>>, group: Seq<char>)
    ensures
        reading_groups(true, memberships).contains(group) == memberships.contains(group),
{
    sorting_keeps(memberships, group);
}

/// Members, once each and in order.
pub open spec fn as_members(subjects: Seq<Seq<char>>) -> Seq<Seq<char>> {
    once_each(sorted_texts(subjects))
}

fn members(subjects: Vec<String>) -> (r: Vec<String>)
    ensures
        texts(r@) == as_members(texts(subjects@)),
{
    let ordered = sorted(subjects);
    first_of_each(&ordered)
}

proof fn members_are(subjects: Seq<Seq<char>>, x: Seq<char>)
    ensures
        as_members(subjects).contains(x) == subjects.contains(x),
        as_members(subjects).no_duplicates(),
{
    sorting_keeps(subjects, x);
    each_once(sorted_texts(subjects));
    assert(sorted_texts(subjects).contains(x) == subjects.contains(x));
}

/// The members of a group after a write: those given, or those there were.
pub open spec fn members_after(before: Seq<Seq<char>>, given: Option<Seq<Seq<char>>>) -> Seq<
    Seq<char>,
> {
    match given {
        Some(given) => as_members(given),
        None => before,
    }
}

/// An account, as far as what it reads through goes.
#[derive(Debug)]
pub struct Reader {
    pub subject: String,
    pub active: bool,
    pub groups: Vec<String>,
}

pub struct ReaderView {
    pub subject: Seq<char>,
    pub active: bool,
    pub groups: Seq<Seq<char>>,
}

impl View for Reader {
    type V = ReaderView;

    open spec fn view(&self) -> ReaderView {
        ReaderView { subject: self.subject@, active: self.active, groups: texts(self.groups@) }
    }
}

pub open spec fn readers_view(list: Seq<Reader>) -> Seq<ReaderView> {
    Seq::new(list.len(), |i: int| list[i]@)
}

pub open spec fn groups_view(list: Seq<Group>) -> Seq<GroupView> {
    Seq::new(list.len(), |i: int| list[i]@)
}

/// The names of the groups somebody is a member of.
pub open spec fn memberships_of(groups: Seq<GroupView>, subject: Seq<char>) -> Seq<Seq<char>>
    decreases groups.len(),
{
    if groups.len() == 0 {
        Seq::empty()
    } else {
        let before = memberships_of(groups.drop_last(), subject);
        if groups.last().members.contains(subject) {
            before.push(groups.last().name)
        } else {
            before
        }
    }
}

/// The account as the directory would have it.
pub open spec fn settled(reader: ReaderView, groups: Seq<GroupView>) -> ReaderView {
    ReaderView {
        groups: reading_groups(reader.active, memberships_of(groups, reader.subject)),
        ..reader
    }
}

/// Does every account read through exactly the groups it is a member of, in
/// order, and through none if it is inactive?
pub open spec fn all_settled(readers: Seq<ReaderView>, groups: Seq<GroupView>) -> bool {
    forall|i: int| 0 <= i < readers.len() ==> #[trigger] readers[i] == settled(readers[i], groups)
}

/// The accounts of these people, worked out anew.
pub open spec fn recomputed(
    readers: Seq<ReaderView>,
    groups: Seq<GroupView>,
    subjects: Seq<Seq<char>>,
) -> Seq<ReaderView>
    decreases readers.len(),
{
    if readers.len() == 0 {
        Seq::empty()
    } else {
        let before = recomputed(readers.drop_last(), groups, subjects);
        if subjects.contains(readers.last().subject) {
            before.push(settled(readers.last(), groups))
        } else {
            before
        }
    }
}

fn memberships(groups: &[Group], subject: &str) -> (r: Vec<String>)
    ensures
        texts(r@) == memberships_of(groups_view(groups@), subject@),
{
    let ghost all = groups_view(groups@);
    let mut out: Vec<String> = Vec::new();
    let mut i: usize = 0;
    assert(texts(out@) == memberships_of(all.take(0), subject@));
    while i < groups.len()
        invariant
            i <= groups@.len(),
            all == groups_view(groups@),
            texts(out@) == memberships_of(all.take(i as int), subject@),
        decreases groups@.len() - i,
    {
        let group = &groups[i];
        assert(all.take(i + 1).drop_last() == all.take(i as int));
        assert(all.take(i + 1).last() == group@);
        if listed(&group.members, subject) {
            let ghost before = texts(out@);
            out.push(group.name.clone());
            assert(texts(out@) == before.push(group@.name));
        }
        i += 1;
    }
    assert(all.take(i as int) == all);
    out
}

/// Works out anew what these people read through: their rows, to be written
/// in the place of those they have. Somebody who has no account has no row.
pub fn recompute(readers: &[Reader], groups: &[Group], subjects: &[String]) -> (r: Vec<Reader>)
    ensures
        readers_view(r@) == recomputed(
            readers_view(readers@),
            groups_view(groups@),
            texts(subjects@),
        ),
{
    let ghost all = readers_view(readers@);
    let mut out: Vec<Reader> = Vec::new();
    let mut i: usize = 0;
    assert(readers_view(out@) == recomputed(
        all.take(0),
        groups_view(groups@),
        texts(subjects@),
    ));
    while i < readers.len()
        invariant
            i <= readers@.len(),
            all == readers_view(readers@),
            readers_view(out@) == recomputed(
                all.take(i as int),
                groups_view(groups@),
                texts(subjects@),
            ),
        decreases readers@.len() - i,
    {
        let reader = &readers[i];
        assert(all.take(i + 1).drop_last() == all.take(i as int));
        assert(all.take(i + 1).last() == reader@);
        if listed(subjects, &reader.subject) {
            let ghost before = readers_view(out@);
            let mine = memberships(groups, &reader.subject);
            let one = Reader {
                subject: reader.subject.clone(),
                active: reader.active,
                groups: read_through(reader.active, &mine),
            };
            assert(one@ == settled(reader@, groups_view(groups@)));
            out.push(one);
            assert(readers_view(out@) == before.push(out@.last()@));
        }
        i += 1;
    }
    assert(all.take(i as int) == all);
    out
}

/// The accounts once the rows of these people are written.
pub open spec fn readers_after(
    readers: Seq<ReaderView>,
    groups: Seq<GroupView>,
    subjects: Seq<Seq<char>>,
) -> Seq<ReaderView> {
    Seq::new(
        readers.len(),
        |i: int|
            if subjects.contains(readers[i].subject) {
                settled(readers[i], groups)
            } else {
                readers[i]
            },
    )
}

/// What is written for somebody is what they have afterwards, and whoever has
/// something new was among the people written for.
pub proof fn only_these_are_written(
    readers: Seq<ReaderView>,
    groups: Seq<GroupView>,
    subjects: Seq<Seq<char>>,
    i: int,
)
    requires
        0 <= i < readers.len(),
    ensures
        ({
            let after = readers_after(readers, groups, subjects)[i];
            &&& subjects.contains(readers[i].subject) ==> recomputed(
                readers,
                groups,
                subjects,
            ).contains(after)
            &&& !subjects.contains(readers[i].subject) ==> after == readers[i]
        }),
    decreases readers.len(),
{
    let front = readers.drop_last();
    let before = recomputed(front, groups, subjects);
    let all = recomputed(readers, groups, subjects);
    if subjects.contains(readers[i].subject) {
        if i < front.len() {
            only_these_are_written(front, groups, subjects, i);
            let after = readers_after(front, groups, subjects)[i];
            let k = choose|k: int| 0 <= k < before.len() && before[k] == after;
            assert(all[k] == after);
        } else {
            assert(all[before.len() as int] == settled(readers[i], groups));
        }
    }
}

/// A write to the groups followed by working out anew whoever moved leaves
/// every account right.
proof fn working_out_the_moved_is_enough(
    readers: Seq<ReaderView>,
    before: Seq<GroupView>,
    after: Seq<GroupView>,
    moved: Seq<Seq<char>>,
)
    requires
        all_settled(readers, before),
        forall|x: Seq<char>|
            !moved.contains(x) ==> memberships_of(after, x) == #[trigger] memberships_of(
                before,
                x,
            ),
    ensures
        all_settled(readers_after(readers, after, moved), after),
{
    let rows = readers_after(readers, after, moved);
    assert forall|i: int| 0 <= i < rows.len() implies #[trigger] rows[i] == settled(
        rows[i],
        after,
    ) by {
        let reader = readers[i];
        assert(reader == settled(reader, before));
        if !moved.contains(reader.subject) {
            assert(memberships_of(after, reader.subject) == memberships_of(before, reader.subject));
        }
    }
}

/// What writing a group does: its row, and everybody whose groups have to be
/// worked out anew.
#[derive(Debug)]
pub struct GroupChange {
    pub group: Group,
    pub touched: Vec<String>,
}

/// The members of a group that may be there.
pub open spec fn members_in(stored: Option<GroupView>) -> Seq<Seq<char>> {
    match stored {
        Some(group) => group.members,
        None => Seq::empty(),
    }
}

/// The group as it is written.
pub open spec fn group_after(
    stored: Option<GroupView>,
    id: Seq<char>,
    name: Seq<char>,
    given: Option<Seq<Seq<char>>>,
) -> GroupView {
    GroupView { id, name, members: members_after(members_in(stored), given) }
}

/// Creates or renames a group; `given` replaces the members when there is one.
///
/// Everybody before and after is touched: a rename moves them all, a
/// replacement moves whoever left as much as whoever came.
pub fn put_group(
    stored: Option<&Group>,
    id: &str,
    name: &str,
    given: Option<&[String]>,
) -> (r: GroupChange)
    ensures
        ({
            let before = match stored {
                Some(group) => Some(group@),
                None => None,
            };
            &&& r.group@ == group_after(
                before,
                id@,
                name@,
                match given {
                    Some(given) => Some(texts(given@)),
                    None => None,
                },
            )
            &&& texts(r.touched@) == as_members(members_in(before) + r.group@.members)
        }),
{
    let before = match stored {
        Some(group) => copied(&group.members),
        None => Vec::new(),
    };
    assert(stored is None ==> texts(before@) == Seq::<Seq<char>>::empty());
    let after = match given {
        Some(given) => members(copied(given)),
        None => copied(&before),
    };
    let mut both = before;
    let mut more = copied(&after);
    let ghost first = both@;
    let ghost second = more@;
    both.append(&mut more);
    assert(texts(both@) == texts(first) + texts(second));
    GroupChange {
        group: Group { id: id.to_owned(), name: name.to_owned(), members: after },
        touched: members(both),
    }
}

/// Where the group with this id stands; behind all of them if it is not there.
pub open spec fn place_of(groups: Seq<GroupView>, id: Seq<char>) -> int
    decreases groups.len(),
{
    if groups.len() == 0 || groups[0].id == id {
        0
    } else {
        1 + place_of(groups.drop_first(), id)
    }
}

/// The group with this id, if it is there.
pub open spec fn group_called(groups: Seq<GroupView>, id: Seq<char>) -> Option<GroupView> {
    if place_of(groups, id) < groups.len() {
        Some(groups[place_of(groups, id)])
    } else {
        None
    }
}

/// The groups once this one is written.
pub open spec fn groups_with(groups: Seq<GroupView>, group: GroupView) -> Seq<GroupView> {
    let at = place_of(groups, group.id);
    if at < groups.len() {
        groups.update(at, group)
    } else {
        groups.push(group)
    }
}

/// The groups once this one is gone.
pub open spec fn groups_without(groups: Seq<GroupView>, id: Seq<char>) -> Seq<GroupView> {
    let at = place_of(groups, id);
    if at < groups.len() {
        groups.remove(at)
    } else {
        groups
    }
}

proof fn place_is(groups: Seq<GroupView>, id: Seq<char>)
    ensures
        0 <= place_of(groups, id) <= groups.len(),
        place_of(groups, id) < groups.len() ==> groups[place_of(groups, id)].id == id,
        forall|i: int| 0 <= i < place_of(groups, id) ==> (#[trigger] groups[i]).id != id,
    decreases groups.len(),
{
    if groups.len() > 0 && groups[0].id != id {
        let rest = groups.drop_first();
        place_is(rest, id);
        assert forall|i: int| 0 <= i < place_of(groups, id) implies (#[trigger] groups[i]).id
            != id by {
            if i > 0 {
                assert(rest[i - 1] == groups[i]);
            }
        }
    }
}

proof fn place_found(groups: Seq<GroupView>, id: Seq<char>, at: int)
    requires
        0 <= at <= groups.len(),
        at < groups.len() ==> groups[at].id == id,
        forall|i: int| 0 <= i < at ==> (#[trigger] groups[i]).id != id,
    ensures
        place_of(groups, id) == at,
    decreases groups.len(),
{
    if groups.len() > 0 && groups[0].id != id {
        let rest = groups.drop_first();
        assert forall|i: int| 0 <= i < at - 1 implies (#[trigger] rest[i]).id != id by {
            assert(rest[i] == groups[i + 1]);
        }
        place_found(rest, id, at - 1);
    }
}

/// Somebody who is in neither of two groups has the same memberships whichever
/// of the two stands there.
proof fn strangers_do_not_mind(
    before: Seq<GroupView>,
    after: Seq<GroupView>,
    at: int,
    x: Seq<char>,
)
    requires
        before.len() == after.len(),
        forall|i: int| 0 <= i < before.len() && i != at ==> #[trigger] before[i] == after[i],
        0 <= at < before.len() ==> !before[at].members.contains(x) && !after[at].members.contains(
            x,
        ),
    ensures
        memberships_of(before, x) == memberships_of(after, x),
    decreases before.len(),
{
    if before.len() > 0 {
        let last = before.len() - 1;
        strangers_do_not_mind(before.drop_last(), after.drop_last(), at, x);
        if last != at {
            assert(before[last] == after[last]);
        }
    }
}

proof fn a_missing_group_is_not_missed(groups: Seq<GroupView>, at: int, x: Seq<char>)
    requires
        0 <= at < groups.len(),
        !groups[at].members.contains(x),
    ensures
        memberships_of(groups.remove(at), x) == memberships_of(groups, x),
    decreases groups.len(),
{
    let front = groups.drop_last();
    if at == groups.len() - 1 {
        assert(groups.remove(at) =~= front);
    } else {
        assert(groups.remove(at).drop_last() =~= front.remove(at));
        assert(groups.remove(at).last() == groups.last());
        a_missing_group_is_not_missed(front, at, x);
    }
}

proof fn writing_moves_members_only(groups: Seq<GroupView>, group: GroupView, x: Seq<char>)
    requires
        !members_in(group_called(groups, group.id)).contains(x),
        !group.members.contains(x),
    ensures
        memberships_of(groups_with(groups, group), x) == memberships_of(groups, x),
{
    let at = place_of(groups, group.id);
    place_is(groups, group.id);
    let after = groups_with(groups, group);
    if at < groups.len() {
        strangers_do_not_mind(groups, after, at, x);
    } else {
        assert(after.drop_last() =~= groups);
    }
}

proof fn written_group_is_found(groups: Seq<GroupView>, group: GroupView, other: Seq<char>)
    requires
        other != group.id,
    ensures
        group_called(groups_with(groups, group), group.id) == Some(group),
        group_called(groups_with(groups, group), other) == group_called(groups, other),
{
    let after = groups_with(groups, group);
    let at = place_of(groups, group.id);
    place_is(groups, group.id);
    place_found(after, group.id, at);
    let there = place_of(groups, other);
    place_is(groups, other);
    if there < groups.len() {
        assert(after[there] == groups[there]);
        place_found(after, other, there);
    } else {
        assert forall|i: int| 0 <= i < after.len() implies (#[trigger] after[i]).id != other by {
            if i < groups.len() && i != at {
                assert(after[i] == groups[i]);
            }
        }
        place_found(after, other, after.len() as int);
    }
}

/// A PUT WITH MEMBERS REPLACES THEM AND MOVES EVERYBODY TOUCHED: after a group
/// is written every account reads through exactly the groups it is a member
/// of, also whoever left and, on a rename, everybody in it. The group carries
/// the name, its members are those given or those there were, and no other
/// group changes.
pub proof fn a_put_moves_everybody_touched(
    readers: Seq<ReaderView>,
    groups: Seq<GroupView>,
    id: Seq<char>,
    name: Seq<char>,
    given: Option<Seq<Seq<char>>>,
    other: Seq<char>,
    x: Seq<char>,
)
    requires
        all_settled(readers, groups),
        other != id,
    ensures
        ({
            let stored = group_called(groups, id);
            let group = group_after(stored, id, name, given);
            let after = groups_with(groups, group);
            let touched = as_members(members_in(stored) + group.members);
            &&& all_settled(readers_after(readers, after, touched), after)
            &&& group_called(after, id) == Some(group)
            &&& group.name == name
            &&& given is None ==> group.members == members_in(stored)
            &&& given is Some ==> group.members.contains(x) == given->0.contains(x)
            &&& group_called(after, other) == group_called(groups, other)
        }),
{
    let stored = group_called(groups, id);
    let group = group_after(stored, id, name, given);
    let after = groups_with(groups, group);
    let touched = as_members(members_in(stored) + group.members);
    assert forall|y: Seq<char>| !touched.contains(y) implies memberships_of(after, y)
        == #[trigger] memberships_of(groups, y) by {
        if members_in(stored).contains(y) || group.members.contains(y) {
            whoever_moved_is_touched(members_in(stored), given, y);
        }
        writing_moves_members_only(groups, group, y);
    }
    working_out_the_moved_is_enough(readers, groups, after, touched);
    written_group_is_found(groups, group, other);
    if given is Some {
        members_are(given->0, x);
    }
}

/// The group with other members.
pub open spec fn with_members(group: GroupView, members: Seq<Seq<char>>) -> GroupView {
    GroupView { members, ..group }
}

/// Adding people to a group or taking them out of it, and working them out
/// anew, leaves every account right.
pub proof fn members_come_and_go(
    readers: Seq<ReaderView>,
    groups: Seq<GroupView>,
    id: Seq<char>,
    subjects: Seq<Seq<char>>,
)
    requires
        all_settled(readers, groups),
        group_called(groups, id) is Some,
    ensures
        ({
            let group = group_called(groups, id)->0;
            let more = groups_with(
                groups,
                with_members(group, as_members(group.members + subjects)),
            );
            let fewer = groups_with(
                groups,
                with_members(group, all_but_these(group.members, subjects)),
            );
            &&& all_settled(readers_after(readers, more, subjects), more)
            &&& all_settled(readers_after(readers, fewer, subjects), fewer)
        }),
{
    let at = place_of(groups, id);
    place_is(groups, id);
    let group = groups[at];
    let grown = with_members(group, as_members(group.members + subjects));
    let shrunk = with_members(group, all_but_these(group.members, subjects));
    let more = groups_with(groups, grown);
    let fewer = groups_with(groups, shrunk);
    assert forall|y: Seq<char>| !subjects.contains(y) implies memberships_of(more, y)
        == #[trigger] memberships_of(groups, y) && memberships_of(fewer, y) == memberships_of(
        groups,
        y,
    ) by {
        only_the_named_move(group.members, subjects, y);
        same_members_same_memberships(groups, more, at, y);
        same_members_same_memberships(groups, fewer, at, y);
    }
    working_out_the_moved_is_enough(readers, groups, more, subjects);
    working_out_the_moved_is_enough(readers, groups, fewer, subjects);
}

/// Where a group keeps its name, only whoever is in one of the two versions
/// and not in the other can tell them apart.
proof fn same_members_same_memberships(
    before: Seq<GroupView>,
    after: Seq<GroupView>,
    at: int,
    x: Seq<char>,
)
    requires
        before.len() == after.len(),
        forall|i: int| 0 <= i < before.len() && i != at ==> #[trigger] before[i] == after[i],
        0 <= at < before.len() ==> before[at].name == after[at].name && before[at].members.contains(
            x,
        ) == after[at].members.contains(x),
    ensures
        memberships_of(before, x) == memberships_of(after, x),
    decreases before.len(),
{
    if before.len() > 0 {
        let last = before.len() - 1;
        same_members_same_memberships(before.drop_last(), after.drop_last(), at, x);
        if last != at {
            assert(before[last] == after[last]);
        }
    }
}

/// What is left of somebody: their row, and the groups as they stand then.
#[derive(Debug)]
pub struct Left {
    pub user: User,
    pub groups: Vec<Group>,
}

/// The groups without this person.
pub open spec fn groups_left(groups: Seq<GroupView>, id: Seq<char>) -> Seq<GroupView> {
    Seq::new(groups.len(), |i: int| with_members(groups[i], all_but(groups[i].members, id)))
}

/// Somebody left: like inactive, and out of every group.
pub fn delete_user(user: User, groups: Vec<Group>) -> (r: Left)
    ensures
        r.user@ == (UserView { active: false, ..user@ }),
        groups_view(r.groups@) == groups_left(groups_view(groups@), user@.id),
{
    let ghost given = groups@;
    let mut rest = groups;
    let mut out: Vec<Group> = Vec::new();
    assert(given.skip(0) == given);
    while rest.len() > 0
        invariant
            rest@.len() + out@.len() == given.len(),
            rest@ == given.skip(out@.len() as int),
            forall|k: int|
                0 <= k < out@.len() ==> (#[trigger] out@[k])@ == with_members(
                    given[k]@,
                    all_but(given[k]@.members, user@.id),
                ),
        decreases rest@.len(),
    {
        let ghost done = out@.len() as int;
        let group = rest.remove(0);
        assert(group == given[done]);
        assert(rest@ == given.skip(done + 1));
        let members = everybody_but(&group.members, &user.id);
        out.push(Group { members, ..group });
    }
    assert(groups_view(out@) == groups_left(groups_view(given), user@.id));
    Left { user: User { active: false, ..user }, groups: out }
}

proof fn memberships_without(groups: Seq<GroupView>, id: Seq<char>, x: Seq<char>)
    ensures
        memberships_of(groups_left(groups, id), x) == if x == id {
            Seq::empty()
        } else {
            memberships_of(groups, x)
        },
    decreases groups.len(),
{
    if groups.len() > 0 {
        memberships_without(groups.drop_last(), id, x);
        assert(groups_left(groups, id).drop_last() =~= groups_left(groups.drop_last(), id));
        all_but_one(groups.last().members, id);
    }
}

/// The accounts once this person has left.
pub open spec fn readers_left(readers: Seq<ReaderView>, id: Seq<char>) -> Seq<ReaderView> {
    Seq::new(
        readers.len(),
        |i: int|
            if readers[i].subject == id {
                ReaderView { active: false, groups: Seq::empty(), ..readers[i] }
            } else {
                readers[i]
            },
    )
}

/// Whoever left is a member of no group and reads through none, and for nobody
/// else anything changes.
pub proof fn whoever_left_is_in_no_group(
    readers: Seq<ReaderView>,
    groups: Seq<GroupView>,
    id: Seq<char>,
    other: Seq<char>,
)
    requires
        all_settled(readers, groups),
        other != id,
    ensures
        ({
            let after = groups_left(groups, id);
            &&& memberships_of(after, id).len() == 0
            &&& forall|i: int|
                0 <= i < after.len() ==> !(#[trigger] after[i]).members.contains(id)
            &&& memberships_of(after, other) == memberships_of(groups, other)
            &&& all_settled(readers_left(readers, id), after)
        }),
{
    let after = groups_left(groups, id);
    memberships_without(groups, id, id);
    memberships_without(groups, id, other);
    assert forall|i: int| 0 <= i < after.len() implies !(#[trigger] after[i]).members.contains(
        id,
    ) by {
        all_but_one(groups[i].members, id);
    }
    let rows = readers_left(readers, id);
    assert forall|i: int| 0 <= i < rows.len() implies #[trigger] rows[i] == settled(
        rows[i],
        after,
    ) by {
        assert(readers[i] == settled(readers[i], groups));
        memberships_without(groups, id, readers[i].subject);
    }
}

/// A group that is gone is gone from everybody who was in it.
pub proof fn a_deleted_group_leaves_nobody_behind(
    readers: Seq<ReaderView>,
    groups: Seq<GroupView>,
    id: Seq<char>,
)
    requires
        all_settled(readers, groups),
    ensures
        ({
            let before = members_in(group_called(groups, id));
            let after = groups_without(groups, id);
            all_settled(readers_after(readers, after, before), after)
        }),
{
    let at = place_of(groups, id);
    place_is(groups, id);
    let before = members_in(group_called(groups, id));
    let after = groups_without(groups, id);
    assert forall|y: Seq<char>| !before.contains(y) implies memberships_of(after, y)
        == #[trigger] memberships_of(groups, y) by {
        if at < groups.len() {
            a_missing_group_is_not_missed(groups, at, y);
        }
    }
    working_out_the_moved_is_enough(readers, groups, after, before);
}

/// Whoever left and whoever came is touched, and so is whoever stayed.
pub proof fn whoever_moved_is_touched(
    before: Seq<Seq<char>>,
    given: Option<Seq<Seq<char>>>,
    x: Seq<char>,
)
    requires
        before.contains(x) || members_after(before, given).contains(x),
    ensures
        as_members(before + members_after(before, given)).contains(x),
{
    let after = members_after(before, given);
    let both = before + after;
    members_are(both, x);
    if before.contains(x) {
        let k = choose|k: int| 0 <= k < before.len() && before[k] == x;
        assert(both[k] == x);
    } else {
        let k = choose|k: int| 0 <= k < after.len() && after[k] == x;
        assert(both[before.len() + k] == x);
    }
}

/// The members without these people.
pub open spec fn all_but_these(list: Seq<Seq<char>>, these: Seq<Seq<char>>) -> Seq<Seq<char>>
    decreases these.len(),
{
    if these.len() == 0 {
        list
    } else {
        all_but(all_but_these(list, these.drop_last()), these.last())
    }
}

/// Adds people to a group. Adding somebody twice is adding them once.
pub fn add_members(before: &[String], subjects: &[String]) -> (r: Vec<String>)
    ensures
        texts(r@) == as_members(texts(before@) + texts(subjects@)),
{
    let mut both = copied(before);
    let mut more = copied(subjects);
    let ghost first = both@;
    let ghost second = more@;
    both.append(&mut more);
    assert(texts(both@) == texts(first) + texts(second));
    members(both)
}

/// Takes people out of a group.
pub fn remove_members(before: &[String], subjects: &[String]) -> (r: Vec<String>)
    ensures
        texts(r@) == all_but_these(texts(before@), texts(subjects@)),
{
    let ghost these = texts(subjects@);
    let mut out = copied(before);
    let mut i: usize = 0;
    while i < subjects.len()
        invariant
            i <= subjects@.len(),
            these == texts(subjects@),
            texts(out@) == all_but_these(texts(before@), these.take(i as int)),
        decreases subjects@.len() - i,
    {
        assert(these.take(i + 1).drop_last() == these.take(i as int));
        assert(these.take(i + 1).last() == subjects@[i as int]@);
        out = everybody_but(&out, &subjects[i]);
        i += 1;
    }
    assert(these.take(i as int) == these);
    out
}

proof fn all_but_these_are(list: Seq<Seq<char>>, these: Seq<Seq<char>>, x: Seq<char>)
    ensures
        all_but_these(list, these).contains(x) == (list.contains(x) && !these.contains(x)),
    decreases these.len(),
{
    if these.len() > 0 {
        let front = these.drop_last();
        all_but_these_are(list, front, x);
        all_but_one(all_but_these(list, front), these.last());
        assert(all_but_these(list, these).contains(x) <==> all_but_these(list, front).contains(x)
            && x != these.last());
        assert(these[these.len() - 1] == these.last());
        if front.contains(x) {
            let k = choose|k: int| 0 <= k < front.len() && front[k] == x;
            assert(these[k] == x);
        }
        if these.contains(x) && x != these.last() {
            let k = choose|k: int| 0 <= k < these.len() && these[k] == x;
            assert(front[k] == x);
        }
    }
}

/// Whoever is added is a member, whoever is taken out is none, and nobody
/// else's membership changes.
pub proof fn only_the_named_move(before: Seq<Seq<char>>, subjects: Seq<Seq<char>>, x: Seq<char>)
    ensures
        as_members(before + subjects).contains(x) == (before.contains(x) || subjects.contains(x)),
        all_but_these(before, subjects).contains(x) == (before.contains(x)
            && !subjects.contains(x)),
{
    let both = before + subjects;
    members_are(both, x);
    all_but_these_are(before, subjects, x);
    if before.contains(x) {
        let k = choose|k: int| 0 <= k < before.len() && before[k] == x;
        assert(both[k] == x);
    }
    if subjects.contains(x) {
        let k = choose|k: int| 0 <= k < subjects.len() && subjects[k] == x;
        assert(both[before.len() + k] == x);
    }
    if both.contains(x) {
        let k = choose|k: int| 0 <= k < both.len() && both[k] == x;
        if k < before.len() {
            assert(before[k] == x);
        } else {
            assert(subjects[k - before.len()] == x);
        }
    }
}

/// The most entries a page of the directory holds.
pub const MAX_ENTRIES: i64 = 200;

/// How many entries come before a page. `start` is counted from one.
pub open spec fn entries_before(start: i64) -> int {
    if start < 1 {
        0
    } else {
        start - 1
    }
}

/// How many entries a page holds at most.
pub open spec fn entries_on_page(count: i64) -> int {
    if count < 0 {
        0
    } else if count > MAX_ENTRIES {
        MAX_ENTRIES as int
    } else {
        count as int
    }
}

/// Where a page begins, counted from nothing, and how long it is. `start` is
/// counted from one.
pub fn page(start: i64, count: i64) -> (r: (i64, i64))
    ensures
        r.0 == entries_before(start),
        r.1 == entries_on_page(count),
{
    let offset: i64 = if start < 1 {
        0
    } else {
        start - 1
    };
    let limit: i64 = if count < 0 {
        0
    } else if count > MAX_ENTRIES {
        MAX_ENTRIES
    } else {
        count
    };
    (offset, limit)
}

/// The people that carry this name, or all of them.
pub open spec fn users_named(stored: Seq<User>, name: Option<Seq<char>>) -> Seq<User>
    decreases stored.len(),
{
    if stored.len() == 0 {
        Seq::empty()
    } else {
        let before = users_named(stored.drop_last(), name);
        if name is None || stored.last().user_name@ == name->0 {
            before.push(stored.last())
        } else {
            before
        }
    }
}

fn select_users(stored: Vec<User>, name: Option<&str>) -> (r: Vec<User>)
    ensures
        r@ == users_named(
            stored@,
            match name {
                Some(name) => Some(name@),
                None => None,
            },
        ),
        r@.len() <= stored@.len(),
{
    let ghost given = stored@;
    let ghost wanted: Option<Seq<char>> = match name {
        Some(name) => Some(name@),
        None => None,
    };
    let mut rest = stored;
    let mut out: Vec<User> = Vec::new();
    assert(given.take(0) == Seq::<User>::empty());
    assert(given.skip(0) == given);
    while rest.len() > 0
        invariant
            rest@.len() <= given.len(),
            out@.len() <= given.len() - rest@.len(),
            wanted == match name {
                Some(name) => Some(name@),
                None => None,
            },
            rest@ == given.skip(given.len() - rest@.len()),
            out@ == users_named(given.take(given.len() - rest@.len()), wanted),
        decreases rest@.len(),
    {
        let ghost done = given.len() - rest@.len();
        let one = rest.remove(0);
        assert(one == given[done]);
        assert(rest@ == given.skip(done + 1));
        assert(given.take(done + 1).drop_last() == given.take(done));
        assert(given.take(done + 1).last() == one);
        let fits = match name {
            Some(name) => same(&one.user_name, name),
            None => true,
        };
        if fits {
            out.push(one);
        }
    }
    assert(given.take(given.len() as int) == given);
    out
}

/// The people the directory sent, optionally by user name, a page at a time:
/// how many there are, and the page. `start` is counted from one.
pub fn list_users(stored: Vec<User>, name: Option<&str>, start: i64, count: i64) -> (r: (
    i64,
    Vec<User>,
))
    requires
        stored@.len() <= i64::MAX,
    ensures
        ({
            let found = users_named(
                stored@,
                match name {
                    Some(name) => Some(name@),
                    None => None,
                },
            );
            &&& r.0 == found.len()
            &&& r.1@ == page_of(
                arranged(found, |a: User, b: User| text_before(a.id@, b.id@)),
                entries_on_page(count),
                entries_before(start),
            )
        }),
{
    let found = select_users(stored, name);
    let total: i64 = found.len() as i64;
    let ghost before = |a: User, b: User| text_before(a.id@, b.id@);
    let first = |a: &User, b: &User| -> (r: bool)
        ensures
            r == text_before(a.id@, b.id@),
        { comes_before(&chars(&a.id), &chars(&b.id)) };
    let (offset, limit) = page(start, count);
    (total, paged(arrange(found, first, Ghost(before)), limit, offset))
}

/// The groups that carry this name, or all of them.
pub open spec fn groups_named(stored: Seq<Group>, name: Option<Seq<char>>) -> Seq<Group>
    decreases stored.len(),
{
    if stored.len() == 0 {
        Seq::empty()
    } else {
        let before = groups_named(stored.drop_last(), name);
        if name is None || stored.last().name@ == name->0 {
            before.push(stored.last())
        } else {
            before
        }
    }
}

fn select_groups(stored: Vec<Group>, name: Option<&str>) -> (r: Vec<Group>)
    ensures
        r@ == groups_named(
            stored@,
            match name {
                Some(name) => Some(name@),
                None => None,
            },
        ),
        r@.len() <= stored@.len(),
{
    let ghost given = stored@;
    let ghost wanted: Option<Seq<char>> = match name {
        Some(name) => Some(name@),
        None => None,
    };
    let mut rest = stored;
    let mut out: Vec<Group> = Vec::new();
    assert(given.take(0) == Seq::<Group>::empty());
    assert(given.skip(0) == given);
    while rest.len() > 0
        invariant
            rest@.len() <= given.len(),
            out@.len() <= given.len() - rest@.len(),
            wanted == match name {
                Some(name) => Some(name@),
                None => None,
            },
            rest@ == given.skip(given.len() - rest@.len()),
            out@ == groups_named(given.take(given.len() - rest@.len()), wanted),
        decreases rest@.len(),
    {
        let ghost done = given.len() - rest@.len();
        let one = rest.remove(0);
        assert(one == given[done]);
        assert(rest@ == given.skip(done + 1));
        assert(given.take(done + 1).drop_last() == given.take(done));
        assert(given.take(done + 1).last() == one);
        let fits = match name {
            Some(name) => same(&one.name, name),
            None => true,
        };
        if fits {
            out.push(one);
        }
    }
    assert(given.take(given.len() as int) == given);
    out
}

/// The groups, optionally by name, a page at a time: how many there are, and
/// the page. `start` is counted from one.
pub fn list_groups(stored: Vec<Group>, name: Option<&str>, start: i64, count: i64) -> (r: (
    i64,
    Vec<Group>,
))
    requires
        stored@.len() <= i64::MAX,
    ensures
        ({
            let found = groups_named(
                stored@,
                match name {
                    Some(name) => Some(name@),
                    None => None,
                },
            );
            &&& r.0 == found.len()
            &&& r.1@ == page_of(
                arranged(found, |a: Group, b: Group| text_before(a.name@, b.name@)),
                entries_on_page(count),
                entries_before(start),
            )
        }),
{
    let found = select_groups(stored, name);
    let total: i64 = found.len() as i64;
    let ghost before = |a: Group, b: Group| text_before(a.name@, b.name@);
    let first = |a: &Group, b: &Group| -> (r: bool)
        ensures
            r == text_before(a.name@, b.name@),
        { comes_before(&chars(&a.name), &chars(&b.name)) };
    let (offset, limit) = page(start, count);
    (total, paged(arrange(found, first, Ghost(before)), limit, offset))
}

/// Whoever is looked for by name and found carries that name, and everybody
/// who carries it is found.
pub proof fn a_name_finds_its_people(stored: Seq<User>, name: Seq<char>, user: User)
    ensures
        users_named(stored, Some(name)).contains(user) == (stored.contains(user)
            && user.user_name@ == name),
    decreases stored.len(),
{
    if stored.len() > 0 {
        let front = stored.drop_last();
        a_name_finds_its_people(front, name, user);
        let (before, after) = (users_named(front, Some(name)), users_named(stored, Some(name)));
        assert(stored[stored.len() - 1] == stored.last());
        if after.contains(user) {
            let k = choose|k: int| 0 <= k < after.len() && after[k] == user;
            if k < before.len() {
                assert(before[k] == user);
            }
        }
        if before.contains(user) {
            let k = choose|k: int| 0 <= k < before.len() && before[k] == user;
            assert(after[k] == user);
        }
        if front.contains(user) {
            let k = choose|k: int| 0 <= k < front.len() && front[k] == user;
            assert(stored[k] == user);
        }
        if stored.contains(user) && !front.contains(user) {
            let k = choose|k: int| 0 <= k < stored.len() && stored[k] == user;
            if k < front.len() {
                assert(front[k] == user);
            }
            assert(user == stored.last());
            if user.user_name@ == name {
                assert(after[before.len() as int] == user);
            }
        }
    }
}

} // verus!
