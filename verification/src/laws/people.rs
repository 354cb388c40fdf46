//! Who may do what, and who is who.
use crate::auth::handle_of;
use crate::authz::{hosts_read, posts, reads, replies, shares_group, IdentityView};
use crate::config::{CategoryView, SpaceView};
use crate::db::accounts::{answering, handles_among, KnownView};
use crate::db::directory::{
    account_of, group_after, held_by_another, memberships_of, recomputed, settled, GroupView,
    Holder, ReaderView, UserView,
};
use crate::order::{each_once, sorted_texts, sorting_keeps};
use vstd::prelude::*;

verus! {

/// Is somebody in one of these groups?
pub open spec fn in_one_of(who: IdentityView, groups: Seq<Seq<char>>) -> bool {
    exists|group: Seq<char>|
        #![trigger who.groups.contains(group)]
        #![trigger groups.contains(group)]
        who.groups.contains(group) && groups.contains(group)
}

proof fn sharing(who: IdentityView, groups: Seq<Seq<char>>)
    ensures
        shares_group(who.groups, groups) == in_one_of(who, groups),
{
    if shares_group(who.groups, groups) {
        let (i, j) = choose|i: int, j: int|
            0 <= i < who.groups.len() && 0 <= j < groups.len() && #[trigger] who.groups[i]
                == #[trigger] groups[j];
        assert(who.groups.contains(who.groups[i]));
        assert(groups.contains(groups[j]));
    }
    if in_one_of(who, groups) {
        let group = choose|group: Seq<char>|
            #![trigger who.groups.contains(group)]
            #![trigger groups.contains(group)]
            who.groups.contains(group) && groups.contains(group);
        let i = choose|i: int| 0 <= i < who.groups.len() && who.groups[i] == group;
        let j = choose|j: int| 0 <= j < groups.len() && groups[j] == group;
        assert(who.groups[i] == groups[j]);
    }
}

/// A GROUP IS WHAT GIVES A RIGHT: whoever is in a group that may read, reads;
/// whoever is in one that may post, posts; whoever is in one that may reply,
/// replies. Nobody else does.
pub proof fn a_group_gives_the_right(who: IdentityView, space: SpaceView, category: CategoryView)
    ensures
        reads(who, space) <==> in_one_of(who, space.read),
        posts(who, category) <==> in_one_of(who, category.post),
        replies(who, category) <==> in_one_of(who, category.reply),
{
    sharing(who, space.read);
    sharing(who, category.post);
    sharing(who, category.reply);
}

/// The bell looks at the spaces somebody may read, one by one, and at no other.
pub proof fn one_more_space(who: IdentityView, spaces: Seq<SpaceView>, space: SpaceView)
    ensures
        hosts_read(who, Seq::empty()) == Seq::<Seq<char>>::empty(),
        in_one_of(who, space.read) ==> hosts_read(who, spaces.push(space)) == hosts_read(
            who,
            spaces,
        ).push(space.host),
        !in_one_of(who, space.read) ==> hosts_read(who, spaces.push(space)) == hosts_read(
            who,
            spaces,
        ),
{
    sharing(who, space.read);
    assert(spaces.push(space).drop_last() == spaces);
}

/// Whoever answers to a handle is found by it, and nobody else is.
pub proof fn whoever_answers_is_found(
    accounts: Seq<KnownView>,
    handles: Seq<Seq<char>>,
    one: KnownView,
)
    ensures
        answering(accounts, handles).contains(one) <==> accounts.contains(one) && handles.contains(
            one.handle,
        ),
    decreases accounts.len(),
{
    let all = answering(accounts, handles);
    if accounts.len() > 0 {
        let front = accounts.drop_last();
        let before = answering(front, handles);
        whoever_answers_is_found(front, handles, one);
        assert(accounts[accounts.len() - 1] == accounts.last());
        if front.contains(one) {
            let k = choose|k: int| 0 <= k < front.len() && front[k] == one;
            assert(accounts[k] == one);
        }
        if accounts.contains(one) && !front.contains(one) {
            let k = choose|k: int| 0 <= k < accounts.len() && accounts[k] == one;
            if k < front.len() {
                assert(front[k] == one);
            }
        }
        if before.contains(one) {
            let k = choose|k: int| 0 <= k < before.len() && before[k] == one;
            assert(all[k] == one);
        }
        if all.contains(one) && !before.contains(one) {
            let k = choose|k: int| 0 <= k < all.len() && all[k] == one;
            if k < before.len() {
                assert(before[k] == one);
            }
        }
        if all.len() > before.len() {
            assert(all[before.len() as int] == accounts.last());
        }
    }
}

/// The handle next to a name is the handle of that account.
pub proof fn a_name_goes_with_its_handle(
    accounts: Seq<KnownView>,
    subjects: Seq<Seq<char>>,
    subject: Seq<char>,
    handle: Seq<char>,
)
    ensures
        handles_among(accounts, subjects).contains((subject, handle)) <==> subjects.contains(
            subject,
        ) && exists|k: int|
            0 <= k < accounts.len() && (#[trigger] accounts[k]).subject == subject
                && accounts[k].handle == handle,
    decreases accounts.len(),
{
    let all = handles_among(accounts, subjects);
    if accounts.len() > 0 {
        let front = accounts.drop_last();
        let before = handles_among(front, subjects);
        let pair = (subject, handle);
        a_name_goes_with_its_handle(front, subjects, subject, handle);
        assert(accounts[accounts.len() - 1] == accounts.last());
        if before.contains(pair) {
            let i = choose|i: int| 0 <= i < before.len() && before[i] == pair;
            assert(all[i] == pair);
            let k = choose|k: int|
                0 <= k < front.len() && (#[trigger] front[k]).subject == subject && front[k].handle
                    == handle;
            assert(accounts[k] == front[k]);
        }
        if all.contains(pair) && !before.contains(pair) {
            let i = choose|i: int| 0 <= i < all.len() && all[i] == pair;
            if i < before.len() {
                assert(before[i] == pair);
            }
        }
        if subjects.contains(subject) && exists|k: int|
            0 <= k < accounts.len() && (#[trigger] accounts[k]).subject == subject
                && accounts[k].handle == handle {
            let k = choose|k: int|
                0 <= k < accounts.len() && (#[trigger] accounts[k]).subject == subject
                    && accounts[k].handle == handle;
            if k < front.len() {
                assert(front[k] == accounts[k]);
            } else {
                assert(all[before.len() as int] == pair);
            }
        }
    }
}

/// The row of a person says what the directory says: the subject is the id, the
/// name is the one to be shown; somebody active has their address, and their
/// user name as a handle unless it is no handle or somebody else holds it; and
/// somebody who is not has neither, nor any group.
pub proof fn a_row_says_what_the_directory_says(
    user: UserView,
    holders: Seq<Holder>,
    memberships: Seq<Seq<char>>,
    group: Seq<char>,
)
    ensures
        ({
            let row = account_of(user, holders, memberships);
            let held = exists|i: int|
                0 <= i < holders.len() && Some((#[trigger] holders[i]).handle@) == handle_of(
                    user.user_name,
                ) && holders[i].subject@ != user.id;
            &&& row.subject == user.id
            &&& row.name == user.display_name
            &&& row.user_name == user.user_name
            &&& row.active == user.active
            &&& user.active ==> row.email == user.email
            &&& !user.active ==> row.email is None
            &&& user.active && !held ==> row.handle == handle_of(user.user_name)
            &&& user.active && held ==> row.handle is None
            &&& !user.active ==> row.handle is None
            &&& row.groups.contains(group) <==> user.active && memberships.contains(group)
        }),
{
    sorting_keeps(memberships, group);
    let row = account_of(user, holders, memberships);
    let wanted = handle_of(user.user_name);
    if wanted is Some && held_by_another(holders, wanted->0, user.id) {
        let i = choose|i: int|
            0 <= i < holders.len() && (#[trigger] holders[i]).handle@ == wanted->0
                && holders[i].subject@ != user.id;
        assert(Some(holders[i].handle@) == wanted);
    }
}

/// Somebody is a member of a group exactly if they are among its members, and
/// reads through it by its name.
pub proof fn one_more_group(groups: Seq<GroupView>, group: GroupView, subject: Seq<char>)
    ensures
        memberships_of(Seq::empty(), subject) == Seq::<Seq<char>>::empty(),
        group.members.contains(subject) ==> memberships_of(groups.push(group), subject)
            == memberships_of(groups, subject).push(group.name),
        !group.members.contains(subject) ==> memberships_of(groups.push(group), subject)
            == memberships_of(groups, subject),
{
    assert(groups.push(group).drop_last() == groups);
}

/// Whoever is worked out anew reads through the groups they are a member of,
/// as long as they are active, and is otherwise who they were.
pub proof fn whoever_is_worked_out(reader: ReaderView, groups: Seq<GroupView>, name: Seq<char>)
    ensures
        settled(reader, groups).subject == reader.subject,
        settled(reader, groups).active == reader.active,
        settled(reader, groups).groups.contains(name) <==> reader.active && memberships_of(
            groups,
            reader.subject,
        ).contains(name),
{
    sorting_keeps(memberships_of(groups, reader.subject), name);
}

/// Only the accounts of these people are worked out anew, each of them.
pub proof fn one_more_reader(
    readers: Seq<ReaderView>,
    reader: ReaderView,
    groups: Seq<GroupView>,
    subjects: Seq<Seq<char>>,
)
    ensures
        recomputed(Seq::empty(), groups, subjects) == Seq::<ReaderView>::empty(),
        subjects.contains(reader.subject) ==> recomputed(readers.push(reader), groups, subjects)
            == recomputed(readers, groups, subjects).push(settled(reader, groups)),
        !subjects.contains(reader.subject) ==> recomputed(readers.push(reader), groups, subjects)
            == recomputed(readers, groups, subjects),
{
    assert(readers.push(reader).drop_last() == readers);
}

/// A group that is written has the id and the name it was written under, and
/// the members it was given, or those it had.
pub proof fn a_group_is_what_was_written(
    stored: Option<GroupView>,
    id: Seq<char>,
    name: Seq<char>,
    given: Option<Seq<Seq<char>>>,
    x: Seq<char>,
)
    ensures
        ({
            let group = group_after(stored, id, name, given);
            &&& group.id == id
            &&& group.name == name
            &&& given is Some ==> (group.members.contains(x) <==> given->0.contains(x))
            &&& given is Some ==> group.members.no_duplicates()
            &&& given is None && stored is Some ==> group.members == stored->0.members
            &&& given is None && stored is None ==> group.members.len() == 0
        }),
{
    if given is Some {
        sorting_keeps(given->0, x);
        each_once(sorted_texts(given->0));
        assert(sorted_texts(given->0).contains(x) == given->0.contains(x));
    }
}

} // verus!
