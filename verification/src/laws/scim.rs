//! What the directory is told, and what it answers.
use crate::db::directory::{
    all_but_these, entries_before, entries_on_page, group_called, groups_left, groups_named,
    groups_with, groups_without, handle_kept, place_of, readers_after, readers_left, settled,
    users_named, Group, GroupView, Holder, ReaderView, User, UserView,
};
use crate::db::inbox::all_but;
use crate::laws::config::found;
use crate::laws::text::{
    blank, solid, trimming_leaves_nothing_of_nothing, trimming_leaves_the_middle,
};
use crate::text::{ascii_lower, decimal_text, text_of, trim_start, trimmed};
use crate::tree::{entry, TreeView};
use crate::web::scim::{
    address_in, addresses, changes_of, filter_value, group_in, group_tree, id_in, id_of, list_tree,
    listed_changes, member_ids, member_tree, operation_in, operations_in, patch_in, path_member,
    provider_tree, refusal_tree, subjects_of, user_id, user_in, user_tree, uuid_shape, ChangeView,
    EmailIn, GroupIn, MemberIn, OperationIn, PatchIn, RefusedView, UserIn,
};
use vstd::prelude::*;
use vstd::string::*;

verus! {

/// An id is thirty-six characters: dashes after the eighth, the twelfth, the
/// sixteenth and the twentieth digit, and hexadecimal digits everywhere else.
/// It is kept in small letters and without the space around it.
pub proof fn what_an_id_is(s: Seq<char>, front: Seq<char>, back: Seq<char>)
    requires
        blank(front),
        blank(back),
        solid(s),
    ensures
        uuid_shape(s) <==> s.len() == 36 && s[8] == '-' && s[13] == '-' && s[18] == '-' && s[23]
            == '-' && (forall|i: int|
            0 <= i < 36 && i != 8 && i != 13 && i != 18 && i != 23 ==> ('0' <= #[trigger] s[i]
                && s[i] <= '9') || ('a' <= s[i] && s[i] <= 'f') || ('A' <= s[i] && s[i] <= 'F')),
        id_of(front + s + back) == if uuid_shape(s) {
            Some(ascii_lower(s))
        } else {
            None
        },
        id_of(front) is None,
{
    trimming_leaves_the_middle(front, s, back);
    trimming_leaves_nothing_of_nothing(front);
    if uuid_shape(s) {
        assert(s[8] == '-' && s[13] == '-' && s[18] == '-' && s[23] == '-');
        assert forall|i: int| 0 <= i < 36 && i != 8 && i != 13 && i != 18 && i != 23 implies ('0'
            <= #[trigger] s[i] && s[i] <= '9') || ('a' <= s[i] && s[i] <= 'f') || ('A' <= s[i]
            && s[i] <= 'F') by {
            assert(crate::web::scim::hex_char(s[i]));
        }
    }
}

/// An id that is one is taken, and nothing else is.
pub proof fn an_id_is_taken(raw: Seq<char>, what: Seq<char>)
    ensures
        id_in(Some(raw), what) is Ok <==> id_of(raw) is Some,
        id_in(Some(raw), what) matches Ok(id) ==> Some(id) == id_of(raw),
        id_in(None, what) is Err,
        id_in(Some(raw), what) matches Err(why) ==> why.scim_type == "invalidValue"@,
{
}

/// One more address comes last, or first where it is the main one; without the
/// space around it, and not at all where it is blank.
pub proof fn one_more_address(emails: Seq<EmailIn>, one: EmailIn, list: Option<Vec<EmailIn>>)
    ensures
        addresses(Seq::empty()) == Seq::<Seq<char>>::empty(),
        one.value is None || trimmed(one.value->0@).len() == 0 ==> addresses(emails.push(one))
            == addresses(emails),
        one.value is Some && trimmed(one.value->0@).len() > 0 && one.primary == Some(true)
            ==> addresses(emails.push(one)) == seq![trimmed(one.value->0@)] + addresses(emails),
        one.value is Some && trimmed(one.value->0@).len() > 0 && one.primary != Some(true)
            ==> addresses(emails.push(one)) == addresses(emails).push(trimmed(one.value->0@)),
        list is None ==> address_in(list) is None,
        list is Some ==> (address_in(list) is Some <==> addresses(list->0@).len() > 0),
        list is Some && addresses(list->0@).len() > 0 ==> address_in(list) == Some(
            addresses(list->0@)[0],
        ),
{
    assert(emails.push(one).drop_last() == emails);
}

/// A person is known by the id in the path, and the ids in the body have to
/// agree with it; without a path, by the external id, or else by the id.
pub proof fn whose_id_it_is(id: Option<Seq<char>>, external: Option<Seq<char>>, path: Seq<char>)
    ensures
        user_id(id, external, Some(path)) is Ok <==> id_of(path) is Some && (id is None || id_of(
            id->0,
        ) == id_of(path)) && (external is None || id_of(external->0) == id_of(path)),
        user_id(id, external, Some(path)) matches Ok(kept) ==> Some(kept) == id_of(path),
        external is Some ==> (user_id(id, external, None) is Ok <==> id_of(external->0) is Some),
        external is Some && id_of(external->0) is Some ==> Some(
            user_id(id, external, None)->Ok_0,
        ) == id_of(external->0),
        external is None && id is Some ==> (user_id(id, external, None) is Ok <==> id_of(
            id->0,
        ) is Some),
        external is None && id is Some && id_of(id->0) is Some ==> Some(
            user_id(id, external, None)->Ok_0,
        ) == id_of(id->0),
        external is None && id is None ==> user_id(id, external, None) is Err,
{
}

/// A person who comes with an id and a name to sign in with is taken as they
/// come: they show the name they are called by, or else the other one, and they
/// are active unless it is said that they are not.
pub proof fn a_person_is_taken_as_they_come(raw: UserIn, path: Option<Seq<char>>)
    ensures
        ({
            let id = user_id(text_of(raw.id), text_of(raw.external_id), path);
            let named = raw.user_name is Some && trimmed(raw.user_name->0@).len() > 0;
            let called = raw.display_name is Some && trimmed(raw.display_name->0@).len() > 0;
            &&& user_in(raw, path) is Ok <==> id is Ok && named
            &&& user_in(raw, path) matches Ok(user) ==> {
                &&& user.id == id->Ok_0
                &&& user.user_name == trimmed(raw.user_name->0@)
                &&& called ==> user.display_name == trimmed(raw.display_name->0@)
                &&& !called ==> user.display_name == user.user_name
                &&& user.email == address_in(raw.emails)
                &&& user.active <==> raw.active is None || raw.active->0
            }
        }),
{
}

/// A group that comes with an id and a name is taken as it comes, with the
/// members that are named, if any are.
pub proof fn a_group_is_taken_as_it_comes(raw: GroupIn, path: Seq<char>)
    ensures
        ({
            let named = raw.display_name is Some && trimmed(raw.display_name->0@).len() > 0;
            let members = raw.members is None || member_ids(raw.members->0@) is Ok;
            &&& group_in(raw, Some(path)) is Ok <==> id_of(path) is Some && named && members
            &&& group_in(raw, Some(path)) matches Ok(group) ==> {
                &&& Some(group.0) == id_of(path)
                &&& group.1 == trimmed(raw.display_name->0@)
                &&& raw.members is None ==> group.2 is None
                &&& raw.members is Some ==> group.2 == Some(member_ids(raw.members->0@)->Ok_0)
            }
            &&& group_in(raw, None) matches Ok(group) ==> {
                &&& raw.external_id is Some ==> Some(group.0) == id_of(raw.external_id->0@)
                &&& raw.external_id is None ==> raw.id is Some && Some(group.0) == id_of(
                    raw.id->0@,
                )
            }
        }),
{
}

/// One more member is one more id, and one without an id spoils the list.
pub proof fn one_more_member(members: Seq<MemberIn>, one: MemberIn)
    ensures
        member_ids(Seq::empty()) == Ok::<_, RefusedView>(Seq::<Seq<char>>::empty()),
        member_ids(members.push(one)) is Ok <==> member_ids(members) is Ok && one.value is Some
            && id_of(one.value->0@) is Some,
        member_ids(members.push(one)) matches Ok(ids) ==> ids == member_ids(members)->Ok_0.push(
            id_of(one.value->0@)->0,
        ),
{
    assert(members.push(one).drop_last() == members);
}

/// One more change adds to those who come or to those who go.
pub proof fn one_more_change(changes: Seq<ChangeView>, one: ChangeView, add: bool)
    ensures
        subjects_of(Seq::empty(), add) == Seq::<Seq<char>>::empty(),
        subjects_of(changes.push(one), add) == if one.add == add {
            subjects_of(changes, add).push(one.subject)
        } else {
            subjects_of(changes, add)
        },
{
    assert(changes.push(one).drop_last() == changes);
}

/// One more operation comes after the ones before it, and one that is refused
/// spoils the request. A request without an operation is refused.
pub proof fn one_more_operation(operations: Seq<OperationIn>, one: OperationIn, patch: PatchIn)
    ensures
        operations_in(Seq::empty()) == Ok::<_, RefusedView>(Seq::<ChangeView>::empty()),
        operations_in(operations.push(one)) is Ok <==> operations_in(operations) is Ok
            && operation_in(one) is Ok,
        operations_in(operations.push(one)) matches Ok(changes) ==> changes == operations_in(
            operations,
        )->Ok_0 + operation_in(one)->Ok_0,
        patch.operations is None ==> patch_in(patch) is Err,
        patch.operations is Some && patch.operations->0@.len() == 0 ==> patch_in(patch) is Err,
        patch.operations is Some && patch.operations->0@.len() > 0 ==> patch_in(patch)
            == operations_in(patch.operations->0@),
{
    assert(operations.push(one).drop_last() == operations);
}

/// A list of members who come or go is a change for each of them, in their
/// order.
pub proof fn a_change_for_each(add: bool, members: Vec<MemberIn>, i: int)
    ensures
        listed_changes(add, None) is Err,
        members@.len() == 0 ==> listed_changes(add, Some(Ok(members))) is Err,
        members@.len() > 0 ==> (listed_changes(add, Some(Ok(members))) is Ok <==> member_ids(
            members@,
        ) is Ok),
        members@.len() > 0 && member_ids(members@) is Ok ==> {
            let ids = member_ids(members@)->Ok_0;
            let changes = listed_changes(add, Some(Ok(members)))->Ok_0;
            &&& changes.len() == ids.len()
            &&& 0 <= i < ids.len() ==> changes[i] == (ChangeView { add, subject: ids[i] })
        },
        changes_of(add, Seq::empty()).len() == 0,
{
}

proof fn a_plain_path(path: Seq<char>)
    requires
        path == "members"@,
    ensures
        trimmed(path) == path,
        path_member(path) is None,
{
    reveal_strlit("members");
    reveal_strlit("members[value eq \"");
    assert(solid("members"@)) by {
        crate::laws::text::white_space_in_ascii('m');
        crate::laws::text::white_space_in_ascii('s');
    }
    trimming_leaves_the_middle(Seq::empty(), path, Seq::empty());
    assert(Seq::<char>::empty() + path + Seq::<char>::empty() == path);
}

/// Members are added and removed by a list under `members`; nothing else is
/// done to them there.
pub proof fn members_come_and_go(op: OperationIn, kind: Seq<char>)
    requires
        op.path is Some,
        op.path->0@ == "members"@,
        op.op is Some,
        ascii_lower(trimmed(op.op->0@)) == kind,
    ensures
        kind == seq!['a', 'd', 'd'] ==> operation_in(op) == listed_changes(true, op.value),
        kind == seq!['r', 'e', 'm', 'o', 'v', 'e'] ==> operation_in(op) == listed_changes(
            false,
            op.value,
        ),
        kind != seq!['a', 'd', 'd'] && kind != seq!['r', 'e', 'm', 'o', 'v', 'e'] ==> operation_in(
            op,
        ) is Err,
{
    reveal_strlit("add");
    reveal_strlit("remove");
    assert("add"@ == seq!['a', 'd', 'd']);
    assert("remove"@ == seq!['r', 'e', 'm', 'o', 'v', 'e']);
    assert("add"@.len() == 3 && "remove"@.len() == 6);
    a_plain_path("members"@);
}

/// One member is removed by their id in the path.
pub proof fn one_member_goes(op: OperationIn, id: Seq<char>)
    requires
        op.path is Some,
        op.path->0@ == "members[value eq \""@ + id + seq!['"', ']'],
        op.op is Some,
        ascii_lower(trimmed(op.op->0@)) == seq!['r', 'e', 'm', 'o', 'v', 'e'],
    ensures
        path_member(op.path->0@) == Some(id),
        op.value is Some ==> operation_in(op) is Err,
        op.value is None ==> (operation_in(op) is Ok <==> id_of(id) is Some),
        op.value is None && id_of(id) is Some ==> operation_in(op)->Ok_0 == seq![
            ChangeView { add: false, subject: id_of(id)->0 },
        ],
{
    reveal_strlit("members[value eq \"");
    reveal_strlit("\"]");
    reveal_strlit("remove");
    assert("remove"@ == seq!['r', 'e', 'm', 'o', 'v', 'e']);
    assert("\"]"@ == seq!['"', ']']);
    let path = op.path->0@;
    let start = "members[value eq \""@;
    assert(path[0] == 'm' && path.last() == ']');
    crate::laws::text::white_space_in_ascii('m');
    crate::laws::text::white_space_in_ascii(']');
    trimming_leaves_the_middle(Seq::empty(), path, Seq::empty());
    assert(Seq::<char>::empty() + path + Seq::<char>::empty() == path);
    assert(path.take(start.len() as int) == start);
    let rest = path.skip(start.len() as int);
    assert(rest == id + seq!['"', ']']);
    assert(rest.skip(rest.len() - 2) == seq!['"', ']']);
    assert(rest.take(rest.len() - 2) == id);
}

/// A filter asks for one value of one attribute.
pub proof fn a_filter_asks_for_one_value(attribute: Seq<char>, value: Seq<char>)
    requires
        attribute.len() > 0,
        !crate::text::white(attribute[0]),
        !value.contains('"'),
    ensures
        filter_value(
            attribute + seq![' ', 'e', 'q', ' ', '"'] + value + seq!['"'],
            attribute,
        ) == Some(value),
{
    reveal_strlit("eq");
    assert("eq"@ == seq!['e', 'q']);
    crate::laws::text::white_space_in_ascii('"');
    crate::laws::text::white_space_in_ascii(' ');
    crate::laws::text::white_space_in_ascii('e');
    let filter = attribute + seq![' ', 'e', 'q', ' ', '"'] + value + seq!['"'];
    assert(filter[0] == attribute[0] && filter.last() == '"');
    trimming_leaves_the_middle(Seq::empty(), filter, Seq::empty());
    assert(Seq::<char>::empty() + filter + Seq::<char>::empty() == filter);
    let n = attribute.len() as int;
    assert(filter.take(n) == attribute);
    let rest = filter.skip(n);
    assert(rest == seq![' ', 'e', 'q', ' ', '"'] + value + seq!['"']);
    let word = rest.drop_first();
    assert(word == seq!['e', 'q', ' ', '"'] + value + seq!['"']);
    assert(word[0] == 'e');
    assert(trim_start(word) == word);
    assert(trim_start(rest) == word);
    assert(word.take(2) == seq!['e', 'q']);
    let behind = word.skip(2);
    assert(behind == seq![' ', '"'] + value + seq!['"']);
    let quoted = behind.drop_first();
    assert(quoted == seq!['"'] + value + seq!['"']);
    assert(quoted[0] == '"');
    assert(trim_start(quoted) == quoted);
    assert(trim_start(behind) == quoted);
    assert(quoted.subrange(1, quoted.len() - 1) == value);
    assert(quoted.last() == '"');
}

/// What is answered of a person is what is known of them.
pub proof fn what_is_answered_of_a_person(user: UserView)
    ensures
        ({
            let t = user_tree(user);
            &&& t is Table
            &&& entry(t->Table_0, "id"@) == Some(TreeView::Text(user.id))
            &&& entry(t->Table_0, "externalId"@) == Some(TreeView::Text(user.id))
            &&& entry(t->Table_0, "userName"@) == Some(TreeView::Text(user.user_name))
            &&& entry(t->Table_0, "displayName"@) == Some(TreeView::Text(user.display_name))
            &&& entry(t->Table_0, "active"@) == Some(TreeView::Bool(user.active))
            &&& user.email is None ==> t->Table_0.len() == 7
            &&& user.email is Some ==> {
                &&& entry(t->Table_0, "emails"@) matches Some(TreeView::List(items))
                &&& items.len() == 1
                &&& items[0] matches TreeView::Table(one)
                &&& entry(one, "value"@) == Some(TreeView::Text(user.email->0))
            }
        }),
{
    reveal_strlit("schemas");
    reveal_strlit("id");
    reveal_strlit("externalId");
    reveal_strlit("userName");
    reveal_strlit("displayName");
    reveal_strlit("active");
    reveal_strlit("meta");
    reveal_strlit("emails");
    assert("schemas"@.len() == 7 && "id"@.len() == 2 && "externalId"@.len() == 10
        && "userName"@.len() == 8 && "displayName"@.len() == 11 && "active"@.len() == 6
        && "meta"@.len() == 4 && "emails"@.len() == 6);
    assert("active"@[0] != "emails"@[0]);
    let t = user_tree(user)->Table_0;
    found(t, 1);
    found(t, 2);
    found(t, 3);
    found(t, 4);
    found(t, 5);
    if user.email is Some {
        found(t, 7);
        let one = crate::web::scim::emails_view(user.email->0).1->List_0[0]->Table_0;
        found(one, 0);
    }
}

/// What is answered of a group is what is known of it, member by member.
pub proof fn what_is_answered_of_a_group(group: GroupView, i: int)
    ensures
        ({
            let t = group_tree(group);
            &&& t is Table
            &&& entry(t->Table_0, "id"@) == Some(TreeView::Text(group.id))
            &&& entry(t->Table_0, "externalId"@) == Some(TreeView::Text(group.id))
            &&& entry(t->Table_0, "displayName"@) == Some(TreeView::Text(group.name))
            &&& entry(t->Table_0, "members"@) matches Some(TreeView::List(items)) && {
                &&& items.len() == group.members.len()
                &&& 0 <= i < items.len() ==> items[i] == member_tree(group.members[i])
            }
        }),
        member_tree(group.id) matches TreeView::Table(one) && entry(one, "value"@) == Some(
            TreeView::Text(group.id),
        ),
{
    reveal_strlit("schemas");
    reveal_strlit("id");
    reveal_strlit("externalId");
    reveal_strlit("displayName");
    reveal_strlit("members");
    assert("schemas"@.len() == 7 && "id"@.len() == 2 && "externalId"@.len() == 10
        && "displayName"@.len() == 11 && "members"@.len() == 7);
    assert("schemas"@[0] != "members"@[0]);
    let t = group_tree(group)->Table_0;
    found(t, 1);
    found(t, 2);
    found(t, 3);
    found(t, 4);
    found(member_tree(group.id)->Table_0, 0);
}

/// A list says how many there are, where it begins, how many are in it, and
/// which.
pub proof fn what_a_list_says(total: i64, start: i64, resources: Seq<TreeView>)
    ensures
        ({
            let t = list_tree(total, start, resources);
            &&& t is Table
            &&& entry(t->Table_0, "totalResults"@) == Some(TreeView::Integer(total))
            &&& entry(t->Table_0, "startIndex"@) == Some(TreeView::Integer(start))
            &&& entry(t->Table_0, "itemsPerPage"@) == Some(
                TreeView::Integer(resources.len() as i64),
            )
            &&& entry(t->Table_0, "Resources"@) == Some(TreeView::List(resources))
        }),
{
    reveal_strlit("schemas");
    reveal_strlit("totalResults");
    reveal_strlit("startIndex");
    reveal_strlit("itemsPerPage");
    reveal_strlit("Resources");
    assert("schemas"@.len() == 7 && "totalResults"@.len() == 12 && "startIndex"@.len() == 10
        && "itemsPerPage"@.len() == 12 && "Resources"@.len() == 9);
    assert("totalResults"@[0] != "itemsPerPage"@[0]);
    let t = list_tree(total, start, resources)->Table_0;
    found(t, 1);
    found(t, 2);
    found(t, 3);
    found(t, 4);
}

/// A refusal says its status, why, and of which kind it is where there is one.
pub proof fn what_a_refusal_says(status: u16, kind: Seq<char>, detail: Seq<char>)
    ensures
        ({
            let t = refusal_tree(status, Some(kind), detail);
            &&& t is Table
            &&& entry(t->Table_0, "status"@) == Some(TreeView::Text(decimal_text(status as int)))
            &&& entry(t->Table_0, "detail"@) == Some(TreeView::Text(detail))
            &&& entry(t->Table_0, "scimType"@) == Some(TreeView::Text(kind))
            &&& refusal_tree(status, None, detail) == TreeView::Table(t->Table_0.take(3))
        }),
{
    reveal_strlit("schemas");
    reveal_strlit("status");
    reveal_strlit("detail");
    reveal_strlit("scimType");
    assert("schemas"@.len() == 7 && "status"@.len() == 6 && "detail"@.len() == 6
        && "scimType"@.len() == 8);
    assert("status"@[0] != "detail"@[0]);
    let t = refusal_tree(status, Some(kind), detail)->Table_0;
    found(t, 1);
    found(t, 2);
    found(t, 3);
    assert(t.take(3) == refusal_tree(status, None, detail)->Table_0);
}

/// A handle is kept unless somebody else has it.
pub proof fn a_handle_is_kept(wanted: Seq<char>, holders: Seq<Holder>, subject: Seq<char>, i: int)
    ensures
        handle_kept(None, holders, subject) is None,
        0 <= i < holders.len() && holders[i].handle@ == wanted && holders[i].subject@ != subject
            ==> handle_kept(Some(wanted), holders, subject) is None,
        (forall|k: int|
            0 <= k < holders.len() ==> (#[trigger] holders[k]).handle@ != wanted
                || holders[k].subject@ == subject) ==> handle_kept(Some(wanted), holders, subject)
            == Some(wanted),
{
}

/// The first group with an id is the one that is meant by it; it is replaced
/// and removed where it stands, and a new one comes last.
pub proof fn a_group_by_its_id(
    front: Seq<GroupView>,
    group: GroupView,
    back: Seq<GroupView>,
    other: GroupView,
)
    requires
        forall|i: int| 0 <= i < front.len() ==> (#[trigger] front[i]).id != group.id,
        other.id == group.id,
    ensures
        group_called(front.push(group) + back, group.id) == Some(group),
        group_called(front, group.id) is None,
        groups_with(front.push(group) + back, other) == front.push(other) + back,
        groups_with(front, group) == front.push(group),
        groups_without(front.push(group) + back, group.id) == front + back,
        groups_without(front, group.id) == front,
{
    let all = front.push(group) + back;
    stands_at(front, group, back);
    assert(all[front.len() as int] == group);
    assert(all.update(front.len() as int, other) == front.push(other) + back);
    assert(all.remove(front.len() as int) == front + back);
}

proof fn stands_at(front: Seq<GroupView>, group: GroupView, back: Seq<GroupView>)
    requires
        forall|i: int| 0 <= i < front.len() ==> (#[trigger] front[i]).id != group.id,
    ensures
        place_of(front.push(group) + back, group.id) == front.len(),
        place_of(front, group.id) == front.len(),
    decreases front.len(),
{
    let all = front.push(group) + back;
    if front.len() > 0 {
        let rest = front.drop_first();
        assert forall|i: int| 0 <= i < rest.len() implies (#[trigger] rest[i]).id != group.id by {
            assert(rest[i] == front[i + 1]);
        }
        stands_at(rest, group, back);
        assert(all.drop_first() == rest.push(group) + back);
        assert(all[0] == front[0]);
    } else {
        assert(all[0] == group);
    }
}

/// Whoever leaves is in no group any more, reads nothing and is not active;
/// nobody else's groups change.
pub proof fn whoever_leaves(
    groups: Seq<GroupView>,
    readers: Seq<ReaderView>,
    id: Seq<char>,
    i: int,
    j: int,
)
    requires
        0 <= i < groups.len(),
        0 <= j < readers.len(),
    ensures
        groups_left(groups, id).len() == groups.len(),
        groups_left(groups, id)[i].id == groups[i].id,
        groups_left(groups, id)[i].name == groups[i].name,
        groups_left(groups, id)[i].members == all_but(groups[i].members, id),
        readers_left(readers, id).len() == readers.len(),
        readers[j].subject != id ==> readers_left(readers, id)[j] == readers[j],
        readers[j].subject == id ==> readers_left(readers, id)[j] == (ReaderView {
            subject: id,
            active: false,
            groups: Seq::empty(),
        }),
{
}

/// Those who are touched are worked out again, and nobody else is.
pub proof fn whoever_is_touched(
    readers: Seq<ReaderView>,
    groups: Seq<GroupView>,
    subjects: Seq<Seq<char>>,
    i: int,
)
    requires
        0 <= i < readers.len(),
    ensures
        readers_after(readers, groups, subjects).len() == readers.len(),
        subjects.contains(readers[i].subject) ==> readers_after(readers, groups, subjects)[i]
            == settled(readers[i], groups),
        !subjects.contains(readers[i].subject) ==> readers_after(readers, groups, subjects)[i]
            == readers[i],
{
}

/// Members are removed one by one, and one by one left out of a list.
pub proof fn one_more_to_remove(
    list: Seq<Seq<char>>,
    these: Seq<Seq<char>>,
    one: Seq<char>,
    other: Seq<char>,
)
    ensures
        all_but_these(list, Seq::empty()) == list,
        all_but_these(list, these.push(one)) == all_but(all_but_these(list, these), one),
        all_but(list.push(one), one) == all_but(list, one),
        other != one ==> all_but(list.push(other), one) == all_but(list, one).push(other),
        all_but(Seq::empty(), one) == Seq::<Seq<char>>::empty(),
{
    assert(these.push(one).drop_last() == these);
    assert(list.push(one).drop_last() == list);
    assert(list.push(other).drop_last() == list);
}

/// Everybody is listed who has the name that is asked for, and everybody where
/// none is.
pub proof fn one_more_to_list(
    users: Seq<User>,
    user: User,
    groups: Seq<Group>,
    group: Group,
    name: Seq<char>,
)
    ensures
        users_named(users.push(user), None) == users_named(users, None).push(user),
        users_named(users.push(user), Some(name)) == if user.user_name@ == name {
            users_named(users, Some(name)).push(user)
        } else {
            users_named(users, Some(name))
        },
        groups_named(groups.push(group), None) == groups_named(groups, None).push(group),
        groups_named(groups.push(group), Some(name)) == if group.name@ == name {
            groups_named(groups, Some(name)).push(group)
        } else {
            groups_named(groups, Some(name))
        },
        users_named(Seq::empty(), Some(name)) == Seq::<User>::empty(),
        groups_named(Seq::empty(), Some(name)) == Seq::<Group>::empty(),
{
    assert(users.push(user).drop_last() == users);
    assert(groups.push(group).drop_last() == groups);
}

/// A list begins at the first entry, which is number one, and has no more than
/// two hundred.
pub proof fn where_a_list_begins(start: i64, count: i64)
    ensures
        start >= 1 ==> entries_before(start) == start - 1,
        start < 1 ==> entries_before(start) == 0,
        0 <= count <= 200 ==> entries_on_page(count) == count,
        count > 200 ==> entries_on_page(count) == 200,
        count < 0 ==> entries_on_page(count) == 0,
{
}

/// The directory is told what it can do here: filter, and nothing else.
pub proof fn what_can_be_done_here()
    ensures
        ({
            let t = provider_tree()->Table_0;
            let no = TreeView::Table(seq![("supported"@, TreeView::Bool(false))]);
            &&& provider_tree() is Table
            &&& t.contains(("patch"@, no))
            &&& t.contains(("changePassword"@, no))
            &&& t.contains(("sort"@, no))
            &&& t.contains(("etag"@, no))
            &&& t.contains(
                (
                    "filter"@,
                    TreeView::Table(
                        seq![
                            ("supported"@, TreeView::Bool(true)),
                            ("maxResults"@, TreeView::Integer(200)),
                        ],
                    ),
                ),
            )
            &&& t.contains(
                (
                    "bulk"@,
                    TreeView::Table(
                        seq![
                            ("supported"@, TreeView::Bool(false)),
                            ("maxOperations"@, TreeView::Integer(0)),
                            ("maxPayloadSize"@, TreeView::Integer(0)),
                        ],
                    ),
                ),
            )
        }),
{
    let t = provider_tree()->Table_0;
    let no = TreeView::Table(seq![("supported"@, TreeView::Bool(false))]);
    assert(t[2] == ("patch"@, no));
    assert(t[5] == ("changePassword"@, no));
    assert(t[6] == ("sort"@, no));
    assert(t[7] == ("etag"@, no));
    assert(t[4] == (
        "filter"@,
        TreeView::Table(
            seq![
                ("supported"@, TreeView::Bool(true)),
                ("maxResults"@, TreeView::Integer(200)),
            ],
        ),
    ));
    assert(t[3] == (
        "bulk"@,
        TreeView::Table(
            seq![
                ("supported"@, TreeView::Bool(false)),
                ("maxOperations"@, TreeView::Integer(0)),
                ("maxPayloadSize"@, TreeView::Integer(0)),
            ],
        ),
    ));
}

} // verus!
