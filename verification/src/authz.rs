//! Who may do what. This module knows **no HTTP and no database**, so that the
//! rules are decided once instead of seeping into handlers, where every route
//! would decide them again slightly differently.
use crate::config::{spaces_view, Category, CategoryView, Config, Space, SpaceView};
use crate::text::{same, text_of, texts};
use vstd::prelude::*;

verus! {

#[derive(Debug, Clone)]
pub struct Identity {
    /// The `sub` claim. *It* is the person, not the name: names change, and
    /// matching on one hands other people's posts to a namesake.
    pub subject: String,
    pub name: String,
    pub groups: Vec<String>,
    /// Where a notification may be sent. Not an identity.
    pub email: Option<String>,
    /// What they are mentioned by.
    pub handle: Option<String>,
}

pub struct IdentityView {
    pub subject: Seq<char>,
    pub name: Seq<char>,
    pub groups: Seq<Seq<char>>,
    pub email: Option<Seq<char>>,
    pub handle: Option<Seq<char>>,
}

impl View for Identity {
    type V = IdentityView;

    open spec fn view(&self) -> IdentityView {
        IdentityView {
            subject: self.subject@,
            name: self.name@,
            groups: texts(self.groups@),
            email: text_of(self.email),
            handle: text_of(self.handle),
        }
    }
}

/// Do the two lists have a group in common?
pub open spec fn shares_group(groups: Seq<Seq<char>>, allowed: Seq<Seq<char>>) -> bool {
    exists|i: int, j: int|
        0 <= i < groups.len() && 0 <= j < allowed.len() && #[trigger] groups[i]
            == #[trigger] allowed[j]
}

/// Is this text one of the list?
pub fn listed(list: &[String], wanted: &str) -> (r: bool)
    ensures
        r == texts(list@).contains(wanted@),
{
    let mut i: usize = 0;
    while i < list.len()
        invariant
            i <= list@.len(),
            forall|k: int| 0 <= k < i ==> texts(list@)[k] != wanted@,
        decreases list@.len() - i,
    {
        if same(&list[i], wanted) {
            assert(texts(list@)[i as int] == wanted@);
            return true;
        }
        i += 1;
    }
    false
}

impl Identity {
    /// True if this identity is in at least one of `allowed`. An empty
    /// `allowed` therefore grants nothing, which is the whole point.
    pub fn in_any(&self, allowed: &[String]) -> (r: bool)
        ensures
            r == shares_group(self@.groups, texts(allowed@)),
    {
        let ghost groups = self@.groups;
        let mut j: usize = 0;
        while j < allowed.len()
            invariant
                j <= allowed@.len(),
                groups == texts(self.groups@),
                forall|i: int, k: int|
                    0 <= i < groups.len() && 0 <= k < j ==> #[trigger] groups[i]
                        != #[trigger] texts(allowed@)[k],
            decreases allowed@.len() - j,
        {
            if listed(&self.groups, &allowed[j]) {
                let ghost i = choose|i: int| 0 <= i < groups.len() && groups[i] == allowed@[j as int]@;
                assert(groups[i] == texts(allowed@)[j as int]);
                return true;
            }
            assert forall|i: int, k: int| 0 <= i < groups.len() && 0 <= k < j + 1 implies #[trigger] groups[i]
                != #[trigger] texts(allowed@)[k] by {
                if k == j {
                    assert(texts(allowed@)[k] == allowed@[j as int]@);
                }
            }
            j += 1;
        }
        false
    }
}

/// May this person read the space?
pub open spec fn reads(id: IdentityView, space: SpaceView) -> bool {
    shares_group(id.groups, space.read)
}

/// May this person open a topic in the category?
pub open spec fn posts(id: IdentityView, cat: CategoryView) -> bool {
    shares_group(id.groups, cat.post)
}

/// May this person reply in the category?
pub open spec fn replies(id: IdentityView, cat: CategoryView) -> bool {
    shares_group(id.groups, cat.reply)
}

pub fn may_read(id: &Identity, space: &Space) -> (r: bool)
    ensures
        r == reads(id@, space@),
{
    id.in_any(&space.read)
}

pub fn may_post(id: &Identity, cat: &Category) -> (r: bool)
    ensures
        r == posts(id@, cat@),
{
    id.in_any(&cat.post)
}

pub fn may_reply(id: &Identity, cat: &Category) -> (r: bool)
    ensures
        r == replies(id@, cat@),
{
    id.in_any(&cat.reply)
}

/// The hosts of the spaces this person may read.
pub open spec fn hosts_read(id: IdentityView, spaces: Seq<SpaceView>) -> Seq<Seq<char>>
    decreases spaces.len(),
{
    if spaces.len() == 0 {
        Seq::empty()
    } else {
        let before = hosts_read(id, spaces.drop_last());
        if reads(id, spaces.last()) {
            before.push(spaces.last().host)
        } else {
            before
        }
    }
}

/// The spaces whose entries the bell of this person shows: exactly those they
/// may read.
pub fn readable(config: &Config, who: &Identity) -> (r: Vec<String>)
    ensures
        texts(r@) == hosts_read(who@, config@.spaces),
{
    let ghost all = spaces_view(config.spaces@);
    let mut out: Vec<String> = Vec::new();
    let mut i: usize = 0;
    assert(texts(out@) == hosts_read(who@, all.take(0)));
    while i < config.spaces.len()
        invariant
            i <= config.spaces@.len(),
            all == spaces_view(config.spaces@),
            texts(out@) == hosts_read(who@, all.take(i as int)),
        decreases config.spaces@.len() - i,
    {
        let space = &config.spaces[i];
        assert(all.take(i + 1).drop_last() == all.take(i as int));
        assert(all.take(i + 1).last() == space@);
        if may_read(who, space) {
            let ghost before = texts(out@);
            out.push(space.host.clone());
            assert(texts(out@) == before.push(space@.host));
        }
        i += 1;
    }
    assert(all.take(i as int) == all);
    out
}

/// Everyone edits and deletes their own, and nobody else's, including whoever
/// runs the instance. There is no moderation layer on purpose.
pub fn may_modify(id: &Identity, author_subject: &str) -> (r: bool)
    ensures
        r == (id@.subject == author_subject@),
{
    same(&id.subject, author_subject)
}

/// Fail closed: an empty list is not "everybody", it is "nobody".
pub proof fn an_empty_list_grants_nothing(id: IdentityView, space: SpaceView, cat: CategoryView)
    ensures
        space.read.len() == 0 ==> !reads(id, space),
        cat.post.len() == 0 ==> !posts(id, cat),
        cat.reply.len() == 0 ==> !replies(id, cat),
{
}

/// Someone with no groups may nothing.
pub proof fn no_groups_no_rights(id: IdentityView, space: SpaceView, cat: CategoryView)
    requires
        id.groups.len() == 0,
    ensures
        !reads(id, space),
        !posts(id, cat),
        !replies(id, cat),
{
}

/// What somebody may do follows from their groups alone: not from their name,
/// their address or their handle.
pub proof fn only_groups_decide(
    a: IdentityView,
    b: IdentityView,
    space: SpaceView,
    cat: CategoryView,
)
    requires
        a.groups == b.groups,
    ensures
        reads(a, space) == reads(b, space),
        posts(a, cat) == posts(b, cat),
        replies(a, cat) == replies(b, cat),
{
}

/// One more group never takes a right away.
pub proof fn more_groups_more_rights(
    few: IdentityView,
    many: IdentityView,
    space: SpaceView,
    cat: CategoryView,
)
    requires
        forall|i: int|
            0 <= i < few.groups.len() ==> many.groups.contains(#[trigger] few.groups[i]),
    ensures
        reads(few, space) ==> reads(many, space),
        posts(few, cat) ==> posts(many, cat),
        replies(few, cat) ==> replies(many, cat),
{
    assert forall|allowed: Seq<Seq<char>>| shares_group(few.groups, allowed) implies shares_group(
        many.groups,
        allowed,
    ) by {
        let (i, j) = choose|i: int, j: int|
            0 <= i < few.groups.len() && 0 <= j < allowed.len() && #[trigger] few.groups[i]
                == #[trigger] allowed[j];
        let k = choose|k: int| 0 <= k < many.groups.len() && many.groups[k] == few.groups[i];
        assert(many.groups[k] == allowed[j]);
    }
}

} // verus!
