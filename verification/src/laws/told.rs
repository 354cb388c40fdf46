//! Who hears of a mention, of a like, and who may be mentioned.
use crate::authz::shares_group;
use crate::config::SpaceView;
use crate::db::accounts::{answering, KnownView};
use crate::db::inbox::{all_but, Reason};
use crate::db::likes::{
    likers_after, noted_after, noted_like, toggled, without_likes, LikedPostView, NotedView,
    Outcome, ToggleView,
};
use crate::markup::mentioned;
use crate::mentions::{
    handles_among, marked_on, mentioned_by, offer_before, offerable, offers_are_in_order, reading,
    told, OfferView,
};
use crate::order::{arranged, each_once, in_order, once_each, text_before};
use vstd::prelude::*;

verus! {

/// Is one of the groups on the list?
pub open spec fn one_is_listed(groups: Seq<Seq<char>>, list: Seq<Seq<char>>) -> bool {
    exists|g: Seq<char>| #[trigger] groups.contains(g) && list.contains(g)
}

proof fn sharing(groups: Seq<Seq<char>>, list: Seq<Seq<char>>)
    ensures
        shares_group(groups, list) == one_is_listed(groups, list),
{
    if shares_group(groups, list) {
        let (i, j) = choose|i: int, j: int|
            0 <= i < groups.len() && 0 <= j < list.len() && #[trigger] groups[i]
                == #[trigger] list[j];
        assert(groups.contains(groups[i]));
        assert(list.contains(list[j]));
    }
    if one_is_listed(groups, list) {
        let g = choose|g: Seq<char>| #[trigger] groups.contains(g) && list.contains(g);
        let i = choose|i: int| 0 <= i < groups.len() && groups[i] == g;
        let j = choose|j: int| 0 <= j < list.len() && list[j] == g;
        assert(groups[i] == list[j]);
    }
}

/// With one more account, one more person is told of a text: if the text
/// mentions the handle, if one of the person's groups may read the space, and
/// if they did not write it themselves. Without accounts nobody is told.
pub proof fn one_more_account_is_told(
    accounts: Seq<KnownView>,
    one: KnownView,
    space: SpaceView,
    writer: Seq<char>,
    markdown: Seq<char>,
)
    ensures
        told(Seq::empty(), space, writer, markdown) == Seq::<Seq<char>>::empty(),
        told(accounts.push(one), space, writer, markdown) == if mentioned(markdown).contains(
            one.handle,
        ) && one_is_listed(one.groups, space.read) && one.subject != writer {
            told(accounts, space, writer, markdown).push(one.subject)
        } else {
            told(accounts, space, writer, markdown)
        },
{
    sharing(one.groups, space.read);
    let handles = mentioned(markdown);
    let found = answering(accounts, handles);
    let readers = reading(found, space);
    assert(accounts.push(one).drop_last() == accounts);
    assert(found.push(one).drop_last() == found);
    assert(readers.push(one).drop_last() == readers);
}

proof fn mentioned_somewhere(bodies: Seq<Seq<char>>, handle: Seq<char>)
    ensures
        mentioned_by(bodies).contains(handle) <==> exists|i: int|
            0 <= i < bodies.len() && mentioned(#[trigger] bodies[i]).contains(handle),
    decreases bodies.len(),
{
    if bodies.len() > 0 {
        let front = bodies.drop_last();
        mentioned_somewhere(front, handle);
        let (a, b) = (mentioned_by(front), mentioned(bodies.last()));
        assert(mentioned_by(bodies) == a + b);
        if (a + b).contains(handle) {
            let k = choose|k: int| 0 <= k < (a + b).len() && (a + b)[k] == handle;
            if k < a.len() {
                assert(a.contains(a[k]));
                let i = choose|i: int|
                    0 <= i < front.len() && mentioned(#[trigger] front[i]).contains(handle);
                assert(bodies[i] == front[i]);
            } else {
                assert(b.contains(b[k - a.len()]));
                assert(bodies[bodies.len() - 1] == bodies.last());
            }
        }
        if exists|i: int| 0 <= i < bodies.len() && mentioned(#[trigger] bodies[i]).contains(handle)
        {
            let i = choose|i: int|
                0 <= i < bodies.len() && mentioned(#[trigger] bodies[i]).contains(handle);
            if i < front.len() {
                assert(front[i] == bodies[i]);
                let k = choose|k: int| 0 <= k < a.len() && a[k] == handle;
                assert((a + b)[k] == handle);
            } else {
                let k = choose|k: int| 0 <= k < b.len() && b[k] == handle;
                assert((a + b)[a.len() + k] == handle);
            }
        }
    }
}

/// With one more account, one more handle is marked on a page: if one of the
/// texts on it mentions the handle, and one of the person's groups may read the
/// space.
pub proof fn one_more_account_is_marked(
    accounts: Seq<KnownView>,
    one: KnownView,
    space: SpaceView,
    bodies: Seq<Seq<char>>,
)
    ensures
        marked_on(Seq::empty(), space, bodies) == Seq::<Seq<char>>::empty(),
        marked_on(accounts.push(one), space, bodies) == if (exists|i: int|
            0 <= i < bodies.len() && mentioned(#[trigger] bodies[i]).contains(one.handle))
            && one_is_listed(one.groups, space.read) {
            marked_on(accounts, space, bodies).push(one.handle)
        } else {
            marked_on(accounts, space, bodies)
        },
{
    sharing(one.groups, space.read);
    mentioned_somewhere(bodies, one.handle);
    each_once(mentioned_by(bodies));
    let handles = once_each(mentioned_by(bodies));
    assert(handles.contains(one.handle) == mentioned_by(bodies).contains(one.handle));
    let found = answering(accounts, handles);
    let readers = reading(found, space);
    assert(accounts.push(one).drop_last() == accounts);
    assert(found.push(one).drop_last() == found);
    assert(readers.push(one).drop_last() == readers);
    assert(handles_among(readers.push(one)) == handles_among(readers).push(one.handle));
    assert(marked_on(Seq::empty(), space, bodies) == Seq::<Seq<char>>::empty());
}

/// With one more account, one more person can be picked while writing: anybody
/// else who may read the space, by their name and their handle.
pub proof fn one_more_account_is_offered(
    accounts: Seq<(Seq<char>, KnownView)>,
    name: Seq<char>,
    one: KnownView,
    space: SpaceView,
    writer: Seq<char>,
)
    ensures
        offerable(Seq::empty(), space, writer) == Seq::<OfferView>::empty(),
        offerable(accounts.push((name, one)), space, writer) == if one_is_listed(
            one.groups,
            space.read,
        ) && one.subject != writer {
            offerable(accounts, space, writer).push(OfferView { name, handle: one.handle })
        } else {
            offerable(accounts, space, writer)
        },
{
    sharing(one.groups, space.read);
    assert(accounts.push((name, one)).drop_last() == accounts);
}

/// Of two people who can be picked the one whose name comes first in small
/// letters stands first, and of two with one name the one whose handle does.
pub proof fn names_stand_in_order(
    accounts: Seq<(Seq<char>, KnownView)>,
    space: SpaceView,
    writer: Seq<char>,
    i: int,
    j: int,
)
    requires
        0 <= i < j < offerable(accounts, space, writer).len(),
    ensures
        ({
            let all = offerable(accounts, space, writer);
            let shown = arranged(all, |a: OfferView, b: OfferView| offer_before(a, b));
            let first = crate::mentions::lowercased(shown[i].name);
            let second = crate::mentions::lowercased(shown[j].name);
            &&& shown.len() == all.len()
            &&& shown.to_multiset() == all.to_multiset()
            &&& !text_before(second, first)
            &&& first == second ==> !text_before(shown[j].handle, shown[i].handle)
        }),
{
    let all = offerable(accounts, space, writer);
    let before = |a: OfferView, b: OfferView| offer_before(a, b);
    let shown = arranged(all, before);
    assert forall|a: OfferView| !#[trigger] before(a, a) by {
        crate::order::text_before_irreflexive(crate::mentions::lowercased(a.name));
        crate::order::text_before_irreflexive(a.handle);
    }
    offers_are_in_order(accounts, space, writer);
    offer_order_holds(all);
    assert(in_order(shown, before));
    assert(!before(shown[j], shown[i]));
}

proof fn offer_order_holds(all: Seq<OfferView>)
    ensures
        ({
            let before = |a: OfferView, b: OfferView| offer_before(a, b);
            &&& in_order(arranged(all, before), before)
            &&& arranged(all, before).len() == all.len()
            &&& arranged(all, before).to_multiset() == all.to_multiset()
        }),
{
    let before = |a: OfferView, b: OfferView| offer_before(a, b);
    assert forall|a: OfferView| !#[trigger] before(a, a) by {
        crate::order::text_before_irreflexive(crate::mentions::lowercased(a.name));
        crate::order::text_before_irreflexive(a.handle);
    }
    assert forall|a: OfferView, b: OfferView, c: OfferView| #[trigger]
        before(a, b) && #[trigger] before(b, c) implies before(a, c) by {
        let (x, y, z) = (
            crate::mentions::lowercased(a.name),
            crate::mentions::lowercased(b.name),
            crate::mentions::lowercased(c.name),
        );
        if text_before(x, y) && text_before(y, z) {
            crate::order::text_before_transitive(x, y, z);
        }
        if text_before(a.handle, b.handle) && text_before(b.handle, c.handle) {
            crate::order::text_before_transitive(a.handle, b.handle, c.handle);
        }
    }
    assert forall|a: OfferView, b: OfferView, c: OfferView|
        !#[trigger] before(a, b) && !#[trigger] before(b, c) implies !before(a, c) by {
        let (x, y, z) = (
            crate::mentions::lowercased(a.name),
            crate::mentions::lowercased(b.name),
            crate::mentions::lowercased(c.name),
        );
        crate::order::text_before_total(x, y);
        crate::order::text_before_total(y, z);
        crate::order::text_before_total(x, z);
        crate::order::text_before_total(a.handle, b.handle);
        crate::order::text_before_total(b.handle, c.handle);
        crate::order::text_before_total(a.handle, c.handle);
        if text_before(z, y) && text_before(y, x) {
            crate::order::text_before_transitive(z, y, x);
        }
        if text_before(c.handle, b.handle) && text_before(b.handle, a.handle) {
            crate::order::text_before_transitive(c.handle, b.handle, a.handle);
        }
    }
    crate::order::arranging_orders(all, before);
}

proof fn nobody_to_leave_out(list: Seq<Seq<char>>, one: Seq<char>)
    requires
        !list.contains(one),
    ensures
        all_but(list, one) == list,
    decreases list.len(),
{
    if list.len() > 0 {
        assert(list.contains(list.last()));
        assert forall|x: Seq<char>| list.drop_last().contains(x) implies list.contains(x) by {
            let i = choose|i: int| 0 <= i < list.drop_last().len() && list.drop_last()[i] == x;
            assert(list[i] == x);
        }
        nobody_to_leave_out(list.drop_last(), one);
        assert(list == list.drop_last().push(list.last()));
    }
}

proof fn one_to_leave_out(front: Seq<Seq<char>>, one: Seq<char>, back: Seq<Seq<char>>)
    requires
        !front.contains(one),
        !back.contains(one),
    ensures
        all_but(front.push(one) + back, one) == front + back,
    decreases back.len(),
{
    let list = front.push(one) + back;
    if back.len() == 0 {
        assert(list.drop_last() == front);
        nobody_to_leave_out(front, one);
        assert(front + back == front);
    } else {
        assert(back.contains(back.last()));
        assert forall|x: Seq<char>| back.drop_last().contains(x) implies back.contains(x) by {
            let i = choose|i: int| 0 <= i < back.drop_last().len() && back.drop_last()[i] == x;
            assert(back[i] == x);
        }
        assert(list.drop_last() == front.push(one) + back.drop_last());
        one_to_leave_out(front, one, back.drop_last());
        assert(front + back == (front + back.drop_last()).push(back.last()));
    }
}

/// Somebody who does not like a post yet, and did not write it, likes it with
/// one click: there is one like more, and the author's bell rings. The bell for
/// an article rings at its owner's, unless the click is the owner's own.
pub proof fn the_first_click_likes(
    post: LikedPostView,
    who: Seq<char>,
    owner: Option<Seq<char>>,
    likers: Seq<Seq<char>>,
)
    requires
        post.author_subject != who,
        !likers.contains(who),
        likers.len() < i64::MAX,
    ensures
        ({
            let t = toggled(Some(post), post.space, who, owner, likers);
            &&& likers_after(likers, who) == likers.push(who)
            &&& t.outcome == Outcome::Toggled {
                liked: true,
                count: (likers.len() + 1) as i64,
                topic_id: post.topic_id,
            }
            &&& !t.forget
            &&& !(post.mirrored && post.opens) ==> t.tell == Some(post.author_subject)
            &&& post.mirrored && post.opens && owner == Some(who) ==> t.tell is None
            &&& post.mirrored && post.opens && owner != Some(who) ==> t.tell == owner
        }),
{
}

/// Somebody who likes a post takes it back with one click: everybody else still
/// likes it, nobody is told, and the bell forgets the likes with the last one.
pub proof fn the_next_click_takes_it_back(
    post: LikedPostView,
    who: Seq<char>,
    owner: Option<Seq<char>>,
    front: Seq<Seq<char>>,
    back: Seq<Seq<char>>,
)
    requires
        post.author_subject != who,
        !front.contains(who),
        !back.contains(who),
        front.len() + back.len() < i64::MAX,
    ensures
        ({
            let t = toggled(Some(post), post.space, who, owner, front.push(who) + back);
            &&& likers_after(front.push(who) + back, who) == front + back
            &&& t.outcome == Outcome::Toggled {
                liked: false,
                count: (front.len() + back.len()) as i64,
                topic_id: post.topic_id,
            }
            &&& t.tell is None
            &&& t.forget <==> front.len() + back.len() == 0
        }),
{
    one_to_leave_out(front, who, back);
    assert((front.push(who) + back)[front.len() as int] == who);
    assert((front.push(who) + back).contains(who));
}

/// Nobody likes their own post, and nobody a post that is not here.
pub proof fn a_click_that_changes_nothing(
    post: LikedPostView,
    space: Seq<char>,
    who: Seq<char>,
    owner: Option<Seq<char>>,
    likers: Seq<Seq<char>>,
)
    ensures
        toggled(None, space, who, owner, likers).outcome == Outcome::NotFound,
        space != post.space ==> toggled(Some(post), space, who, owner, likers).outcome
            == Outcome::NotFound,
        space == post.space && post.author_subject == who ==> toggled(
            Some(post),
            space,
            who,
            owner,
            likers,
        ).outcome == Outcome::OwnPost,
        post.author_subject == who || space != post.space ==> {
            let t = toggled(Some(post), space, who, owner, likers);
            t.tell is None && !t.forget
        },
        toggled(None, space, who, owner, likers).tell is None,
        !toggled(None, space, who, owner, likers).forget,
{
}

/// A like rings the bell of the one who is told: there is a new entry of the
/// moment, or the entry about the likes is new again. Every other entry stays.
pub proof fn a_like_rings_once(rows: Seq<NotedView>, who: Seq<char>, now: i64, i: int)
    requires
        0 <= i < rows.len(),
    ensures
        ({
            let after = noted_like(rows, who, now);
            let there = exists|k: int| 0 <= k < rows.len() && (#[trigger] rows[k]).subject == who;
            &&& rows[i].subject == who && rows[i].reason == Reason::Like ==> after[i]
                == NotedView { subject: who, reason: Reason::Like, at: now, unread: true }
            &&& rows[i].subject != who || rows[i].reason != Reason::Like ==> after[i] == rows[i]
            &&& there ==> after.len() == rows.len()
            &&& !there ==> after.len() == rows.len() + 1 && after.last() == (NotedView {
                subject: who,
                reason: Reason::Like,
                at: now,
                unread: true,
            })
        }),
        noted_like(Seq::empty(), who, now) == seq![
            NotedView { subject: who, reason: Reason::Like, at: now, unread: true },
        ],
{
    assert(noted_like(Seq::empty(), who, now) =~= seq![
        NotedView { subject: who, reason: Reason::Like, at: now, unread: true },
    ]);
}

/// When nobody likes a post any more, the bell forgets the likes and nothing
/// else; otherwise it forgets nothing.
pub proof fn the_bell_forgets_likes_only(
    rows: Seq<NotedView>,
    one: NotedView,
    toggle: ToggleView,
    now: i64,
)
    ensures
        without_likes(rows.push(one)) == if one.reason == Reason::Like {
            without_likes(rows)
        } else {
            without_likes(rows).push(one)
        },
        without_likes(Seq::empty()) == Seq::<NotedView>::empty(),
        toggle.tell is None && !toggle.forget ==> noted_after(rows, toggle, now) == rows,
        toggle.tell is None && toggle.forget ==> noted_after(rows, toggle, now) == without_likes(
            rows,
        ),
        toggle.tell is Some && !toggle.forget ==> noted_after(rows, toggle, now) == noted_like(
            rows,
            toggle.tell->0,
            now,
        ),
{
    assert(rows.push(one).drop_last() == rows);
}

} // verus!
