//! Likes: one heart per person and post.
//!
//! A like is decided together with the entry that tells the author: a like
//! that exists while its entry does not is a like nobody hears about. Nothing
//! here writes to the outbox: "no mail" is a property of this file, not a
//! switch.
use crate::authz::{listed, Identity};
use crate::db::inbox::{all_but, all_but_one, everybody_but, Reason};
use crate::text::{same, text_of, texts};
use std::collections::HashMap;
use vstd::prelude::*;

verus! {

/// What a click on the heart did.
#[derive(Debug, Clone, Copy, PartialEq, Eq, Structural)]
pub enum Outcome {
    /// The like is now on (`liked`) or off, and this many people like the post
    /// now. `topic_id` is where the page goes back to.
    Toggled { liked: bool, count: i64, topic_id: i64 },
    /// Your own post: the count is the whole point, and counting yourself
    /// would be no count.
    OwnPost,
    /// No such post in this space: the other address's posts are simply not
    /// here.
    NotFound,
}

/// The post a heart stands under.
#[derive(Debug)]
pub struct LikedPost {
    pub author_subject: String,
    pub topic_id: i64,
    pub space: String,
    /// Does the topic come from a file?
    pub mirrored: bool,
    /// Is this the post that opens the topic?
    pub opens: bool,
}

pub struct LikedPostView {
    pub author_subject: Seq<char>,
    pub topic_id: i64,
    pub space: Seq<char>,
    pub mirrored: bool,
    pub opens: bool,
}

impl View for LikedPost {
    type V = LikedPostView;

    open spec fn view(&self) -> LikedPostView {
        LikedPostView {
            author_subject: self.author_subject@,
            topic_id: self.topic_id,
            space: self.space@,
            mirrored: self.mirrored,
            opens: self.opens,
        }
    }
}

/// What a click on the heart changes.
#[derive(Debug)]
pub struct Toggle {
    pub outcome: Outcome,
    /// Whose bell rings, if anybody's does.
    pub tell: Option<String>,
    /// Does the entry in the bell go? Nobody likes the post any more: an entry
    /// saying somebody does would be a lie the reader can check.
    pub forget: bool,
}

pub struct ToggleView {
    pub outcome: Outcome,
    pub tell: Option<Seq<char>>,
    pub forget: bool,
}

impl View for Toggle {
    type V = ToggleView;

    open spec fn view(&self) -> ToggleView {
        ToggleView { outcome: self.outcome, tell: text_of(self.tell), forget: self.forget }
    }
}

/// Who likes the post after the click.
pub open spec fn likers_after(likers: Seq<Seq<char>>, who: Seq<char>) -> Seq<Seq<char>> {
    if likers.contains(who) {
        all_but(likers, who)
    } else {
        likers.push(who)
    }
}

/// Whose bell there is to ring: the author's, or, for an article, its owner's,
/// if there is one and it is not the person clicking.
pub open spec fn bell_of(post: LikedPostView, who: Seq<char>, owner: Option<Seq<char>>) -> Option<
    Seq<char>,
> {
    if post.mirrored && post.opens {
        if owner is Some && owner->0 != who {
            owner
        } else {
            None
        }
    } else {
        Some(post.author_subject)
    }
}

/// What a click on the heart changes, given who likes the post now.
pub open spec fn toggled(
    post: Option<LikedPostView>,
    space: Seq<char>,
    who: Seq<char>,
    owner: Option<Seq<char>>,
    likers: Seq<Seq<char>>,
) -> ToggleView {
    match post {
        Some(post) if post.space == space => if post.author_subject == who {
            ToggleView { outcome: Outcome::OwnPost, tell: None, forget: false }
        } else {
            let liked = !likers.contains(who);
            let count = likers_after(likers, who).len();
            ToggleView {
                outcome: Outcome::Toggled { liked, count: count as i64, topic_id: post.topic_id },
                tell: if liked {
                    bell_of(post, who, owner)
                } else {
                    None
                },
                forget: count == 0,
            }
        },
        _ => ToggleView { outcome: Outcome::NotFound, tell: None, forget: false },
    }
}

/// Turns the viewer's like on a post on or off, and keeps the author's entry
/// in the bell true to the count.
pub fn toggle(post: &Option<LikedPost>, space: &str, who: &Identity, likers: &[String]) -> (r:
    Toggle)
    requires
        likers@.len() < i64::MAX,
    ensures
        r@ == toggled(
            match *post {
                Some(p) => Some(p@),
                None => None,
            },
            space@,
            who@.subject,
            None,
            texts(likers@),
        ),
{
    toggle_telling(post, space, who, None, likers)
}

/// `toggle`, with the person behind the space's mirrored articles.
///
/// An article's opening post is stored under a name nobody signs in as; its
/// like tells `article_owner` instead, or nobody, when there is none: the like
/// counts, and no entry is written for a name that is not a person here.
/// Comments under an article are ordinary posts and tell their own authors. The
/// owner MAY like an article: they just get no bell for their own click.
pub fn toggle_telling(
    post: &Option<LikedPost>,
    space: &str,
    who: &Identity,
    article_owner: Option<&str>,
    likers: &[String],
) -> (r: Toggle)
    requires
        likers@.len() < i64::MAX,
    ensures
        r@ == toggled(
            match *post {
                Some(p) => Some(p@),
                None => None,
            },
            space@,
            who@.subject,
            match article_owner {
                Some(owner) => Some(owner@),
                None => None,
            },
            texts(likers@),
        ),
{
    let post = match post {
        Some(post) => post,
        None => {
            return Toggle { outcome: Outcome::NotFound, tell: None, forget: false };
        },
    };
    if !same(&post.space, space) {
        return Toggle { outcome: Outcome::NotFound, tell: None, forget: false };
    }
    if same(&post.author_subject, &who.subject) {
        return Toggle { outcome: Outcome::OwnPost, tell: None, forget: false };
    }
    let liked = !listed(likers, &who.subject);
    let count: i64 = if liked {
        likers.len() as i64 + 1
    } else {
        let rest = everybody_but(likers, &who.subject);
        assert(texts(rest@).len() == rest@.len());
        rest.len() as i64
    };
    let tell: Option<String> = if !liked {
        None
    } else if post.mirrored && post.opens {
        match article_owner {
            Some(owner) => if same(owner, &who.subject) {
                None
            } else {
                Some(owner.to_owned())
            },
            None => None,
        }
    } else {
        Some(post.author_subject.clone())
    };
    Toggle {
        outcome: Outcome::Toggled { liked, count, topic_id: post.topic_id },
        tell,
        forget: count == 0,
    }
}

proof fn all_but_absent(list: Seq<Seq<char>>, one: Seq<char>)
    requires
        !list.contains(one),
    ensures
        all_but(list, one) == list,
    decreases list.len(),
{
    if list.len() > 0 {
        let front = list.drop_last();
        assert(list[list.len() - 1] == list.last());
        assert(!front.contains(one)) by {
            if front.contains(one) {
                let j = choose|j: int| 0 <= j < front.len() && front[j] == one;
                assert(list[j] == one);
            }
        }
        all_but_absent(front, one);
        assert(front.push(list.last()) == list);
    }
}

proof fn all_but_length(list: Seq<Seq<char>>, one: Seq<char>)
    requires
        list.no_duplicates(),
        list.contains(one),
    ensures
        all_but(list, one).len() == list.len() - 1,
    decreases list.len(),
{
    let front = list.drop_last();
    if list.last() == one {
        assert(!front.contains(one)) by {
            if front.contains(one) {
                let j = choose|j: int| 0 <= j < front.len() && front[j] == one;
                assert(list[j] == list[list.len() - 1]);
            }
        }
        all_but_absent(front, one);
    } else {
        let j = choose|j: int| 0 <= j < list.len() && list[j] == one;
        assert(front[j] == one);
        all_but_length(front, one);
    }
}

/// Clicking twice changes nothing: the same people like the post as before,
/// and the same number of them.
pub proof fn clicking_twice_changes_nothing(likers: Seq<Seq<char>>, who: Seq<char>)
    requires
        likers.no_duplicates(),
    ensures
        ({
            let twice = likers_after(likers_after(likers, who), who);
            &&& twice.len() == likers.len()
            &&& forall|x: Seq<char>| #[trigger] twice.contains(x) == likers.contains(x)
        }),
{
    let once = likers_after(likers, who);
    let twice = likers_after(once, who);
    if likers.contains(who) {
        all_but_one(likers, who);
        all_but_length(likers, who);
        assert(!once.contains(who));
        assert forall|x: Seq<char>| #[trigger] twice.contains(x) == likers.contains(x) by {
            assert(once.contains(x) <==> likers.contains(x) && x != who);
            if twice.contains(x) {
                let j = choose|j: int| 0 <= j < twice.len() && twice[j] == x;
                if j < once.len() {
                    assert(once[j] == x);
                }
            }
            if once.contains(x) {
                let j = choose|j: int| 0 <= j < once.len() && once[j] == x;
                assert(twice[j] == x);
            }
            assert(twice[once.len() as int] == who);
        }
    } else {
        assert(once[likers.len() as int] == who);
        assert(once.drop_last() == likers);
        all_but_absent(likers, who);
        assert(twice == likers);
    }
}

/// A like is counted, and a second click takes it back: the first click turns
/// this person's like round and nobody else's, and counts what is there then;
/// the second does the opposite, and counts as many as there were.
pub proof fn a_second_click_takes_it_back(
    post: LikedPostView,
    who: Seq<char>,
    owner: Option<Seq<char>>,
    likers: Seq<Seq<char>>,
    other: Seq<char>,
)
    requires
        post.author_subject != who,
        other != who,
        likers.no_duplicates(),
        likers.len() < i64::MAX,
    ensures
        ({
            let once = likers_after(likers, who);
            let first = toggled(Some(post), post.space, who, owner, likers);
            let second = toggled(Some(post), post.space, who, owner, once);
            let liked = !likers.contains(who);
            &&& once.contains(who) == liked
            &&& once.contains(other) == likers.contains(other)
            &&& once.len() == likers.len() + if liked {
                1int
            } else {
                -1int
            }
            &&& first.outcome == Outcome::Toggled {
                liked,
                count: once.len() as i64,
                topic_id: post.topic_id,
            }
            &&& second.outcome == Outcome::Toggled {
                liked: !liked,
                count: likers.len() as i64,
                topic_id: post.topic_id,
            }
        }),
{
    clicking_twice_changes_nothing(likers, who);
    let once = likers_after(likers, who);
    if likers.contains(who) {
        all_but_one(likers, who);
        all_but_length(likers, who);
        assert(once.contains(other) <==> likers.contains(other) && other != who);
    } else {
        assert(once[likers.len() as int] == who);
        if likers.contains(other) {
            let j = choose|j: int| 0 <= j < likers.len() && likers[j] == other;
            assert(once[j] == other);
        }
        if once.contains(other) {
            let j = choose|j: int| 0 <= j < once.len() && once[j] == other;
            assert(likers[j] == other);
        }
    }
}

/// Nobody is told of their own click, and nobody's bell rings for a like that
/// went.
pub proof fn nobody_is_told_of_their_own_click(
    post: Option<LikedPostView>,
    space: Seq<char>,
    who: Seq<char>,
    owner: Option<Seq<char>>,
    likers: Seq<Seq<char>>,
)
    ensures
        ({
            let r = toggled(post, space, who, owner, likers);
            &&& r.tell != Some(who)
            &&& likers.contains(who) ==> r.tell is None
            &&& r.tell is Some ==> r.outcome is Toggled && !r.forget
        }),
{
    if !likers.contains(who) {
        assert(likers_after(likers, who).len() > 0);
    }
}

/// An entry about one post in somebody's inbox. Nobody has two about the same.
#[derive(Debug)]
pub struct Noted {
    pub subject: String,
    pub reason: Reason,
    pub at: i64,
    pub unread: bool,
}

pub struct NotedView {
    pub subject: Seq<char>,
    pub reason: Reason,
    pub at: i64,
    pub unread: bool,
}

impl View for Noted {
    type V = NotedView;

    open spec fn view(&self) -> NotedView {
        NotedView {
            subject: self.subject@,
            reason: self.reason,
            at: self.at,
            unread: self.unread,
        }
    }
}

pub open spec fn noted_view(rows: Seq<Noted>) -> Seq<NotedView> {
    Seq::new(rows.len(), |i: int| rows[i]@)
}

/// Has this person an entry?
pub open spec fn is_noted(rows: Seq<NotedView>, who: Seq<char>) -> bool {
    exists|i: int| 0 <= i < rows.len() && (#[trigger] rows[i]).subject == who
}

/// An entry about likes, now.
pub open spec fn news(who: Seq<char>, now: i64) -> NotedView {
    NotedView { subject: who, reason: Reason::Like, at: now, unread: true }
}

/// The entry after this person was told: one about likes is news again, and
/// any other stays what it is.
pub open spec fn told_again(row: NotedView, who: Seq<char>, now: i64) -> NotedView {
    if row.subject == who && row.reason == Reason::Like {
        news(who, now)
    } else {
        row
    }
}

/// The entries after this person was told of a like.
pub open spec fn noted_like(rows: Seq<NotedView>, who: Seq<char>, now: i64) -> Seq<NotedView> {
    let again = Seq::new(rows.len(), |i: int| told_again(rows[i], who, now));
    if is_noted(rows, who) {
        again
    } else {
        again.push(news(who, now))
    }
}

/// The entries without those about likes.
pub open spec fn without_likes(rows: Seq<NotedView>) -> Seq<NotedView>
    decreases rows.len(),
{
    if rows.len() == 0 {
        Seq::empty()
    } else {
        let before = without_likes(rows.drop_last());
        if rows.last().reason == Reason::Like {
            before
        } else {
            before.push(rows.last())
        }
    }
}

/// The entries about a post after a click on its heart.
pub open spec fn noted_after(rows: Seq<NotedView>, toggle: ToggleView, now: i64) -> Seq<NotedView> {
    let told = match toggle.tell {
        Some(who) => noted_like(rows, who, now),
        None => rows,
    };
    if toggle.forget {
        without_likes(told)
    } else {
        told
    }
}

fn note_like(rows: Vec<Noted>, who: &str, now: i64) -> (r: Vec<Noted>)
    ensures
        noted_view(r@) == noted_like(noted_view(rows@), who@, now),
{
    let ghost given = rows@;
    let ghost seen = noted_view(given);
    let mut rest = rows;
    let mut out: Vec<Noted> = Vec::new();
    let mut found = false;
    assert(given.skip(0) == given);
    while rest.len() > 0
        invariant
            seen == noted_view(given),
            rest@.len() + out@.len() == given.len(),
            rest@ == given.skip(out@.len() as int),
            found == exists|k: int| 0 <= k < out@.len() && (#[trigger] seen[k]).subject == who@,
            forall|k: int|
                0 <= k < out@.len() ==> (#[trigger] out@[k])@ == told_again(seen[k], who@, now),
        decreases rest@.len(),
    {
        let ghost done = out@.len() as int;
        let row = rest.remove(0);
        assert(row == given[done]);
        assert(seen[done] == row@);
        assert(rest@ == given.skip(done + 1));
        let mine = same(&row.subject, who);
        if mine {
            found = true;
        }
        let like = match row.reason {
            Reason::Like => true,
            _ => false,
        };
        if mine && like {
            out.push(Noted { at: now, unread: true, ..row });
        } else {
            out.push(row);
        }
    }
    let ghost again = Seq::new(seen.len(), |i: int| told_again(seen[i], who@, now));
    assert(noted_view(out@) =~= again);
    if !found {
        out.push(Noted { subject: who.to_owned(), reason: Reason::Like, at: now, unread: true });
        assert(noted_view(out@) =~= again.push(news(who@, now)));
    }
    out
}

fn drop_likes(rows: Vec<Noted>) -> (r: Vec<Noted>)
    ensures
        noted_view(r@) == without_likes(noted_view(rows@)),
{
    let ghost given = rows@;
    let ghost seen = noted_view(given);
    let mut rest = rows;
    let mut out: Vec<Noted> = Vec::new();
    assert(given.skip(0) == given);
    assert(noted_view(out@) == without_likes(seen.take(0)));
    while rest.len() > 0
        invariant
            seen == noted_view(given),
            rest@.len() <= given.len(),
            rest@ == given.skip(given.len() - rest@.len()),
            noted_view(out@) == without_likes(seen.take(given.len() - rest@.len())),
        decreases rest@.len(),
    {
        let ghost done = given.len() - rest@.len();
        let row = rest.remove(0);
        assert(row == given[done]);
        assert(rest@ == given.skip(done + 1));
        assert(seen.take(done + 1).drop_last() == seen.take(done));
        assert(seen.take(done + 1).last() == row@);
        let like = match row.reason {
            Reason::Like => true,
            _ => false,
        };
        if !like {
            let ghost before = noted_view(out@);
            out.push(row);
            assert(noted_view(out@) == before.push(row@));
        }
    }
    assert(seen.take(given.len() as int) == seen);
    out
}

/// The entries about a post after a click on its heart. A like on a post whose
/// entry was read makes it news again, and an entry goes with the last like:
/// by post, not by subject, whoever was told.
pub fn note(rows: Vec<Noted>, toggle: &Toggle, now: i64) -> (r: Vec<Noted>)
    ensures
        noted_view(r@) == noted_after(noted_view(rows@), toggle@, now),
{
    let told = match &toggle.tell {
        Some(who) => note_like(rows, who, now),
        None => rows,
    };
    if toggle.forget {
        drop_likes(told)
    } else {
        told
    }
}

/// Are these the entries about a post as they are kept? One for each person at
/// most; the only one about likes is for whoever hears of them, and there is
/// no other for that person.
pub open spec fn noted_well(rows: Seq<NotedView>, hearer: Seq<char>) -> bool {
    &&& forall|i: int, j: int|
        0 <= i < j < rows.len() ==> (#[trigger] rows[i]).subject != (#[trigger] rows[j]).subject
    &&& forall|i: int|
        0 <= i < rows.len() ==> ((#[trigger] rows[i]).reason == Reason::Like) == (rows[i].subject
            == hearer)
}

proof fn without_likes_are(rows: Seq<NotedView>, row: NotedView)
    ensures
        without_likes(rows).contains(row) == (rows.contains(row) && row.reason != Reason::Like),
    decreases rows.len(),
{
    if rows.len() > 0 {
        let front = rows.drop_last();
        without_likes_are(front, row);
        let before = without_likes(front);
        let after = without_likes(rows);
        assert(rows[rows.len() - 1] == rows.last());
        if front.contains(row) {
            let k = choose|k: int| 0 <= k < front.len() && front[k] == row;
            assert(rows[k] == row);
        }
        if rows.contains(row) && row != rows.last() {
            let k = choose|k: int| 0 <= k < rows.len() && rows[k] == row;
            assert(front[k] == row);
        }
        if before.contains(row) {
            let k = choose|k: int| 0 <= k < before.len() && before[k] == row;
            assert(after[k] == row);
        }
        if after.contains(row) {
            let k = choose|k: int| 0 <= k < after.len() && after[k] == row;
            if k < before.len() {
                assert(before[k] == row);
            }
        }
        if rows.last().reason != Reason::Like {
            assert(after[before.len() as int] == rows.last());
        }
    }
}

/// ONE LINE PER POST: while somebody likes a post, whoever hears of it has
/// exactly one entry about that, and a new like makes it news again. With the
/// last like it goes, and nobody else's entry is touched by any of it.
pub proof fn one_entry_for_the_likes_of_a_post(
    rows: Seq<NotedView>,
    post: LikedPostView,
    who: Seq<char>,
    owner: Option<Seq<char>>,
    likers: Seq<Seq<char>>,
    now: i64,
    other: NotedView,
)
    requires
        post.author_subject != who,
        bell_of(post, who, owner) is Some,
        noted_well(rows, bell_of(post, who, owner)->0),
        other.reason != Reason::Like,
    ensures
        ({
            let hearer = bell_of(post, who, owner)->0;
            let toggle = toggled(Some(post), post.space, who, owner, likers);
            let after = noted_after(rows, toggle, now);
            &&& noted_well(after, hearer)
            &&& !likers.contains(who) ==> after.contains(news(hearer, now))
            &&& likers_after(likers, who).len() == 0 ==> forall|i: int|
                0 <= i < after.len() ==> (#[trigger] after[i]).reason != Reason::Like
            &&& likers.contains(who) && likers_after(likers, who).len() > 0 ==> after == rows
            &&& after.contains(other) == rows.contains(other)
        }),
{
    let hearer = bell_of(post, who, owner)->0;
    let toggle = toggled(Some(post), post.space, who, owner, likers);
    let after = noted_after(rows, toggle, now);
    if !likers.contains(who) {
        assert(likers_after(likers, who).len() > 0);
        assert(after == noted_like(rows, hearer, now));
        assert forall|i: int| 0 <= i < rows.len() implies #[trigger] after[i] == told_again(
            rows[i],
            hearer,
            now,
        ) by {}
        assert forall|i: int, j: int| 0 <= i < j < after.len() implies (
        #[trigger] after[i]).subject != (#[trigger] after[j]).subject by {
            assert(rows[i].subject == after[i].subject);
            if j < rows.len() {
                assert(rows[j].subject == after[j].subject);
            }
        }
        assert forall|i: int| 0 <= i < after.len() implies ((#[trigger] after[i]).reason
            == Reason::Like) == (after[i].subject == hearer) by {
            if i < rows.len() {
                assert((rows[i].reason == Reason::Like) == (rows[i].subject == hearer));
            }
        }
        if is_noted(rows, hearer) {
            let k = choose|k: int| 0 <= k < rows.len() && (#[trigger] rows[k]).subject == hearer;
            assert(after[k] == news(hearer, now));
        } else {
            assert(after[rows.len() as int] == news(hearer, now));
        }
        if rows.contains(other) {
            let k = choose|k: int| 0 <= k < rows.len() && rows[k] == other;
            assert(after[k] == other);
        }
        if after.contains(other) {
            let k = choose|k: int| 0 <= k < after.len() && after[k] == other;
            assert(k < rows.len());
            assert(rows[k] == other);
        }
    } else if likers_after(likers, who).len() == 0 {
        assert(after == without_likes(rows));
        without_likes_are(rows, other);
        assert forall|i: int| 0 <= i < after.len() implies (#[trigger] after[i]).reason
            != Reason::Like && rows.contains(after[i]) by {
            without_likes_are(rows, after[i]);
            assert(after.contains(after[i]));
        }
        without_likes_apart(rows);
        assert forall|i: int| 0 <= i < after.len() implies ((#[trigger] after[i]).reason
            == Reason::Like) == (after[i].subject == hearer) by {
            let k = choose|k: int| 0 <= k < rows.len() && rows[k] == after[i];
            assert((rows[k].reason == Reason::Like) == (rows[k].subject == hearer));
        }
    }
}

proof fn without_likes_apart(rows: Seq<NotedView>)
    requires
        forall|i: int, j: int|
            0 <= i < j < rows.len() ==> (#[trigger] rows[i]).subject != (
            #[trigger] rows[j]).subject,
    ensures
        ({
            let after = without_likes(rows);
            forall|i: int, j: int|
                0 <= i < j < after.len() ==> (#[trigger] after[i]).subject != (
                #[trigger] after[j]).subject
        }),
    decreases rows.len(),
{
    if rows.len() > 0 {
        let front = rows.drop_last();
        let before = without_likes(front);
        let after = without_likes(rows);
        without_likes_apart(front);
        assert forall|i: int, j: int| 0 <= i < j < after.len() implies (
        #[trigger] after[i]).subject != (#[trigger] after[j]).subject by {
            if j == before.len() {
                without_likes_are(front, before[i]);
                assert(before.contains(before[i]));
                let k = choose|k: int| 0 <= k < front.len() && front[k] == before[i];
                assert(rows[k].subject != rows[rows.len() - 1].subject);
            } else {
                assert(before[i] == after[i] && before[j] == after[j]);
            }
        }
    }
}

/// A like, newest first.
#[derive(Debug)]
pub struct Like {
    pub post_id: i64,
    pub subject: String,
    pub name: String,
}

pub struct LikeView {
    pub post_id: i64,
    pub subject: Seq<char>,
    pub name: Seq<char>,
}

impl View for Like {
    type V = LikeView;

    open spec fn view(&self) -> LikeView {
        LikeView { post_id: self.post_id, subject: self.subject@, name: self.name@ }
    }
}

pub open spec fn likes_view(likes: Seq<Like>) -> Seq<LikeView> {
    Seq::new(likes.len(), |i: int| likes[i]@)
}

/// What a page shows under one post: how many, whether the viewer is among
/// them, and the latest few names.
#[derive(Debug, Clone, PartialEq, Eq, Default)]
pub struct Summary {
    pub count: i64,
    pub liked: bool,
    /// Newest first, at most [`NAMES_SHOWN`].
    pub names: Vec<String>,
}

pub struct SummaryView {
    pub count: int,
    pub liked: bool,
    pub names: Seq<Seq<char>>,
}

impl View for Summary {
    type V = SummaryView;

    open spec fn view(&self) -> SummaryView {
        SummaryView { count: self.count as int, liked: self.liked, names: texts(self.names@) }
    }
}

/// How many names a heart carries. Beyond that the number says it.
pub const NAMES_SHOWN: usize = 5;

/// The likes of one post, newest first.
pub open spec fn likes_of(likes: Seq<LikeView>, post_id: i64) -> Seq<LikeView>
    decreases likes.len(),
{
    if likes.len() == 0 {
        Seq::empty()
    } else {
        let before = likes_of(likes.drop_last(), post_id);
        if likes.last().post_id == post_id {
            before.push(likes.last())
        } else {
            before
        }
    }
}

/// Is this person among those who like it?
pub open spec fn liked_by(mine: Seq<LikeView>, viewer: Seq<char>) -> bool {
    exists|i: int| 0 <= i < mine.len() && (#[trigger] mine[i]).subject == viewer
}

pub open spec fn summary_of(mine: Seq<LikeView>, viewer: Seq<char>) -> SummaryView {
    SummaryView {
        count: mine.len() as int,
        liked: liked_by(mine, viewer),
        names: Seq::new(
            if mine.len() < NAMES_SHOWN {
                mine.len()
            } else {
                NAMES_SHOWN as nat
            },
            |i: int| mine[i].name,
        ),
    }
}

fn summarise(likes: &[Like], post_id: i64, viewer: &str) -> (r: Summary)
    requires
        likes@.len() <= i64::MAX,
    ensures
        r@ == summary_of(likes_of(likes_view(likes@), post_id), viewer@),
{
    let ghost all = likes_view(likes@);
    let mut count: i64 = 0;
    let mut liked = false;
    let mut names: Vec<String> = Vec::new();
    let mut i: usize = 0;
    assert(likes_of(all.take(0), post_id).len() == 0);
    while i < likes.len()
        invariant
            i <= likes@.len() <= i64::MAX,
            all == likes_view(likes@),
            count == likes_of(all.take(i as int), post_id).len(),
            count <= i,
            liked == liked_by(likes_of(all.take(i as int), post_id), viewer@),
            texts(names@) == summary_of(likes_of(all.take(i as int), post_id), viewer@).names,
        decreases likes@.len() - i,
    {
        let like = &likes[i];
        let ghost before = likes_of(all.take(i as int), post_id);
        let ghost shown = texts(names@);
        assert(all.take(i + 1).drop_last() == all.take(i as int));
        assert(all.take(i + 1).last() == like@);
        if like.post_id == post_id {
            let ghost after = before.push(like@);
            assert(likes_of(all.take(i + 1), post_id) == after);
            assert(after[before.len() as int] == like@);
            if same(&like.subject, viewer) {
                liked = true;
            }
            proof {
                if liked_by(before, viewer@) {
                    let k = choose|k: int|
                        0 <= k < before.len() && (#[trigger] before[k]).subject == viewer@;
                    assert(after[k] == before[k]);
                }
                if liked_by(after, viewer@) && like@.subject != viewer@ {
                    let k = choose|k: int|
                        0 <= k < after.len() && (#[trigger] after[k]).subject == viewer@;
                    assert(before[k] == after[k]);
                }
            }
            if names.len() < NAMES_SHOWN {
                names.push(like.name.clone());
                assert(texts(names@) == shown.push(like@.name));
                assert(texts(names@) =~= summary_of(after, viewer@).names);
            } else {
                assert(texts(names@) =~= summary_of(after, viewer@).names);
            }
            count += 1;
        }
        i += 1;
    }
    assert(all.take(i as int) == all);
    Summary { count, liked, names }
}

proof fn likes_of_one(likes: Seq<LikeView>, i: int)
    requires
        0 <= i < likes.len(),
    ensures
        likes_of(likes, likes[i].post_id).len() > 0,
    decreases likes.len(),
{
    if i < likes.len() - 1 {
        assert(likes.drop_last()[i] == likes[i]);
        likes_of_one(likes.drop_last(), i);
    }
}

/// The summaries of these posts for this viewer, by the post's id. A post
/// nobody liked is not in the map.
pub fn summaries(likes: &[Like], viewer: &str) -> (r: HashMap<i64, Summary>)
    requires
        likes@.len() <= i64::MAX,
    ensures
        forall|id: i64| #[trigger]
            r@.contains_key(id) == (likes_of(likes_view(likes@), id).len() > 0),
        forall|id: i64| #[trigger]
            r@.contains_key(id) ==> r@[id]@ == summary_of(
                likes_of(likes_view(likes@), id),
                viewer@,
            ),
{
    broadcast use vstd::std_specs::hash::group_hash_axioms;

    let ghost all = likes_view(likes@);
    let mut out: HashMap<i64, Summary> = HashMap::new();
    let mut i: usize = 0;
    while i < likes.len()
        invariant
            i <= likes@.len() <= i64::MAX,
            all == likes_view(likes@),
            forall|id: i64| #[trigger]
                out@.contains_key(id) == (likes_of(all.take(i as int), id).len() > 0),
            forall|id: i64| #[trigger]
                out@.contains_key(id) ==> out@[id]@ == summary_of(likes_of(all, id), viewer@),
        decreases likes@.len() - i,
    {
        let post_id = likes[i].post_id;
        assert(all.take(i + 1).drop_last() == all.take(i as int));
        assert(all.take(i + 1).last() == likes@[i as int]@);
        if !out.contains_key(&post_id) {
            out.insert(post_id, summarise(likes, post_id, viewer));
        }
        proof {
            likes_of_one(all.take(i + 1), i as int);
        }
        i += 1;
    }
    assert(all.take(i as int) == all);
    out
}

} // verus!
