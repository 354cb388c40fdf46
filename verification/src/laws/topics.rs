//! Topics, posts and what is owed for them.
use crate::db::likes::{likes_of, summary_of, LikeView};
use crate::db::outbox::{
    due_of, first_of, is_due, left_alone, left_alone_among, of_channel, owed_for_reply, wait_after,
    OutboxRow, OwedView,
};
use crate::db::topics::{
    last_in, latest_of, listed_there, livelier, loaded_from, nothing_before, posts_in, taking_back,
    topic_row, topics_in, topics_listed, Activity, Byline, Deleted, Post, PostDraft, StoredTopic,
    ThreadView, Topic, TopicDraft, post_row,
};
use crate::order::{arranged, arranging_orders, is_order};
use vstd::prelude::*;
use vstd::string::*;

verus! {

/// A category counts its topics: those of the space, in the category, that are
/// in sight.
pub proof fn one_more_topic_counts(
    stored: Seq<Activity>,
    one: Activity,
    space: Seq<char>,
    category: Seq<char>,
)
    ensures
        listed_there(Seq::empty(), space, category) == Seq::<Activity>::empty(),
        listed_there(stored.push(one), space, category) == if one.space@ == space
            && one.category@ == category && one.hidden == false {
            listed_there(stored, space, category).push(one)
        } else {
            listed_there(stored, space, category)
        },
{
    assert(stored.push(one).drop_last() == stored);
}

/// Something last happened at the latest of these moments.
pub proof fn the_latest_moment(stored: Seq<Activity>)
    ensures
        latest_of(stored) is None <==> stored.len() == 0,
        latest_of(stored) is Some ==> {
            &&& exists|i: int|
                0 <= i < stored.len() && (#[trigger] stored[i]).updated_at == latest_of(stored)->0
            &&& forall|i: int|
                0 <= i < stored.len() ==> (#[trigger] stored[i]).updated_at <= latest_of(stored)->0
        },
    decreases stored.len(),
{
    if stored.len() > 0 {
        let front = stored.drop_last();
        the_latest_moment(front);
        assert(stored[stored.len() - 1] == stored.last());
        if front.len() > 0 {
            let k = choose|k: int|
                0 <= k < front.len() && (#[trigger] front[k]).updated_at == latest_of(front)->0;
            assert(stored[k] == front[k]);
        }
        assert forall|i: int| 0 <= i < stored.len() implies (#[trigger] stored[i]).updated_at
            <= latest_of(stored)->0 by {
            if i < front.len() {
                assert(front[i] == stored[i]);
            }
        }
    }
}

/// A topic is read through the address of its space as long as it is in sight,
/// with the posts written in it and no others, in the order of their numbers.
pub proof fn a_topic_is_read_with_its_posts(
    stored: Option<StoredTopic>,
    posts: Seq<Post>,
    space: Seq<char>,
    post: Post,
)
    ensures
        ({
            let read = loaded_from(stored, posts, space);
            let (topic, found) = read->0;
            &&& read is Some <==> stored is Some && stored->0.topic.space@ == space
                && stored->0.hidden == false
            &&& read is Some ==> {
                &&& topic == stored->0.topic
                &&& found.contains(post) <==> posts.contains(post) && post.topic_id == topic.id
                &&& forall|i: int, j: int|
                    0 <= i < j < found.len() ==> (#[trigger] found[i]).id <= (
                    #[trigger] found[j]).id
                &&& found.len() <= posts.len()
            }
        }),
{
    broadcast use vstd::seq_lib::group_to_multiset_ensures;

    if loaded_from(stored, posts, space) is Some {
        let (topic, found) = loaded_from(stored, posts, space)->0;
        let mine = posts_in(posts, topic.id);
        let before = |a: Post, b: Post| a.id < b.id;
        assert(is_order(before));
        arranging_orders(mine, before);
        assert(found =~= arranged(mine, before));
        posts_of_a_topic(posts, topic.id, post);
        assert(found.contains(post) <==> found.to_multiset().count(post) > 0);
        assert(mine.contains(post) <==> mine.to_multiset().count(post) > 0);
        assert forall|i: int, j: int| 0 <= i < j < found.len() implies (#[trigger] found[i]).id <= (
        #[trigger] found[j]).id by {
            assert(!before(found[j], found[i]));
        }
    }
}

proof fn posts_of_a_topic(posts: Seq<Post>, topic_id: i64, post: Post)
    ensures
        posts_in(posts, topic_id).contains(post) <==> posts.contains(post) && post.topic_id
            == topic_id,
        posts_in(posts, topic_id).len() <= posts.len(),
    decreases posts.len(),
{
    let all = posts_in(posts, topic_id);
    if posts.len() > 0 {
        let front = posts.drop_last();
        let before = posts_in(front, topic_id);
        posts_of_a_topic(front, topic_id, post);
        assert(posts[posts.len() - 1] == posts.last());
        if front.contains(post) {
            let k = choose|k: int| 0 <= k < front.len() && front[k] == post;
            assert(posts[k] == post);
        }
        if posts.contains(post) && !front.contains(post) {
            let k = choose|k: int| 0 <= k < posts.len() && posts[k] == post;
            if k < front.len() {
                assert(front[k] == post);
            }
        }
        if before.contains(post) {
            let k = choose|k: int| 0 <= k < before.len() && before[k] == post;
            assert(all[k] == post);
        }
        if all.contains(post) && !before.contains(post) {
            let k = choose|k: int| 0 <= k < all.len() && all[k] == post;
            if k < before.len() {
                assert(before[k] == post);
            }
        }
        if all.len() > before.len() {
            assert(all[before.len() as int] == posts.last());
        }
    }
}

/// Every post of the topic is read once for each time it is stored.
pub proof fn no_post_is_lost(posts: Seq<Post>, post: Post, topic_id: i64)
    ensures
        posts_in(Seq::empty(), topic_id) == Seq::<Post>::empty(),
        posts_in(posts.push(post), topic_id) == if post.topic_id == topic_id {
            posts_in(posts, topic_id).push(post)
        } else {
            posts_in(posts, topic_id)
        },
{
    assert(posts.push(post).drop_last() == posts);
}

/// What is stored is what was drafted, under its number, in sight and not
/// edited.
pub proof fn what_is_drafted_is_stored(
    topic: TopicDraft,
    post: PostDraft,
    id: i64,
    topic_id: i64,
)
    ensures
        ({
            let row = topic_row(topic, id);
            &&& row.hidden == false
            &&& row.topic.id == id
            &&& row.topic.space == topic.space
            &&& row.topic.category == topic.category
            &&& row.topic.title == topic.title
            &&& row.topic.author_subject == topic.author_subject
            &&& row.topic.author_name == topic.author_name
            &&& row.topic.created_at == topic.created_at
            &&& row.topic.updated_at == topic.updated_at
            &&& row.topic.dated_by_day == false
        }),
        ({
            let row = post_row(post, id, topic_id);
            &&& row.id == id
            &&& row.topic_id == topic_id
            &&& row.body_markdown == post.body_markdown
            &&& row.author_subject == post.author_subject
            &&& row.author_name == post.author_name
            &&& row.created_at == post.created_at
            &&& row.updated_at == post.updated_at
            &&& row.edited == false
        }),
{
}

proof fn topics_there(
    stored: Seq<StoredTopic>,
    space: Seq<char>,
    category: Seq<char>,
    topic: Topic,
)
    ensures
        topics_in(stored, space, category).contains(topic) <==> exists|k: int|
            0 <= k < stored.len() && #[trigger] listed_as(stored[k], space, category, topic),
        topics_in(stored, space, category).len() <= stored.len(),
    decreases stored.len(),
{
    let all = topics_in(stored, space, category);
    if stored.len() > 0 {
        let front = stored.drop_last();
        let before = topics_in(front, space, category);
        topics_there(front, space, category, topic);
        if before.contains(topic) {
            let i = choose|i: int| 0 <= i < before.len() && before[i] == topic;
            assert(all[i] == topic);
            let k = choose|k: int|
                0 <= k < front.len() && #[trigger] listed_as(front[k], space, category, topic);
            assert(listed_as(stored[k], space, category, topic));
        }
        if all.contains(topic) && !before.contains(topic) {
            let i = choose|i: int| 0 <= i < all.len() && all[i] == topic;
            if i < before.len() {
                assert(before[i] == topic);
            }
            assert(listed_as(stored[stored.len() - 1], space, category, topic));
        }
        if exists|k: int|
            0 <= k < stored.len() && #[trigger] listed_as(stored[k], space, category, topic) {
            let k = choose|k: int|
                0 <= k < stored.len() && #[trigger] listed_as(stored[k], space, category, topic);
            if k < front.len() {
                assert(listed_as(front[k], space, category, topic));
            } else {
                assert(all[before.len() as int] == topic);
            }
        }
    }
}

/// Is the row this topic, of this space and category, and in sight?
pub open spec fn listed_as(
    row: StoredTopic,
    space: Seq<char>,
    category: Seq<char>,
    topic: Topic,
) -> bool {
    row.topic == topic && row.hidden == false && topic.space@ == space && topic.category@
        == category
}

/// A list of topics shows the topics of its category that are in sight, where
/// something is going on first and of two that moved at once the younger; a
/// page has at least one place and at most two hundred.
pub proof fn a_list_shows_its_category(
    stored: Seq<StoredTopic>,
    space: Seq<char>,
    category: Seq<char>,
    limit: i64,
    offset: i64,
    i: int,
    j: int,
)
    requires
        0 <= i < j < topics_listed(stored, space, category, limit, offset).len(),
    ensures
        ({
            let page = topics_listed(stored, space, category, limit, offset);
            &&& exists|k: int|
                0 <= k < stored.len() && #[trigger] listed_as(stored[k], space, category, page[i])
            &&& exists|k: int|
                0 <= k < stored.len() && #[trigger] listed_as(stored[k], space, category, page[j])
            &&& page[i].updated_at >= page[j].updated_at
            &&& page[i].updated_at == page[j].updated_at ==> page[i].id >= page[j].id
            &&& limit >= 1 ==> page.len() <= limit
            &&& page.len() <= 200
        }),
{
    broadcast use vstd::seq_lib::group_to_multiset_ensures;

    let there = topics_in(stored, space, category);
    let before = |a: Topic, b: Topic| livelier(a, b);
    let all = arranged(there, before);
    let page = topics_listed(stored, space, category, limit, offset);
    assert(is_order(before));
    arranging_orders(there, before);
    let start: int = if offset < 0 {
        0
    } else {
        offset as int
    };
    assert(page[i] == all[start + i] && page[j] == all[start + j]);
    assert(!before(all[start + j], all[start + i]));
    assert(all.contains(page[i]) && all.contains(page[j]));
    assert(all.contains(page[i]) <==> all.to_multiset().count(page[i]) > 0);
    assert(there.contains(page[i]) <==> there.to_multiset().count(page[i]) > 0);
    assert(all.contains(page[j]) <==> all.to_multiset().count(page[j]) > 0);
    assert(there.contains(page[j]) <==> there.to_multiset().count(page[j]) > 0);
    topics_there(stored, space, category, page[i]);
    topics_there(stored, space, category, page[j]);
}

/// As long as there is room, every topic of the category is on the first page.
pub proof fn every_topic_is_listed(
    stored: Seq<StoredTopic>,
    space: Seq<char>,
    category: Seq<char>,
    limit: i64,
    k: int,
)
    requires
        0 <= k < stored.len() <= limit,
        limit <= 200,
        listed_as(stored[k], space, category, stored[k].topic),
    ensures
        topics_listed(stored, space, category, limit, 0).contains(stored[k].topic),
{
    broadcast use vstd::seq_lib::group_to_multiset_ensures;

    let topic = stored[k].topic;
    let there = topics_in(stored, space, category);
    let before = |a: Topic, b: Topic| livelier(a, b);
    let all = arranged(there, before);
    assert(is_order(before));
    arranging_orders(there, before);
    topics_there(stored, space, category, topic);
    assert(all.contains(topic) <==> all.to_multiset().count(topic) > 0);
    assert(there.contains(topic) <==> there.to_multiset().count(topic) > 0);
    let page = topics_listed(stored, space, category, limit, 0);
    let i = choose|i: int| 0 <= i < all.len() && all[i] == topic;
    assert(page[i] == topic);
}

/// The byline of a topic is that of the post with the highest number in it, and
/// it opens the topic if no other post of the topic has a lower one.
pub proof fn the_last_post_has_the_highest_number(posts: Seq<Byline>, topic_id: i64)
    ensures
        match last_in(posts, topic_id) {
            Some(post) => {
                &&& posts.contains(post)
                &&& post.topic_id == topic_id
                &&& forall|i: int|
                    0 <= i < posts.len() && (#[trigger] posts[i]).topic_id == topic_id
                        ==> posts[i].post_id <= post.post_id
                &&& nothing_before(posts, post) <==> forall|i: int|
                    0 <= i < posts.len() && (#[trigger] posts[i]).topic_id == topic_id
                        ==> post.post_id <= posts[i].post_id
            },
            None => forall|i: int| 0 <= i < posts.len() ==> (#[trigger] posts[i]).topic_id
                != topic_id,
        },
    decreases posts.len(),
{
    if posts.len() > 0 {
        let front = posts.drop_last();
        the_last_post_has_the_highest_number(front, topic_id);
        assert(posts[posts.len() - 1] == posts.last());
        if let Some(post) = last_in(front, topic_id) {
            let k = choose|k: int| 0 <= k < front.len() && front[k] == post;
            assert(posts[k] == post);
        }
        match last_in(posts, topic_id) {
            Some(post) => {
                assert forall|i: int|
                    0 <= i < posts.len() && (#[trigger] posts[i]).topic_id
                        == topic_id implies posts[i].post_id <= post.post_id by {
                    if i < front.len() {
                        assert(front[i] == posts[i]);
                    }
                }
            },
            None => {
                assert forall|i: int| 0 <= i < posts.len() implies (#[trigger] posts[i]).topic_id
                    != topic_id by {
                    if i < front.len() {
                        assert(front[i] == posts[i]);
                    }
                }
            },
        }
    }
}

/// What somebody may take back: their own post, through the address of its
/// space, while it is in sight. A reply goes; an opening post takes its topic
/// with it, but not from under somebody else's words.
pub proof fn what_may_be_taken_back(
    thread: ThreadView,
    space: Seq<char>,
    k: int,
    who: Seq<char>,
)
    requires
        0 <= k < thread.posts.len(),
        forall|i: int|
            0 <= i < thread.posts.len() && i != k ==> (#[trigger] thread.posts[i]).id
                != thread.posts[k].id,
    ensures
        ({
            let id = thread.posts[k].id;
            let outcome = taking_back(Some(thread), space, id, who);
            let own = thread.posts[k].author_subject == who && thread.space == space
                && thread.hidden == false;
            let first = forall|i: int|
                0 <= i < thread.posts.len() && i != k ==> id < (#[trigger] thread.posts[i]).id;
            let alone = forall|i: int|
                0 <= i < thread.posts.len() ==> (#[trigger] thread.posts[i]).author_subject == who;
            &&& outcome == Deleted::NotYours <==> !own
            &&& outcome == Deleted::Post <==> own && !first
            &&& outcome == Deleted::Topic <==> own && first && alone
            &&& outcome == Deleted::HasReplies <==> own && first && !alone
        }),
{
    let posts = thread.posts;
    let id = posts[k].id;
    let first = forall|i: int| 0 <= i < posts.len() && i != k ==> id < (#[trigger] posts[i]).id;
    if crate::db::topics::wrote(posts, id, who) {
        let i = choose|i: int|
            0 <= i < posts.len() && (#[trigger] posts[i]).id == id && posts[i].author_subject
                == who;
        assert(i == k);
    }
    if posts[k].author_subject == who {
        assert(crate::db::topics::wrote(posts, id, who));
    }
    if crate::db::topics::opens(posts, id) {
        assert forall|i: int| 0 <= i < posts.len() && i != k implies id < (#[trigger] posts[i]).id by {
            assert(id <= posts[i].id);
        }
    } else {
        let i = choose|i: int| 0 <= i < posts.len() && !(id <= (#[trigger] posts[i]).id);
        assert(i != k);
        assert(!first);
    }
}

/// Nothing that is not there can be taken back.
pub proof fn what_is_not_there_is_not_yours(space: Seq<char>, id: i64, who: Seq<char>)
    ensures
        taking_back(None, space, id, who) == Deleted::NotYours,
{
}

/// The heart of a post: how many like it, whether the viewer does, and the
/// names of the first five, as they come.
pub proof fn a_heart_says_who_likes_it(
    likes: Seq<LikeView>,
    one: LikeView,
    post_id: i64,
    viewer: Seq<char>,
    i: int,
)
    ensures
        likes_of(Seq::empty(), post_id) == Seq::<LikeView>::empty(),
        likes_of(likes.push(one), post_id) == if one.post_id == post_id {
            likes_of(likes, post_id).push(one)
        } else {
            likes_of(likes, post_id)
        },
        ({
            let heart = summary_of(likes, viewer);
            &&& heart.count == likes.len()
            &&& heart.liked <==> exists|k: int|
                0 <= k < likes.len() && (#[trigger] likes[k]).subject == viewer
            &&& heart.names.len() == if likes.len() < 5 {
                likes.len()
            } else {
                5
            }
            &&& 0 <= i < heart.names.len() ==> heart.names[i] == likes[i].name
        }),
{
    assert(likes.push(one).drop_last() == likes);
}

/// After the first failure a minute is waited, after the second five, after the
/// third a quarter of an hour, and from then on an hour.
pub proof fn how_long_is_waited(failures: i64)
    requires
        failures >= 0,
    ensures
        wait_after(failures) == if failures == 0 {
            0int
        } else if failures == 1 {
            60int
        } else if failures == 2 {
            300int
        } else if failures == 3 {
            900int
        } else {
            3600int
        },
{
}

/// A row is due while it has not gone out, its moment has come, and it has not
/// failed eight times; then it is given up instead.
pub proof fn when_a_row_is_due(row: OutboxRow, now: i64)
    ensures
        is_due(row, now) <==> row.sent == false && row.next_try_at <= now && row.owed.attempts < 8,
        left_alone(row) <==> row.sent == false && row.owed.attempts >= 8,
{
}

/// What is due on a channel is what is due there, in its order, row by row.
pub proof fn one_more_row_owed(
    rows: Seq<OutboxRow>,
    row: OutboxRow,
    now: i64,
    kanal: Seq<char>,
)
    ensures
        of_channel(due_of(Seq::empty(), now), kanal) == Seq::<OwedView>::empty(),
        of_channel(due_of(rows.push(row), now), kanal) == if row.sent == false && row.next_try_at
            <= now && row.owed.attempts < 8 && row.owed.kanal@ == kanal {
            of_channel(due_of(rows, now), kanal).push(row.owed@)
        } else {
            of_channel(due_of(rows, now), kanal)
        },
        left_alone_among(Seq::empty()) == 0,
        left_alone_among(rows.push(row)) == left_alone_among(rows) + if row.sent == false
            && row.owed.attempts >= 8 {
            1nat
        } else {
            0nat
        },
{
    assert(rows.push(row).drop_last() == rows);
    let before = due_of(rows, now);
    assert(before.push(row.owed@).drop_last() == before);
    assert(of_channel(due_of(Seq::empty(), now), kanal) =~= Seq::<OwedView>::empty());
}

/// Of what is due the first are taken, as many as were asked for.
pub proof fn the_first_are_taken(owed: Seq<OwedView>, limit: int, i: int)
    requires
        limit >= 0,
    ensures
        first_of(owed, limit).len() == if owed.len() < limit {
            owed.len() as int
        } else {
            limit
        },
        0 <= i < first_of(owed, limit).len() ==> first_of(owed, limit)[i] == owed[i],
{
}

/// A reply owes a mail to every follower but the writer, and one webhook.
pub proof fn what_a_reply_owes(followers: Seq<Seq<char>>, writer: Seq<char>, x: Seq<char>)
    ensures
        ({
            let rows = owed_for_reply(followers, writer);
            &&& (exists|i: int|
                0 <= i < rows.len() && (#[trigger] rows[i]).subject == x && rows[i].kanal
                    == "mail"@ && rows[i].reason == "reply"@) <==> followers.contains(x) && x
                != writer
            &&& rows.last().kanal == "webhook"@
            &&& rows.last().subject == writer
            &&& rows.last().reason == "reply"@
        }),
{
    reveal_strlit("mail");
    reveal_strlit("webhook");
    assert("mail"@.len() == 4 && "webhook"@.len() == 7);
    crate::db::inbox::all_but_one(followers, writer);
    let others = crate::db::inbox::all_but(followers, writer);
    let rows = owed_for_reply(followers, writer);
    assert(others.contains(x) <==> followers.contains(x) && x != writer);
    if others.contains(x) {
        let k = choose|k: int| 0 <= k < others.len() && others[k] == x;
        assert(rows[k].subject == x);
        assert(rows[k].kanal == "mail"@ && rows[k].reason == "reply"@);
    }
    if exists|i: int|
        0 <= i < rows.len() && (#[trigger] rows[i]).subject == x && rows[i].kanal == "mail"@
            && rows[i].reason == "reply"@ {
        let i = choose|i: int|
            0 <= i < rows.len() && (#[trigger] rows[i]).subject == x && rows[i].kanal == "mail"@
                && rows[i].reason == "reply"@;
        assert(i < others.len());
        assert(others[i] == x);
    }
}

} // verus!
