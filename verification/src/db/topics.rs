//! Topics and posts: the storage rules. No HTTP, no permissions: those are
//! decided in `authz` and applied by the layer above. What this module does
//! guarantee is that a topic can only be found through the space it belongs
//! to, and that only its author takes a post back.
use crate::authz::{listed, Identity, IdentityView};
use crate::db::inbox::{all_but, all_but_one, newly_told, note_mentions_in, note_replies_in, told_once};
use crate::db::outbox::{
    mails, owed_for_reply, queue_for_followers, queue_mentions, queue_webhook, queued_view,
    webhook_row, Queued, QueuedView,
};
use crate::db::subscriptions::{follow, following};
use crate::order::{
    arrange, arranged, arranging_orders, arranging_views, in_order, page_of, paged, spot,
};
use crate::text::{same, texts};
use vstd::prelude::*;

verus! {

/// Unix seconds since the epoch, or nothing when the clock stands before it.
///
/// `std::time::SystemTime::elapsed` on the epoch. What it returns rests on the
/// machine's clock, so nothing is claimed of it.
#[verifier::external_body]
fn seconds_since_epoch() -> (r: Option<u64>) {
    std::time::SystemTime::UNIX_EPOCH.elapsed().ok().map(|past| past.as_secs())
}

/// The moment a clock shows, in Unix seconds. A clock that cannot be read is
/// not a reason to refuse a post, so the failure falls back to the epoch.
pub open spec fn moment_shown(seconds: Option<u64>) -> i64 {
    match seconds {
        Some(seconds) => seconds as i64,
        None => 0,
    }
}

/// The moment in Unix seconds that a reading of the clock stands for.
pub fn moment_of(seconds: Option<u64>) -> (r: i64)
    ensures
        r == moment_shown(seconds),
        seconds is Some && seconds->0 <= i64::MAX ==> r == seconds->0,
{
    match seconds {
        Some(seconds) => seconds as i64,
        None => 0,
    }
}

/// Unix seconds, by the machine's clock. The moment itself is the machine's
/// business: all that is stated is that it is what `moment_of` makes of some
/// reading.
pub fn now() -> (r: i64)
    ensures
        exists|seconds: Option<u64>| r == #[trigger] moment_shown(seconds),
{
    let seconds = seconds_since_epoch();
    let moment = moment_of(seconds);
    assert(moment == moment_shown(seconds));
    moment
}

/// Paging numbers reach this module from a query string. A limit of `-1` means
/// "everything" to the database, so an unchecked negative would hand out the
/// whole table; a huge one would do the same more slowly.
pub const MAX_PAGE: i64 = 200;

/// The page that is read when this one is asked for.
pub fn clamp_page(limit: i64, offset: i64) -> (r: (i64, i64))
    ensures
        1 <= r.0 <= MAX_PAGE,
        1 <= limit <= MAX_PAGE ==> r.0 == limit,
        limit < 1 ==> r.0 == 1,
        limit > MAX_PAGE ==> r.0 == MAX_PAGE,
        r.1 == if offset < 0 {
            0
        } else {
            offset
        },
{
    let limit: i64 = if limit < 1 {
        1
    } else if limit > MAX_PAGE {
        MAX_PAGE
    } else {
        limit
    };
    let offset: i64 = if offset < 0 {
        0
    } else {
        offset
    };
    (limit, offset)
}

#[derive(Debug, Clone)]
pub struct Topic {
    pub id: i64,
    pub space: String,
    pub category: String,
    pub title: String,
    pub author_subject: String,
    pub author_name: String,
    pub created_at: i64,
    pub updated_at: i64,
    /// An article carries the date of its file, and no time of day with it.
    pub dated_by_day: bool,
}

/// Who wrote in a topic last, and when: the two things a list shows under a
/// title. Not a whole [`Post`]: reading every body to print two words would be
/// a page of work for a byline.
#[derive(Debug, Clone)]
pub struct LastPost {
    pub author_name: String,
    pub created_at: i64,
    /// Is it the post that opens the topic? Nobody has answered then.
    pub opens_the_topic: bool,
}

#[derive(Debug, Clone)]
pub struct Post {
    pub id: i64,
    pub topic_id: i64,
    pub body_markdown: String,
    pub author_subject: String,
    pub author_name: String,
    pub created_at: i64,
    pub updated_at: i64,
    pub edited: bool,
}

/// The numbers a list shows beside a title.
#[derive(Debug, Clone, Copy, PartialEq, Eq, Structural, Default)]
pub struct Counts {
    pub replies: i64,
    pub likes: i64,
    pub unread: bool,
}

/// What a category overview shows about one category.
#[derive(Debug, Clone, Copy, PartialEq, Eq, Structural, Default)]
pub struct CategoryCount {
    pub topics: i64,
    /// `None` for a category nobody has written in yet, which is listed all
    /// the same, because a hidden category is one nobody ever visits.
    pub last_activity: Option<i64>,
}

/// What a count reads of a topic.
#[derive(Debug)]
pub struct Activity {
    pub space: String,
    pub category: String,
    /// Withdrawn: out of every list, and not deleted, because the comments
    /// underneath are not ours to remove.
    pub hidden: bool,
    pub updated_at: i64,
}

/// The topics of one category of one space that are not withdrawn.
pub open spec fn listed_there(
    stored: Seq<Activity>,
    space: Seq<char>,
    category: Seq<char>,
) -> Seq<Activity>
    decreases stored.len(),
{
    if stored.len() == 0 {
        Seq::empty()
    } else {
        let before = listed_there(stored.drop_last(), space, category);
        if stored.last().space@ == space && !stored.last().hidden && stored.last().category@
            == category {
            before.push(stored.last())
        } else {
            before
        }
    }
}

/// The latest change among them.
pub open spec fn latest_of(stored: Seq<Activity>) -> Option<i64>
    decreases stored.len(),
{
    if stored.len() == 0 {
        None
    } else {
        let last = stored.last().updated_at;
        match latest_of(stored.drop_last()) {
            Some(before) if before > last => Some(before),
            _ => Some(last),
        }
    }
}

fn count_in(stored: &[Activity], space: &str, category: &str) -> (r: CategoryCount)
    requires
        stored@.len() <= i64::MAX,
    ensures
        r.topics == listed_there(stored@, space@, category@).len(),
        r.last_activity == latest_of(listed_there(stored@, space@, category@)),
{
    let mut topics: i64 = 0;
    let mut last_activity: Option<i64> = None;
    let mut i: usize = 0;
    assert(listed_there(stored@.take(0), space@, category@).len() == 0);
    while i < stored.len()
        invariant
            i <= stored@.len() <= i64::MAX,
            topics <= i,
            topics == listed_there(stored@.take(i as int), space@, category@).len(),
            last_activity == latest_of(listed_there(stored@.take(i as int), space@, category@)),
        decreases stored@.len() - i,
    {
        let one = &stored[i];
        let ghost before = listed_there(stored@.take(i as int), space@, category@);
        assert(stored@.take(i + 1).drop_last() == stored@.take(i as int));
        assert(stored@.take(i + 1).last() == *one);
        if same(&one.space, space) && !one.hidden && same(&one.category, category) {
            assert(before.push(*one).drop_last() == before);
            topics += 1;
            last_activity = match last_activity {
                Some(moment) if moment > one.updated_at => Some(moment),
                _ => Some(one.updated_at),
            };
        }
        i += 1;
    }
    assert(stored@.take(i as int) == stored@);
    CategoryCount { topics, last_activity }
}

/// Counts per category.
///
/// The space is part of the condition: two spaces may use the same slug, and
/// counting across them would put the blog's activity on the forum's front
/// page. Every category that is asked for appears in the result, in the order
/// in which they are asked for, including the empty ones.
pub fn category_counts(stored: &[Activity], space: &str, slugs: &[String]) -> (r: Vec<
    (String, CategoryCount),
>)
    requires
        stored@.len() <= i64::MAX,
    ensures
        r@.len() == slugs@.len(),
        forall|i: int|
            #![trigger r@[i]]
            0 <= i < r@.len() ==> {
                &&& r@[i].0@ == slugs@[i]@
                &&& r@[i].1.topics == listed_there(stored@, space@, slugs@[i]@).len()
                &&& r@[i].1.last_activity == latest_of(
                    listed_there(stored@, space@, slugs@[i]@),
                )
            },
{
    let mut out: Vec<(String, CategoryCount)> = Vec::new();
    let mut i: usize = 0;
    while i < slugs.len()
        invariant
            i <= slugs@.len(),
            stored@.len() <= i64::MAX,
            out@.len() == i,
            forall|k: int|
                #![trigger out@[k]]
                0 <= k < out@.len() ==> {
                    &&& out@[k].0@ == slugs@[k]@
                    &&& out@[k].1.topics == listed_there(stored@, space@, slugs@[k]@).len()
                    &&& out@[k].1.last_activity == latest_of(
                        listed_there(stored@, space@, slugs@[k]@),
                    )
                },
        decreases slugs@.len() - i,
    {
        let count = count_in(stored, space, &slugs[i]);
        out.push((slugs[i].clone(), count));
        i += 1;
    }
    out
}

/// A stored topic, with what decides who sees it.
#[derive(Debug)]
pub struct StoredTopic {
    pub topic: Topic,
    pub hidden: bool,
}

/// Can the topic be found through this address?
pub open spec fn found_in(stored: StoredTopic, space: Seq<char>) -> bool {
    stored.topic.space@ == space && !stored.hidden
}

/// The posts of one topic.
pub open spec fn posts_in(posts: Seq<Post>, topic_id: i64) -> Seq<Post>
    decreases posts.len(),
{
    if posts.len() == 0 {
        Seq::empty()
    } else {
        let before = posts_in(posts.drop_last(), topic_id);
        if posts.last().topic_id == topic_id {
            before.push(posts.last())
        } else {
            before
        }
    }
}

/// A topic as it is read, with its posts in the order in which they were
/// written.
pub open spec fn loaded_from(
    stored: Option<StoredTopic>,
    posts: Seq<Post>,
    space: Seq<char>,
) -> Option<(Topic, Seq<Post>)> {
    if stored is Some && found_in(stored->0, space) {
        Some(
            (
                stored->0.topic,
                arranged(
                    posts_in(posts, stored->0.topic.id),
                    |a: Post, b: Post| a.id < b.id,
                ),
            ),
        )
    } else {
        None
    }
}

fn select_posts(posts: Vec<Post>, topic_id: i64) -> (r: Vec<Post>)
    ensures
        r@ == posts_in(posts@, topic_id),
{
    let ghost given = posts@;
    let mut rest = posts;
    let mut out: Vec<Post> = Vec::new();
    assert(given.take(0) == Seq::<Post>::empty());
    assert(given.skip(0) == given);
    while rest.len() > 0
        invariant
            rest@.len() <= given.len(),
            rest@ == given.skip(given.len() - rest@.len()),
            out@ == posts_in(given.take(given.len() - rest@.len()), topic_id),
        decreases rest@.len(),
    {
        let ghost done = given.len() - rest@.len();
        let one = rest.remove(0);
        assert(one == given[done]);
        assert(rest@ == given.skip(done + 1));
        assert(given.take(done + 1).drop_last() == given.take(done));
        assert(given.take(done + 1).last() == one);
        if one.topic_id == topic_id {
            out.push(one);
        }
    }
    assert(given.take(given.len() as int) == given);
    out
}

/// A topic comes out only through the address it belongs to, with its posts in
/// the order in which they were written. Without that every topic would be
/// reachable through every address as soon as someone guessed the number.
pub fn load_topic(stored: Option<StoredTopic>, posts: Vec<Post>, space: &str) -> (r: Option<
    (Topic, Vec<Post>),
>)
    ensures
        match r {
            Some((topic, read)) => loaded_from(stored, posts@, space@) == Some((topic, read@)),
            None => loaded_from(stored, posts@, space@) is None,
        },
{
    match stored {
        Some(stored) => if same(&stored.topic.space, space) && !stored.hidden {
            let ghost before = |a: Post, b: Post| a.id < b.id;
            let earlier = |a: &Post, b: &Post| -> (r: bool)
                ensures
                    r == (a.id < b.id),
                { a.id < b.id };
            let mine = select_posts(posts, stored.topic.id);
            Some((stored.topic, arrange(mine, earlier, Ghost(before))))
        } else {
            None
        },
        None => None,
    }
}

/// A topic that is about to be stored. Its number is the database's to give.
#[derive(Debug)]
pub struct TopicDraft {
    pub space: String,
    pub category: String,
    pub title: String,
    pub author_subject: String,
    pub author_name: String,
    pub created_at: i64,
    pub updated_at: i64,
}

/// A post that is about to be stored. Its number is the database's to give.
#[derive(Debug)]
pub struct PostDraft {
    pub body_markdown: String,
    pub author_subject: String,
    pub author_name: String,
    pub created_at: i64,
    pub updated_at: i64,
}

/// The row of a topic under its number.
pub open spec fn topic_row(draft: TopicDraft, id: i64) -> StoredTopic {
    StoredTopic {
        topic: Topic {
            id,
            space: draft.space,
            category: draft.category,
            title: draft.title,
            author_subject: draft.author_subject,
            author_name: draft.author_name,
            created_at: draft.created_at,
            updated_at: draft.updated_at,
            dated_by_day: false,
        },
        hidden: false,
    }
}

/// The row of a post under its number.
pub open spec fn post_row(draft: PostDraft, id: i64, topic_id: i64) -> Post {
    Post {
        id,
        topic_id,
        body_markdown: draft.body_markdown,
        author_subject: draft.author_subject,
        author_name: draft.author_name,
        created_at: draft.created_at,
        updated_at: draft.updated_at,
        edited: false,
    }
}

impl TopicDraft {
    /// The row of the topic once it has its number.
    pub fn stored(self, id: i64) -> (r: StoredTopic)
        ensures
            r == topic_row(self, id),
    {
        StoredTopic {
            topic: Topic {
                id,
                space: self.space,
                category: self.category,
                title: self.title,
                author_subject: self.author_subject,
                author_name: self.author_name,
                created_at: self.created_at,
                updated_at: self.updated_at,
                dated_by_day: false,
            },
            hidden: false,
        }
    }
}

impl PostDraft {
    /// The row of the post once it has its number.
    pub fn stored(self, id: i64, topic_id: i64) -> (r: Post)
        ensures
            r == post_row(self, id, topic_id),
    {
        Post {
            id,
            topic_id,
            body_markdown: self.body_markdown,
            author_subject: self.author_subject,
            author_name: self.author_name,
            created_at: self.created_at,
            updated_at: self.updated_at,
            edited: false,
        }
    }
}

/// Is this what a topic is opened with?
pub open spec fn topic_drafted(
    draft: TopicDraft,
    space: Seq<char>,
    category: Seq<char>,
    title: Seq<char>,
    author: IdentityView,
    now: i64,
) -> bool {
    &&& draft.space@ == space
    &&& draft.category@ == category
    &&& draft.title@ == title
    &&& draft.author_subject@ == author.subject
    &&& draft.author_name@ == author.name
    &&& draft.created_at == now
    &&& draft.updated_at == now
}

/// Is this what somebody wrote now?
pub open spec fn post_drafted(
    draft: PostDraft,
    body: Seq<char>,
    author: IdentityView,
    now: i64,
) -> bool {
    &&& draft.body_markdown@ == body
    &&& draft.author_subject@ == author.subject
    &&& draft.author_name@ == author.name
    &&& draft.created_at == now
    &&& draft.updated_at == now
}

fn draft_post(body: &str, author: &Identity, now: i64) -> (r: PostDraft)
    ensures
        post_drafted(r, body@, author@, now),
{
    PostDraft {
        body_markdown: body.to_owned(),
        author_subject: author.subject.clone(),
        author_name: author.name.clone(),
        created_at: now,
        updated_at: now,
    }
}

/// A TOPIC BELONGS TO ITS SPACE ONLY: what was opened comes back through its
/// own address, with its opening post and nothing else, and through no other.
pub proof fn a_created_topic_comes_back(
    draft: TopicDraft,
    post: PostDraft,
    space: Seq<char>,
    category: Seq<char>,
    title: Seq<char>,
    body: Seq<char>,
    author: IdentityView,
    now: i64,
    id: i64,
    post_id: i64,
    other: Seq<char>,
)
    requires
        topic_drafted(draft, space, category, title, author, now),
        post_drafted(post, body, author, now),
        other != space,
    ensures
        ({
            let stored = Some(topic_row(draft, id));
            let posts = seq![post_row(post, post_id, id)];
            let loaded = loaded_from(stored, posts, space);
            let (topic, read) = loaded->0;
            &&& loaded is Some
            &&& topic.id == id && topic.space@ == space && topic.category@ == category
            &&& topic.title@ == title && topic.author_subject@ == author.subject
            &&& read.len() == 1
            &&& read[0].id == post_id && read[0].topic_id == id && read[0].body_markdown@ == body
            &&& read[0].author_subject@ == author.subject && !read[0].edited
            &&& loaded_from(stored, posts, other) is None
        }),
{
    let one = post_row(post, post_id, id);
    let posts = seq![one];
    let before = |a: Post, b: Post| a.id < b.id;
    assert(posts.drop_last() =~= Seq::<Post>::empty());
    assert(posts_in(posts.drop_last(), id) =~= Seq::<Post>::empty());
    assert(posts_in(posts, id) =~= posts);
    assert(arranged(posts.drop_last(), before) =~= Seq::<Post>::empty());
    assert(spot(Seq::<Post>::empty(), one, before) == 0);
    assert(arranged(posts, before) =~= posts);
}

/// The posts of a topic are read in the order in which they were written, and
/// each of them is one of its own.
pub proof fn replies_come_back_in_order(
    stored: Option<StoredTopic>,
    posts: Seq<Post>,
    space: Seq<char>,
)
    requires
        loaded_from(stored, posts, space) is Some,
    ensures
        ({
            let (topic, read) = loaded_from(stored, posts, space)->0;
            &&& forall|i: int, j: int|
                0 <= i < j < read.len() ==> (#[trigger] read[i]).id <= (#[trigger] read[j]).id
            &&& read.to_multiset() == posts_in(posts, topic.id).to_multiset()
        }),
{
    let (topic, read) = loaded_from(stored, posts, space)->0;
    let before = |a: Post, b: Post| a.id < b.id;
    arranging_orders(posts_in(posts, topic.id), before);
    assert forall|i: int, j: int| 0 <= i < j < read.len() implies (#[trigger] read[i]).id <= (
    #[trigger] read[j]).id by {
        assert(!before(read[j], read[i]));
    }
}

/// The topics of one category of one space that are not withdrawn.
pub open spec fn topics_in(
    stored: Seq<StoredTopic>,
    space: Seq<char>,
    category: Seq<char>,
) -> Seq<Topic>
    decreases stored.len(),
{
    if stored.len() == 0 {
        Seq::empty()
    } else {
        let before = topics_in(stored.drop_last(), space, category);
        if found_in(stored.last(), space) && stored.last().topic.category@ == category {
            before.push(stored.last().topic)
        } else {
            before
        }
    }
}

/// Does a topic stand above another in a list? Where something is going on
/// comes first; of two that moved at once, the younger.
pub open spec fn livelier(a: Topic, b: Topic) -> bool {
    a.updated_at > b.updated_at || (a.updated_at == b.updated_at && a.id > b.id)
}

/// A post, as far as a byline goes.
#[derive(Debug)]
pub struct Byline {
    pub post_id: i64,
    pub topic_id: i64,
    pub author_name: String,
    pub created_at: i64,
}

/// The post of a topic that was written last. The highest number and not the
/// latest moment: the order in which posts were written is the order in which
/// they are read, and a backdated article must not jump the queue.
pub open spec fn last_in(posts: Seq<Byline>, topic_id: i64) -> Option<Byline>
    decreases posts.len(),
{
    if posts.len() == 0 {
        None
    } else {
        let last = posts.last();
        match last_in(posts.drop_last(), topic_id) {
            Some(before) => if last.topic_id == topic_id && last.post_id > before.post_id {
                Some(last)
            } else {
                Some(before)
            },
            None => if last.topic_id == topic_id {
                Some(last)
            } else {
                None
            },
        }
    }
}

/// Is there no earlier post in the topic?
pub open spec fn nothing_before(posts: Seq<Byline>, post: Byline) -> bool {
    forall|i: int|
        0 <= i < posts.len() && (#[trigger] posts[i]).topic_id == post.topic_id
            ==> posts[i].post_id >= post.post_id
}

/// Does this byline say who wrote in the topic last? A topic without a post
/// has none, and stays in the list all the same.
pub open spec fn byline_of(last: Option<LastPost>, posts: Seq<Byline>, topic_id: i64) -> bool {
    match last_in(posts, topic_id) {
        Some(post) => last is Some && last->0.author_name@ == post.author_name@
            && last->0.created_at == post.created_at && last->0.opens_the_topic == nothing_before(
            posts,
            post,
        ),
        None => last is None,
    }
}

fn is_opening(posts: &[Byline], post: &Byline) -> (r: bool)
    ensures
        r == nothing_before(posts@, *post),
{
    let mut i: usize = 0;
    while i < posts.len()
        invariant
            i <= posts@.len(),
            forall|k: int|
                0 <= k < i && (#[trigger] posts@[k]).topic_id == post.topic_id
                    ==> posts@[k].post_id >= post.post_id,
        decreases posts@.len() - i,
    {
        if posts[i].topic_id == post.topic_id && posts[i].post_id < post.post_id {
            return false;
        }
        i += 1;
    }
    true
}

fn byline(posts: &[Byline], topic_id: i64) -> (r: Option<LastPost>)
    ensures
        byline_of(r, posts@, topic_id),
{
    let mut best: Option<&Byline> = None;
    let mut i: usize = 0;
    while i < posts.len()
        invariant
            i <= posts@.len(),
            match best {
                Some(post) => last_in(posts@.take(i as int), topic_id) == Some(*post),
                None => last_in(posts@.take(i as int), topic_id) is None,
            },
        decreases posts@.len() - i,
    {
        let one = &posts[i];
        assert(posts@.take(i + 1).drop_last() == posts@.take(i as int));
        assert(posts@.take(i + 1).last() == *one);
        if one.topic_id == topic_id {
            best = match best {
                Some(post) if one.post_id <= post.post_id => Some(post),
                _ => Some(one),
            };
        }
        i += 1;
    }
    assert(posts@.take(i as int) == posts@);
    match best {
        Some(post) => Some(
            LastPost {
                author_name: post.author_name.clone(),
                created_at: post.created_at,
                opens_the_topic: is_opening(posts, post),
            },
        ),
        None => None,
    }
}

fn select_topics(stored: Vec<StoredTopic>, space: &str, category: &str) -> (r: Vec<Topic>)
    ensures
        r@ == topics_in(stored@, space@, category@),
{
    let ghost given = stored@;
    let mut rest = stored;
    let mut out: Vec<Topic> = Vec::new();
    assert(given.take(0) == Seq::<StoredTopic>::empty());
    assert(given.skip(0) == given);
    while rest.len() > 0
        invariant
            rest@.len() <= given.len(),
            rest@ == given.skip(given.len() - rest@.len()),
            out@ == topics_in(given.take(given.len() - rest@.len()), space@, category@),
        decreases rest@.len(),
    {
        let ghost done = given.len() - rest@.len();
        let one = rest.remove(0);
        assert(one == given[done]);
        assert(rest@ == given.skip(done + 1));
        assert(given.take(done + 1).drop_last() == given.take(done));
        assert(given.take(done + 1).last() == one);
        if same(&one.topic.space, space) && !one.hidden && same(&one.topic.category, category) {
            out.push(one.topic);
        }
    }
    assert(given.take(given.len() as int) == given);
    out
}

/// The page that is asked for, within its limits.
pub open spec fn topics_listed(
    stored: Seq<StoredTopic>,
    space: Seq<char>,
    category: Seq<char>,
    limit: i64,
    offset: i64,
) -> Seq<Topic> {
    page_of(
        arranged(topics_in(stored, space, category), |a: Topic, b: Topic| livelier(a, b)),
        if limit < 1 {
            1
        } else if limit > MAX_PAGE {
            MAX_PAGE as int
        } else {
            limit as int
        },
        if offset < 0 {
            0
        } else {
            offset as int
        },
    )
}

/// The topics of a category, where something is going on first, each with who
/// wrote in it last. Withdrawn topics are not in the list.
pub fn list_topics(
    stored: Vec<StoredTopic>,
    posts: &[Byline],
    space: &str,
    category: &str,
    limit: i64,
    offset: i64,
) -> (r: Vec<(Topic, Option<LastPost>)>)
    ensures
        ({
            let wanted = topics_listed(stored@, space@, category@, limit, offset);
            &&& r@.len() == wanted.len()
            &&& forall|i: int|
                0 <= i < r@.len() ==> (#[trigger] r@[i]).0 == wanted[i] && byline_of(
                    r@[i].1,
                    posts@,
                    wanted[i].id,
                )
        }),
{
    let ghost wanted = topics_listed(stored@, space@, category@, limit, offset);
    let (limit, offset) = clamp_page(limit, offset);
    let found = select_topics(stored, space, category);
    let ghost before = |a: Topic, b: Topic| livelier(a, b);
    let above = |a: &Topic, b: &Topic| -> (r: bool)
        ensures
            r == livelier(*a, *b),
        { a.updated_at > b.updated_at || (a.updated_at == b.updated_at && a.id > b.id) };
    let mut rest = paged(arrange(found, above, Ghost(before)), limit, offset);
    assert(rest@ == wanted);
    let mut out: Vec<(Topic, Option<LastPost>)> = Vec::new();
    assert(wanted.skip(0) == wanted);
    while rest.len() > 0
        invariant
            rest@.len() + out@.len() == wanted.len(),
            rest@ == wanted.skip(out@.len() as int),
            forall|i: int|
                0 <= i < out@.len() ==> (#[trigger] out@[i]).0 == wanted[i] && byline_of(
                    out@[i].1,
                    posts@,
                    wanted[i].id,
                ),
        decreases rest@.len(),
    {
        let ghost done = out@.len() as int;
        let topic = rest.remove(0);
        assert(topic == wanted[done]);
        assert(rest@ == wanted.skip(done + 1));
        let last = byline(posts, topic.id);
        out.push((topic, last));
    }
    out
}

/// How many topics the front page of a forum shows under its sections.
pub const RECENT: i64 = 10;

/// Where something is going on, whatever the category: out of the lists of the
/// categories, put together, the topics that moved last.
pub fn recent_topics(found: Vec<(Topic, Option<LastPost>)>) -> (r: Vec<(Topic, Option<LastPost>)>)
    ensures
        r@ == page_of(
            arranged(
                found@,
                |a: (Topic, Option<LastPost>), b: (Topic, Option<LastPost>)| livelier(a.0, b.0),
            ),
            RECENT as int,
            0,
        ),
{
    let ghost before = |a: (Topic, Option<LastPost>), b: (Topic, Option<LastPost>)|
        livelier(a.0, b.0);
    let above = |a: &(Topic, Option<LastPost>), b: &(Topic, Option<LastPost>)| -> (r: bool)
        ensures
            r == livelier(a.0, b.0),
        { a.0.updated_at > b.0.updated_at || (a.0.updated_at == b.0.updated_at && a.0.id > b.0.id)
        };
    paged(arrange(found, above, Ghost(before)), RECENT, 0)
}

proof fn topics_found(stored: Seq<StoredTopic>, space: Seq<char>, category: Seq<char>, i: int)
    requires
        0 <= i < topics_in(stored, space, category).len(),
    ensures
        ({
            let topic = topics_in(stored, space, category)[i];
            topic.space@ == space && topic.category@ == category && exists|k: int|
                0 <= k < stored.len() && (#[trigger] stored[k]).topic == topic && !stored[k].hidden
        }),
    decreases stored.len(),
{
    let front = stored.drop_last();
    let before = topics_in(front, space, category);
    let topic = topics_in(stored, space, category)[i];
    if i < before.len() {
        topics_found(front, space, category, i);
        let k = choose|k: int|
            0 <= k < front.len() && (#[trigger] front[k]).topic == topic && !front[k].hidden;
        assert(stored[k] == front[k]);
    } else {
        assert(stored[stored.len() - 1].topic == topic);
    }
}

/// A list shows the topics of its own space and category, none that was
/// withdrawn, and where something is going on first: a reply lifts its topic.
pub proof fn a_list_is_newest_activity_first(
    stored: Seq<StoredTopic>,
    space: Seq<char>,
    category: Seq<char>,
    limit: i64,
    offset: i64,
)
    ensures
        ({
            let page = topics_listed(stored, space, category, limit, offset);
            &&& in_order(page, |a: Topic, b: Topic| livelier(a, b))
            &&& page.len() <= MAX_PAGE
            &&& forall|i: int|
                0 <= i < page.len() ==> (#[trigger] page[i]).space@ == space
                    && page[i].category@ == category && exists|k: int|
                    0 <= k < stored.len() && (#[trigger] stored[k]).topic == page[i]
                        && !stored[k].hidden
        }),
{
    broadcast use vstd::seq_lib::group_to_multiset_ensures;

    let before = |a: Topic, b: Topic| livelier(a, b);
    let found = topics_in(stored, space, category);
    let all = arranged(found, before);
    arranging_orders(found, before);
    let page = topics_listed(stored, space, category, limit, offset);
    let from = if offset < 0 {
        0
    } else if offset < all.len() {
        offset as int
    } else {
        all.len() as int
    };
    assert forall|i: int| 0 <= i < page.len() implies page[i] == #[trigger] all[from + i] by {}
    assert forall|i: int, j: int| 0 <= i < j < page.len() implies !before(
        #[trigger] page[j],
        #[trigger] page[i],
    ) by {
        assert(page[i] == all[from + i] && page[j] == all[from + j]);
    }
    assert forall|i: int| 0 <= i < page.len() implies (#[trigger] page[i]).space@ == space
        && page[i].category@ == category && exists|k: int|
        0 <= k < stored.len() && (#[trigger] stored[k]).topic == page[i] && !stored[k].hidden by {
        assert(page[i] == all[from + i]);
        assert(all.to_multiset().count(page[i]) > 0) by {
            assert(all.contains(page[i]));
        }
        assert(found.contains(page[i]));
        let k = choose|k: int| 0 <= k < found.len() && found[k] == page[i];
        topics_found(stored, space, category, k);
    }
}

/// A post, as far as deleting it goes.
#[derive(Debug)]
pub struct Written {
    pub id: i64,
    pub author_subject: String,
}

pub struct WrittenView {
    pub id: i64,
    pub author_subject: Seq<char>,
}

impl View for Written {
    type V = WrittenView;

    open spec fn view(&self) -> WrittenView {
        WrittenView { id: self.id, author_subject: self.author_subject@ }
    }
}

pub open spec fn written_view(posts: Seq<Written>) -> Seq<WrittenView> {
    Seq::new(posts.len(), |i: int| posts[i]@)
}

/// A topic, as far as changing a post under it goes.
#[derive(Debug)]
pub struct Thread {
    pub space: String,
    pub hidden: bool,
    pub posts: Vec<Written>,
}

pub struct ThreadView {
    pub space: Seq<char>,
    pub hidden: bool,
    pub posts: Seq<WrittenView>,
}

impl View for Thread {
    type V = ThreadView;

    open spec fn view(&self) -> ThreadView {
        ThreadView {
            space: self.space@,
            hidden: self.hidden,
            posts: written_view(self.posts@),
        }
    }
}

/// What taking a post back did, so the layer above can answer accordingly.
#[derive(Debug, Clone, Copy, PartialEq, Eq, Structural)]
pub enum Deleted {
    /// A reply is gone; the topic stands.
    Post,
    /// It was the opening post and nobody else had written: the topic went
    /// with it.
    Topic,
    /// The opening post, but other people have replied under it. Removing it
    /// would remove their words too, and "only your own" means exactly that.
    HasReplies,
    /// Not this person's, not in this space, or not there at all: three
    /// different reasons, one answer, because telling them apart would say
    /// something about posts the asker may not see.
    NotYours,
}

/// Is there such a post of this person's?
pub open spec fn wrote(posts: Seq<WrittenView>, post_id: i64, who: Seq<char>) -> bool {
    exists|i: int|
        0 <= i < posts.len() && (#[trigger] posts[i]).id == post_id && posts[i].author_subject
            == who
}

/// Is there such a post of this person's, in this space and in sight?
pub open spec fn is_yours(
    thread: Option<ThreadView>,
    space: Seq<char>,
    post_id: i64,
    who: Seq<char>,
) -> bool {
    &&& thread is Some
    &&& thread->0.space == space
    &&& !thread->0.hidden
    &&& wrote(thread->0.posts, post_id, who)
}

/// Does this post open the topic? Nothing under it was written earlier.
pub open spec fn opens(posts: Seq<WrittenView>, post_id: i64) -> bool {
    forall|i: int| 0 <= i < posts.len() ==> post_id <= (#[trigger] posts[i]).id
}

/// Has anybody else written there?
pub open spec fn others_wrote(posts: Seq<WrittenView>, who: Seq<char>) -> bool {
    exists|i: int| 0 <= i < posts.len() && (#[trigger] posts[i]).author_subject != who
}

/// What becomes of a request to take a post back.
pub open spec fn taking_back(
    thread: Option<ThreadView>,
    space: Seq<char>,
    post_id: i64,
    who: Seq<char>,
) -> Deleted {
    if !is_yours(thread, space, post_id, who) {
        Deleted::NotYours
    } else if !opens(thread->0.posts, post_id) {
        Deleted::Post
    } else if others_wrote(thread->0.posts, who) {
        Deleted::HasReplies
    } else {
        Deleted::Topic
    }
}

/// The posts without one of them.
pub open spec fn without(posts: Seq<WrittenView>, post_id: i64) -> Seq<WrittenView>
    decreases posts.len(),
{
    if posts.len() == 0 {
        Seq::empty()
    } else {
        let before = without(posts.drop_last(), post_id);
        if posts.last().id == post_id {
            before
        } else {
            before.push(posts.last())
        }
    }
}

/// The posts that stand after the request.
pub open spec fn left_standing(posts: Seq<WrittenView>, post_id: i64, outcome: Deleted) -> Seq<
    WrittenView,
> {
    match outcome {
        Deleted::Post => without(posts, post_id),
        Deleted::Topic => Seq::empty(),
        _ => posts,
    }
}

fn wrote_it(written: &[Written], post_id: i64, who: &str) -> (r: bool)
    ensures
        r == wrote(written_view(written@), post_id, who@),
{
    let ghost posts = written_view(written@);
    let mut i: usize = 0;
    while i < written.len()
        invariant
            i <= written@.len(),
            posts == written_view(written@),
            forall|k: int|
                0 <= k < i ==> !((#[trigger] posts[k]).id == post_id && posts[k].author_subject
                    == who@),
        decreases written@.len() - i,
    {
        let post = &written[i];
        assert(posts[i as int] == post@);
        if post.id == post_id && same(&post.author_subject, who) {
            return true;
        }
        i += 1;
    }
    false
}

fn yours(thread: &Option<Thread>, space: &str, post_id: i64, who: &str) -> (r: bool)
    ensures
        r == is_yours(
            match *thread {
                Some(t) => Some(t@),
                None => None,
            },
            space@,
            post_id,
            who@,
        ),
{
    match thread {
        Some(thread) => same(&thread.space, space) && !thread.hidden && wrote_it(
            &thread.posts,
            post_id,
            who,
        ),
        None => false,
    }
}

/// May this person rewrite the post? If it belongs to them **and** to this
/// space: a caller that forgets to look must not be able to write.
pub fn update_post(thread: &Option<Thread>, space: &str, post_id: i64, author: &Identity) -> (r:
    bool)
    ensures
        r == is_yours(
            match *thread {
                Some(t) => Some(t@),
                None => None,
            },
            space@,
            post_id,
            author@.subject,
        ),
{
    yours(thread, space, post_id, &author.subject)
}

/// Is this the post once somebody rewrote it? It says something else and shows
/// that it was edited; who wrote it where and when stays.
pub open spec fn rewritten(before: Post, after: Post, body: Seq<char>, now: i64) -> bool {
    &&& after.body_markdown@ == body
    &&& after.updated_at == now
    &&& after.edited
    &&& after.id == before.id
    &&& after.topic_id == before.topic_id
    &&& after.author_subject == before.author_subject
    &&& after.author_name == before.author_name
    &&& after.created_at == before.created_at
}

/// The row of a post once it is rewritten.
pub fn rewrite(post: Post, body: &str, now: i64) -> (r: Post)
    ensures
        rewritten(post, r, body@, now),
{
    Post { body_markdown: body.to_owned(), updated_at: now, edited: true, ..post }
}

/// The posts once the row of one of them is written anew.
pub open spec fn posts_with(posts: Seq<Post>, post: Post) -> Seq<Post> {
    posts.map_values(
        |p: Post|
            if p.id == post.id {
                post
            } else {
                p
            },
    )
}

proof fn posts_in_with(posts: Seq<Post>, post: Post, topic_id: i64)
    requires
        forall|i: int|
            0 <= i < posts.len() && (#[trigger] posts[i]).id == post.id ==> posts[i].topic_id
                == post.topic_id,
    ensures
        posts_in(posts_with(posts, post), topic_id) == posts_with(
            posts_in(posts, topic_id),
            post,
        ),
    decreases posts.len(),
{
    if posts.len() > 0 {
        let front = posts.drop_last();
        assert forall|i: int| 0 <= i < front.len() && (#[trigger] front[i]).id == post.id implies
            front[i].topic_id == post.topic_id by {
            assert(posts[i] == front[i]);
        }
        posts_in_with(front, post, topic_id);
        assert(posts_with(posts, post).drop_last() =~= posts_with(front, post));
        assert(posts[posts.len() - 1] == posts.last());
        let before = posts_in(front, topic_id);
        if posts.last().topic_id == topic_id {
            let one = if posts.last().id == post.id {
                post
            } else {
                posts.last()
            };
            assert(posts_with(before.push(posts.last()), post) =~= posts_with(before, post).push(
                one,
            ));
        }
    } else {
        assert(posts_with(posts, post) =~= posts);
    }
}

/// What was rewritten is what is read: the post says the new text, shows that
/// it was edited, and stands where it stood, and every other post of the topic
/// is as it was.
pub proof fn a_rewritten_post_comes_back(
    stored: Option<StoredTopic>,
    posts: Seq<Post>,
    space: Seq<char>,
    before: Post,
    after: Post,
    body: Seq<char>,
    now: i64,
)
    requires
        rewritten(before, after, body, now),
        posts.contains(before),
        forall|i: int|
            0 <= i < posts.len() && (#[trigger] posts[i]).id == before.id ==> posts[i] == before,
        loaded_from(stored, posts, space) is Some,
    ensures
        ({
            let (topic, read) = loaded_from(stored, posts, space)->0;
            let loaded = loaded_from(stored, posts_with(posts, after), space);
            let (topic_then, read_then) = loaded->0;
            &&& loaded is Some
            &&& topic_then == topic
            &&& read_then.len() == read.len()
            &&& forall|i: int|
                0 <= i < read.len() ==> #[trigger] read_then[i] == if read[i].id == before.id {
                    after
                } else {
                    read[i]
                }
            &&& after.body_markdown@ == body && after.edited && after.updated_at == now
        }),
{
    let topic = stored->0.topic;
    let order = |a: Post, b: Post| a.id < b.id;
    let change = |p: Post|
        if p.id == after.id {
            after
        } else {
            p
        };
    let mine = posts_in(posts, topic.id);
    posts_in_with(posts, after, topic.id);
    arranging_views(mine, change, order, order);
    assert(posts_with(mine, after) =~= mine.map_values(change));
    let (_, read_then) = loaded_from(stored, posts_with(posts, after), space)->0;
    assert(read_then == arranged(mine.map_values(change), order));
}

/// The topic after a request to take a post back: where a reply goes the topic
/// has moved, and with its opening post it is gone.
pub open spec fn topic_after(topic: StoredTopic, outcome: Deleted, now: i64) -> Option<
    StoredTopic,
> {
    match outcome {
        Deleted::Post => Some(
            StoredTopic { topic: Topic { updated_at: now, ..topic.topic }, ..topic },
        ),
        Deleted::Topic => None,
        _ => Some(topic),
    }
}

/// The row of a topic after a request to take one of its posts back.
pub fn after_taking_back(topic: StoredTopic, outcome: Deleted, now: i64) -> (r: Option<StoredTopic>)
    ensures
        r == topic_after(topic, outcome, now),
{
    match outcome {
        Deleted::Post => Some(
            StoredTopic { topic: Topic { updated_at: now, ..topic.topic }, hidden: topic.hidden },
        ),
        Deleted::Topic => None,
        Deleted::HasReplies => Some(topic),
        Deleted::NotYours => Some(topic),
    }
}

/// Decides what becomes of a request to take a post back. The opening post is
/// the topic: with nobody else underneath, taking it back takes the topic.
pub fn delete_post(thread: &Option<Thread>, space: &str, post_id: i64, author: &Identity) -> (r:
    Deleted)
    ensures
        r == taking_back(
            match *thread {
                Some(t) => Some(t@),
                None => None,
            },
            space@,
            post_id,
            author@.subject,
        ),
{
    if !yours(thread, space, post_id, &author.subject) {
        return Deleted::NotYours;
    }
    let thread = match thread {
        Some(thread) => thread,
        None => {
            return Deleted::NotYours;
        },
    };
    let ghost posts = thread@.posts;
    let mut first = true;
    let mut others = false;
    let mut i: usize = 0;
    while i < thread.posts.len()
        invariant
            i <= thread.posts@.len(),
            posts == thread@.posts,
            first == forall|k: int| 0 <= k < i ==> post_id <= (#[trigger] posts[k]).id,
            others == exists|k: int|
                0 <= k < i && (#[trigger] posts[k]).author_subject != author@.subject,
        decreases thread.posts@.len() - i,
    {
        let post = &thread.posts[i];
        assert(posts[i as int] == post@);
        if post.id < post_id {
            first = false;
        }
        if !same(&post.author_subject, &author.subject) {
            others = true;
        }
        i += 1;
    }
    if !first {
        Deleted::Post
    } else if others {
        Deleted::HasReplies
    } else {
        Deleted::Topic
    }
}

proof fn without_keeps(posts: Seq<WrittenView>, post_id: i64, i: int)
    requires
        0 <= i < posts.len(),
        posts[i].id != post_id,
    ensures
        without(posts, post_id).contains(posts[i]),
    decreases posts.len(),
{
    let before = without(posts.drop_last(), post_id);
    let after = without(posts, post_id);
    if i == posts.len() - 1 {
        assert(after[before.len() as int] == posts[i]);
    } else {
        without_keeps(posts.drop_last(), post_id, i);
        let j = choose|j: int| 0 <= j < before.len() && before[j] == posts[i];
        assert(after[j] == posts[i]);
    }
}

/// Nobody takes back anybody else's words: whatever a request does, every post
/// of every other person still stands afterwards.
pub proof fn only_your_own(
    thread: ThreadView,
    space: Seq<char>,
    post_id: i64,
    who: Seq<char>,
    i: int,
)
    requires
        forall|a: int, b: int|
            0 <= a < b < thread.posts.len() ==> (#[trigger] thread.posts[a]).id != (
            #[trigger] thread.posts[b]).id,
        0 <= i < thread.posts.len(),
        thread.posts[i].author_subject != who,
    ensures
        left_standing(
            thread.posts,
            post_id,
            taking_back(Some(thread), space, post_id, who),
        ).contains(thread.posts[i]),
{
    let outcome = taking_back(Some(thread), space, post_id, who);
    let posts = thread.posts;
    if outcome == Deleted::Post {
        let mine = choose|k: int|
            0 <= k < posts.len() && (#[trigger] posts[k]).id == post_id
                && posts[k].author_subject == who;
        assert(posts[mine].id == post_id);
        assert(mine != i);
        without_keeps(posts, post_id, i);
    } else if outcome == Deleted::Topic {
        assert(others_wrote(posts, who));
    } else {
        assert(posts[i] == thread.posts[i]);
    }
}

/// Through the wrong address nothing is changed, and neither is a topic that
/// was withdrawn.
pub proof fn the_wrong_address_changes_nothing(
    thread: ThreadView,
    space: Seq<char>,
    post_id: i64,
    who: Seq<char>,
)
    requires
        thread.space != space || thread.hidden,
    ensures
        taking_back(Some(thread), space, post_id, who) == Deleted::NotYours,
        left_standing(
            thread.posts,
            post_id,
            taking_back(Some(thread), space, post_id, who),
        ) == thread.posts,
{
}

/// What goes with a post that was written: everything that is stored together
/// with it. A post that exists while its subscription or its notifications do
/// not is a post nobody hears about, and nothing later can tell that it
/// happened.
#[derive(Debug)]
pub struct Effects {
    /// Who follows the topic from now on.
    pub followers: Vec<String>,
    /// Whose bell says that they were mentioned.
    pub mentioned: Vec<String>,
    /// Whose bell says that there is a reply.
    pub replied: Vec<String>,
    /// What is owed by mail and by the webhook.
    pub owed: Vec<Queued>,
}

pub struct EffectsView {
    pub followers: Seq<Seq<char>>,
    pub mentioned: Seq<Seq<char>>,
    pub replied: Seq<Seq<char>>,
    pub owed: Seq<QueuedView>,
}

impl View for Effects {
    type V = EffectsView;

    open spec fn view(&self) -> EffectsView {
        EffectsView {
            followers: texts(self.followers@),
            mentioned: texts(self.mentioned@),
            replied: texts(self.replied@),
            owed: queued_view(self.owed@),
        }
    }
}

/// A topic that is opened: its row, the row of its opening post, and what else
/// follows. They are written together: a topic without its first post would be
/// an empty page nobody can repair.
#[derive(Debug)]
pub struct Opened {
    pub topic: TopicDraft,
    pub post: PostDraft,
    pub effects: Effects,
}

/// A reply: its row, the moment its topic moves to, and what else follows. They
/// are written together: a topic that moved without a post to show for it would
/// sort to the top of the list and show nothing new.
#[derive(Debug)]
pub struct Replied {
    pub post: PostDraft,
    pub moved_at: i64,
    pub effects: Effects,
}

/// Those of the first list that are in the second.
pub open spec fn both(list: Seq<Seq<char>>, other: Seq<Seq<char>>) -> Seq<Seq<char>>
    decreases list.len(),
{
    if list.len() == 0 {
        Seq::empty()
    } else {
        let before = both(list.drop_last(), other);
        if other.contains(list.last()) {
            before.push(list.last())
        } else {
            before
        }
    }
}

fn in_both(list: &[String], other: &[String]) -> (r: Vec<String>)
    ensures
        texts(r@) == both(texts(list@), texts(other@)),
{
    let ghost all = texts(list@);
    let mut out: Vec<String> = Vec::new();
    let mut i: usize = 0;
    assert(texts(out@) =~= both(all.take(0), texts(other@)));
    while i < list.len()
        invariant
            i <= list@.len(),
            all == texts(list@),
            texts(out@) == both(all.take(i as int), texts(other@)),
        decreases list@.len() - i,
    {
        assert(all.take(i + 1).drop_last() == all.take(i as int));
        assert(all.take(i + 1).last() == list@[i as int]@);
        if listed(other, &list[i]) {
            let ghost before = texts(out@);
            out.push(list[i].clone());
            assert(texts(out@) =~= before.push(list@[i as int]@));
        }
        i += 1;
    }
    assert(all.take(i as int) == all);
    out
}

/// What goes with a topic that is opened.
pub open spec fn opening_effects(
    author: Seq<char>,
    told: Seq<Seq<char>>,
    mail_wanted: Seq<Seq<char>>,
) -> EffectsView {
    let mentioned = newly_told(Seq::empty(), told);
    EffectsView {
        followers: seq![author],
        mentioned,
        replied: Seq::empty(),
        owed: mails(both(mentioned, mail_wanted), "mention"@).push(webhook_row(author)),
    }
}

/// What goes with a reply.
pub open spec fn reply_effects(
    followers: Seq<Seq<char>>,
    author: Seq<char>,
    told: Seq<Seq<char>>,
    mail_wanted: Seq<Seq<char>>,
) -> EffectsView {
    let mentioned = newly_told(Seq::empty(), told);
    let after = following(followers, author);
    EffectsView {
        followers: after,
        mentioned,
        replied: newly_told(mentioned, all_but(after, author)),
        owed: mails(both(mentioned, mail_wanted), "mention"@) + owed_for_reply(after, author),
    }
}

/// What goes with a topic that is opened. `told` are the people it mentions
/// who may read it, and `mail_wanted` those who want a mail when mentioned.
///
/// WRITING SUBSCRIBES YOU: opening a topic or replying to one is the clearest
/// statement that you want to know what happens next. By mail nothing goes out
/// for the followers, since the only one is who wrote it, but whoever runs the
/// place wants to know that one was opened.
pub fn create_topic(
    space: &str,
    category: &str,
    title: &str,
    body: &str,
    author: &Identity,
    now: i64,
    told: &[String],
    mail_wanted: &[String],
) -> (r: Opened)
    ensures
        topic_drafted(r.topic, space@, category@, title@, author@, now),
        post_drafted(r.post, body@, author@, now),
        r.effects@ == opening_effects(author@.subject, texts(told@), texts(mail_wanted@)),
{
    let nobody: Vec<String> = Vec::new();
    assert(texts(nobody@) =~= Seq::empty());
    let mentioned = note_mentions_in(&nobody, told);
    let mut owed = queue_mentions(&in_both(&mentioned, mail_wanted));
    let ghost before = queued_view(owed@);
    owed.push(queue_webhook(&author.subject));
    assert(queued_view(owed@) =~= before.push(webhook_row(author@.subject)));
    let followers: Vec<String> = vec![author.subject.clone()];
    assert(texts(followers@) =~= seq![author@.subject]);
    Opened {
        topic: TopicDraft {
            space: space.to_owned(),
            category: category.to_owned(),
            title: title.to_owned(),
            author_subject: author.subject.clone(),
            author_name: author.name.clone(),
            created_at: now,
            updated_at: now,
        },
        post: draft_post(body, author, now),
        effects: Effects { followers, mentioned, replied: nobody, owed },
    }
}

/// What goes with a reply. The mentions come first, so that a follower who was
/// mentioned has one entry and not two.
pub fn add_reply(
    followers: &[String],
    body: &str,
    author: &Identity,
    now: i64,
    told: &[String],
    mail_wanted: &[String],
) -> (r: Replied)
    ensures
        post_drafted(r.post, body@, author@, now),
        r.moved_at == now,
        r.effects@ == reply_effects(
            texts(followers@),
            author@.subject,
            texts(told@),
            texts(mail_wanted@),
        ),
{
    let nobody: Vec<String> = Vec::new();
    assert(texts(nobody@) =~= Seq::empty());
    let after = follow(followers, &author.subject);
    let mentioned = note_mentions_in(&nobody, told);
    let replied = note_replies_in(&mentioned, &after, &author.subject);
    let mut owed = queue_mentions(&in_both(&mentioned, mail_wanted));
    let mut more = queue_for_followers(&after, &author.subject);
    let ghost first = queued_view(owed@);
    let ghost second = queued_view(more@);
    owed.append(&mut more);
    assert(queued_view(owed@) =~= first + second);
    Replied {
        post: draft_post(body, author, now),
        moved_at: now,
        effects: Effects { followers: after, mentioned, replied, owed },
    }
}

/// Whose bell says that they were mentioned, when a post is rewritten: only
/// those who had no entry for it yet, and those are the ones who get a mail.
pub fn update_mentions(existing: &[String], told: &[String], mail_wanted: &[String]) -> (r: (
    Vec<String>,
    Vec<Queued>,
))
    ensures
        texts(r.0@) == newly_told(texts(existing@), texts(told@)),
        queued_view(r.1@) == mails(
            both(newly_told(texts(existing@), texts(told@)), texts(mail_wanted@)),
            "mention"@,
        ),
{
    let mentioned = note_mentions_in(existing, told);
    let owed = queue_mentions(&in_both(&mentioned, mail_wanted));
    (mentioned, owed)
}

/// Writing subscribes: whoever writes follows the topic, whoever followed
/// before still does, and nobody else does.
pub proof fn writing_subscribes(
    followers: Seq<Seq<char>>,
    author: Seq<char>,
    told: Seq<Seq<char>>,
    mail_wanted: Seq<Seq<char>>,
    x: Seq<char>,
)
    ensures
        ({
            let after = reply_effects(followers, author, told, mail_wanted).followers;
            &&& after.contains(x) <==> followers.contains(x) || x == author
            &&& opening_effects(author, told, mail_wanted).followers.contains(author)
        }),
{
    assert(seq![author][0] == author);
    let after = following(followers, author);
    if !followers.contains(author) {
        assert(after[followers.len() as int] == author);
        if followers.contains(x) {
            let k = choose|k: int| 0 <= k < followers.len() && followers[k] == x;
            assert(after[k] == x);
        }
        if after.contains(x) {
            let k = choose|k: int| 0 <= k < after.len() && after[k] == x;
            if k < followers.len() {
                assert(followers[k] == x);
            }
        }
    }
}

/// Nobody's bell rings twice for one post, and the writer's rings for it only
/// if the post mentions them.
pub proof fn one_post_one_ring(
    followers: Seq<Seq<char>>,
    author: Seq<char>,
    told: Seq<Seq<char>>,
    mail_wanted: Seq<Seq<char>>,
    x: Seq<char>,
)
    ensures
        ({
            let r = reply_effects(followers, author, told, mail_wanted);
            &&& !(r.mentioned.contains(x) && r.replied.contains(x))
            &&& !r.replied.contains(author)
            &&& r.mentioned.contains(x) <==> told.contains(x)
        }),
{
    let after = following(followers, author);
    told_once(Seq::empty(), told);
    let mentioned = newly_told(Seq::empty(), told);
    told_once(mentioned, all_but(after, author));
    all_but_one(after, author);
    let r = reply_effects(followers, author, told, mail_wanted);
    assert(r.mentioned.contains(x) <==> told.contains(x) && !Seq::<Seq<char>>::empty().contains(x));
    assert(r.replied.contains(x) <==> all_but(after, author).contains(x) && !mentioned.contains(x));
    assert(r.replied.contains(author) <==> all_but(after, author).contains(author)
        && !mentioned.contains(author));
    assert(all_but(after, author).contains(author) <==> after.contains(author) && author != author);
}

} // verus!
