//! What becomes of a thread when somebody writes, reads or takes back.
use crate::authz::IdentityView;
use crate::complaints::{complaint, complaint_about, complaint_in, missing_in, Part};
use crate::db::attachments::path_below;
use crate::db::inbox::{
    all_but, events_read, newly_told, space_read, topic_read, RowView, StoredView,
};
use crate::db::outbox::{mails, owed_for_reply, QueuedView};
use crate::db::subscriptions::following;
use crate::db::topics::{
    both, byline_of, last_in, left_standing, opening_effects, post_drafted, posts_with,
    reply_effects, rewritten, topic_after, topic_drafted, without, Byline, Deleted, LastPost, Post,
    PostDraft, StoredTopic, TopicDraft, WrittenView,
};
use crate::export::quotable;
use crate::media::{flags_cleared, kind_of_mime, MediaType};
use crate::tree::{entry, TreeView};
use vstd::prelude::*;
use vstd::string::*;

verus! {

/// Whoever is told of something is told once, and not again if they were told
/// before.
pub proof fn one_more_to_tell(
    before: Seq<Seq<char>>,
    subjects: Seq<Seq<char>>,
    one: Seq<char>,
)
    ensures
        newly_told(before, Seq::empty()) == Seq::<Seq<char>>::empty(),
        newly_told(before, subjects.push(one)) == if before.contains(one) || newly_told(
            before,
            subjects,
        ).contains(one) {
            newly_told(before, subjects)
        } else {
            newly_told(before, subjects).push(one)
        },
{
    assert(subjects.push(one).drop_last() == subjects);
}

/// Whoever is told is among those who are to be told, and was not told before;
/// and everybody who is to be told, and was not, is.
pub proof fn who_is_newly_told(before: Seq<Seq<char>>, subjects: Seq<Seq<char>>, x: Seq<char>)
    ensures
        newly_told(before, subjects).contains(x) <==> subjects.contains(x) && !before.contains(x),
        newly_told(before, subjects).no_duplicates(),
    decreases subjects.len(),
{
    if subjects.len() > 0 {
        let front = subjects.drop_last();
        let last = subjects.last();
        who_is_newly_told(before, front, x);
        let told = newly_told(before, front);
        assert(subjects == front.push(last));
        assert(subjects.contains(x) <==> front.contains(x) || x == last) by {
            if front.contains(x) {
                let i = choose|i: int| 0 <= i < front.len() && front[i] == x;
                assert(subjects[i] == x);
            }
            if x == last {
                assert(subjects[subjects.len() - 1] == x);
            }
            if subjects.contains(x) {
                let i = choose|i: int| 0 <= i < subjects.len() && subjects[i] == x;
                if i < front.len() {
                    assert(front[i] == x);
                }
            }
        }
        if !(before.contains(last) || told.contains(last)) {
            assert(told.push(last).contains(x) <==> told.contains(x) || x == last) by {
                if told.contains(x) {
                    let i = choose|i: int| 0 <= i < told.len() && told[i] == x;
                    assert(told.push(last)[i] == x);
                }
                if x == last {
                    assert(told.push(last)[told.len() as int] == x);
                }
                if told.push(last).contains(x) {
                    let i = choose|i: int|
                        0 <= i < told.push(last).len() && told.push(last)[i] == x;
                    if i < told.len() {
                        assert(told[i] == x);
                    }
                }
            }
        }
    }
}

/// Whoever opens a topic follows it. Whoever it mentions is told of that, once;
/// a mail goes to those of them who want one, and one signal goes out.
pub proof fn what_a_new_topic_does(
    author: Seq<char>,
    told: Seq<Seq<char>>,
    mail_wanted: Seq<Seq<char>>,
)
    ensures
        ({
            let done = opening_effects(author, told, mail_wanted);
            &&& done.followers == seq![author]
            &&& done.mentioned == newly_told(Seq::empty(), told)
            &&& done.replied.len() == 0
            &&& done.owed.len() == both(done.mentioned, mail_wanted).len() + 1
            &&& done.owed.last() == (QueuedView {
                subject: author,
                kanal: "webhook"@,
                reason: "reply"@,
            })
            &&& forall|i: int|
                0 <= i < done.owed.len() - 1 ==> #[trigger] done.owed[i] == (QueuedView {
                    subject: both(done.mentioned, mail_wanted)[i],
                    kanal: "mail"@,
                    reason: "mention"@,
                })
        }),
{
}

/// Whoever replies follows the topic from then on. Whoever the reply mentions is
/// told of that, and every other follower, but not the writer, of the reply.
pub proof fn what_a_reply_does(
    followers: Seq<Seq<char>>,
    author: Seq<char>,
    told: Seq<Seq<char>>,
    mail_wanted: Seq<Seq<char>>,
)
    ensures
        ({
            let done = reply_effects(followers, author, told, mail_wanted);
            let mentions = both(done.mentioned, mail_wanted);
            &&& followers.contains(author) ==> done.followers == followers
            &&& !followers.contains(author) ==> done.followers == followers.push(author)
            &&& done.mentioned == newly_told(Seq::empty(), told)
            &&& done.replied == newly_told(done.mentioned, all_but(done.followers, author))
            &&& done.owed == mails(mentions, "mention"@) + owed_for_reply(done.followers, author)
        }),
        !followers.contains(author) ==> following(followers, author) == followers.push(author),
        followers.contains(author) ==> following(followers, author) == followers,
{
}

/// Those who are in two lists stand in the order of the first.
pub proof fn one_more_in_both(list: Seq<Seq<char>>, other: Seq<Seq<char>>, one: Seq<char>)
    ensures
        both(Seq::empty(), other) == Seq::<Seq<char>>::empty(),
        both(list.push(one), other) == if other.contains(one) {
            both(list, other).push(one)
        } else {
            both(list, other)
        },
{
    assert(list.push(one).drop_last() == list);
}

/// Reading a topic reads what is about it and nothing else, and reading a space
/// what is in it; whatever was read stays read, and what is said stays said.
pub proof fn what_reading_does(
    rows: Seq<RowView>,
    events: Seq<StoredView>,
    topic_id: i64,
    space: Seq<char>,
    i: int,
    j: int,
)
    requires
        0 <= i < rows.len(),
        0 <= j < events.len(),
    ensures
        topic_read(rows, topic_id).len() == rows.len(),
        rows[i].topic_id == topic_id ==> topic_read(rows, topic_id)[i] == (RowView {
            unread: false,
            ..rows[i]
        }),
        rows[i].topic_id != topic_id ==> topic_read(rows, topic_id)[i] == rows[i],
        space_read(rows, space).len() == rows.len(),
        rows[i].space == space ==> space_read(rows, space)[i] == (RowView {
            unread: false,
            ..rows[i]
        }),
        rows[i].space != space ==> space_read(rows, space)[i] == rows[i],
        events_read(events, space).len() == events.len(),
        events[j].space == space ==> events_read(events, space)[j] == (StoredView {
            unread: false,
            ..events[j]
        }),
        events[j].space != space ==> events_read(events, space)[j] == events[j],
{
}

/// Taking back a post leaves every other one; taking back a topic leaves none,
/// and a refusal leaves all as they are.
pub proof fn what_taking_back_leaves(
    posts: Seq<WrittenView>,
    one: WrittenView,
    post_id: i64,
    topic: StoredTopic,
    now: i64,
)
    ensures
        left_standing(posts, post_id, Deleted::Topic).len() == 0,
        left_standing(posts, post_id, Deleted::HasReplies) == posts,
        left_standing(posts, post_id, Deleted::NotYours) == posts,
        left_standing(posts, post_id, Deleted::Post) == without(posts, post_id),
        without(Seq::empty(), post_id) == Seq::<WrittenView>::empty(),
        without(posts.push(one), post_id) == if one.id == post_id {
            without(posts, post_id)
        } else {
            without(posts, post_id).push(one)
        },
        topic_after(topic, Deleted::Topic, now) is None,
        topic_after(topic, Deleted::NotYours, now) == Some(topic),
        topic_after(topic, Deleted::HasReplies, now) == Some(topic),
        topic_after(topic, Deleted::Post, now) matches Some(after) && {
            &&& after.topic.updated_at == now
            &&& after.hidden == topic.hidden
            &&& after.topic.id == topic.topic.id
            &&& after.topic.space == topic.topic.space
            &&& after.topic.category == topic.topic.category
            &&& after.topic.title == topic.topic.title
            &&& after.topic.author_subject == topic.topic.author_subject
            &&& after.topic.author_name == topic.topic.author_name
            &&& after.topic.created_at == topic.topic.created_at
        },
{
    assert(posts.push(one).drop_last() == posts);
}

/// A post that is written anew stands where it stood, and no other changes.
pub proof fn one_post_is_replaced(posts: Seq<Post>, post: Post, i: int)
    requires
        0 <= i < posts.len(),
    ensures
        posts_with(posts, post).len() == posts.len(),
        posts[i].id == post.id ==> posts_with(posts, post)[i] == post,
        posts[i].id != post.id ==> posts_with(posts, post)[i] == posts[i],
{
}

/// A picture is stored under its id and the ending of its kind, and served
/// under its kind's name.
pub proof fn where_a_picture_is(id: Seq<char>, mime: Seq<char>)
    ensures
        path_below(id, MediaType::Jpeg) == "attachments/"@ + id + seq!['.', 'j', 'p', 'g'],
        path_below(id, MediaType::Png) == "attachments/"@ + id + seq!['.', 'p', 'n', 'g'],
        path_below(id, MediaType::Gif) == "attachments/"@ + id + seq!['.', 'g', 'i', 'f'],
        path_below(id, MediaType::Webp) == "attachments/"@ + id + seq!['.', 'w', 'e', 'b', 'p'],
        MediaType::Jpeg.mime_text() == "image/jpeg"@,
        MediaType::Png.mime_text() == "image/png"@,
        MediaType::Gif.mime_text() == "image/gif"@,
        MediaType::Webp.mime_text() == "image/webp"@,
        kind_of_mime(mime) is Some <==> mime == "image/jpeg"@ || mime == "image/png"@ || mime
            == "image/gif"@ || mime == "image/webp"@,
{
    reveal_strlit(".");
    reveal_strlit("jpg");
    reveal_strlit("png");
    reveal_strlit("gif");
    reveal_strlit("webp");
    assert("."@ + "jpg"@ == seq!['.', 'j', 'p', 'g']);
    assert("."@ + "png"@ == seq!['.', 'p', 'n', 'g']);
    assert("."@ + "gif"@ == seq!['.', 'g', 'i', 'f']);
    assert("."@ + "webp"@ == seq!['.', 'w', 'e', 'b', 'p']);
    let front = "attachments/"@ + id;
    assert(front + "."@ + "jpg"@ == front + ("."@ + "jpg"@));
    assert(front + "."@ + "png"@ == front + ("."@ + "png"@));
    assert(front + "."@ + "gif"@ == front + ("."@ + "gif"@));
    assert(front + "."@ + "webp"@ == front + ("."@ + "webp"@));
}

/// A path can be written between quotes if there is neither a quote nor a null
/// byte in it.
pub proof fn what_can_be_quoted(front: Seq<char>, c: char)
    ensures
        quotable(Seq::empty()),
        quotable(front.push(c)) <==> quotable(front) && c != '\'' && c != '\0',
{
    let path = front.push(c);
    assert(path.last() == c);
    assert forall|x: char| #[trigger] path.contains(x) <==> front.contains(x) || x == c by {
        if front.contains(x) {
            let i = choose|i: int| 0 <= i < front.len() && front[i] == x;
            assert(path[i] == x);
        }
        if x == c {
            assert(path[front.len() as int] == x);
        }
        if path.contains(x) {
            let i = choose|i: int| 0 <= i < path.len() && path[i] == x;
            if i < front.len() {
                assert(front[i] == x);
            }
        }
    }
}

/// Only the byte with the flags changes, and only the two flags in it that say
/// there is something else than a picture.
pub proof fn which_flags_are_cleared(body: Seq<u8>, at: int, i: int)
    requires
        0 <= at < body.len(),
        0 <= i < body.len(),
    ensures
        i != at ==> flags_cleared(body, Some(at))[i] == body[i],
        flags_cleared(body, Some(at))[at] & 0x04 == 0,
        flags_cleared(body, Some(at))[at] & 0x08 == 0,
        flags_cleared(body, Some(at))[at] | 0x0C == body[at] | 0x0C,
        flags_cleared(body, Some(at)).len() == body.len(),
        flags_cleared(body, None) == body,
{
    let b = body[at];
    assert((b & 0xF3) & 0x04 == 0 && (b & 0xF3) & 0x08 == 0 && (b & 0xF3) | 0x0C == b | 0x0C)
        by (bit_vector);
}

/// What is wrong with a configuration is said of the first thing that is: a
/// name that means nothing, a value of the wrong kind, or what is missing.
pub proof fn what_is_complained_about(
    front: Seq<(Seq<char>, TreeView)>,
    key: Seq<char>,
    tree: TreeView,
    back: Seq<(Seq<char>, TreeView)>,
    part: Part,
)
    requires
        forall|i: int|
            0 <= i < front.len() ==> complaint_about(
                part,
                (#[trigger] front[i]).0,
                front[i].1,
            ) is None,
    ensures
        complaint_about(part, key, tree) is Some ==> complaint_in(
            part,
            front.push((key, tree)) + back,
        ) == complaint_about(part, key, tree),
        complaint_in(part, front) is None,
    decreases front.len(),
{
    let all = front.push((key, tree)) + back;
    if front.len() > 0 {
        let rest = front.drop_first();
        assert forall|i: int| 0 <= i < rest.len() implies complaint_about(
            part,
            (#[trigger] rest[i]).0,
            rest[i].1,
        ) is None by {
            assert(rest[i] == front[i + 1]);
        }
        what_is_complained_about(rest, key, tree, back, part);
        assert(all.drop_first() == rest.push((key, tree)) + back);
        assert(all[0] == front[0]);
        assert(complaint_about(part, front[0].0, front[0].1) is None);
    } else {
        assert(all[0] == (key, tree));
    }
}

/// What is said of a value of the wrong kind, and of a name that is missing.
pub proof fn how_a_complaint_sounds(
    tree: TreeView,
    entries: Seq<(Seq<char>, TreeView)>,
    key: Seq<char>,
)
    ensures
        !(tree is Text) ==> complaint_about(Part::Category, "slug"@, tree) == Some(
            "invalid type for `"@ + "slug"@ + "`, expected a string"@,
        ),
        tree is Text ==> complaint_about(Part::Category, "slug"@, tree) is None,
        !(tree is List) ==> complaint_about(Part::Category, "post"@, tree) == Some(
            "invalid type for `"@ + "post"@ + "`, expected a list of strings"@,
        ),
        entry(entries, key) is None ==> missing_in(entries, seq![key]) == Some(
            "missing field `"@ + key + "`"@,
        ),
        entry(entries, key) is Some ==> missing_in(entries, seq![key]) is None,
        tree is Text ==> complaint(Part::Config, key, tree) == Some(
            "invalid type for `"@ + key + "`, expected a table"@,
        ),
{
    reveal_strlit("invalid type for ");
    reveal_strlit("invalid type for `");
    reveal_strlit("`");
    reveal_strlit(", expected ");
    reveal_strlit("a string");
    reveal_strlit("a table");
    reveal_strlit("a list of strings");
    reveal_strlit("`, expected a string");
    reveal_strlit("`, expected a table");
    reveal_strlit("`, expected a list of strings");
    reveal_strlit("missing field ");
    reveal_strlit("missing field `");
    reveal_strlit("slug");
    reveal_strlit("post");
    reveal_strlit("reply");
    assert("slug"@[0] != "post"@[0] && "slug"@.len() != "reply"@.len());
    assert("invalid type for "@ + "`"@ == "invalid type for `"@);
    assert("missing field "@ + "`"@ == "missing field `"@);
    assert("`"@ + ", expected "@ + "a string"@ == "`, expected a string"@);
    assert("`"@ + ", expected "@ + "a table"@ == "`, expected a table"@);
    assert("`"@ + ", expected "@ + "a list of strings"@ == "`, expected a list of strings"@);
    assert(crate::complaints::wrong_kind("slug"@, "a string"@) == "invalid type for `"@ + "slug"@
        + "`, expected a string"@);
    assert(crate::complaints::wrong_kind("post"@, "a list of strings"@) == "invalid type for `"@
        + "post"@ + "`, expected a list of strings"@);
    assert(crate::complaints::wrong_kind(key, "a table"@) == "invalid type for `"@ + key
        + "`, expected a table"@);
    assert(crate::complaints::missing_field(key) == "missing field `"@ + key + "`"@);
    reveal_with_fuel(missing_in, 2);
}

/// What is written down of a new topic and a new post is what was written, by
/// whom and when.
pub proof fn what_is_written_down(
    topic: TopicDraft,
    post: PostDraft,
    space: Seq<char>,
    category: Seq<char>,
    title: Seq<char>,
    body: Seq<char>,
    author: IdentityView,
    now: i64,
)
    ensures
        topic_drafted(topic, space, category, title, author, now) <==> topic.space@ == space
            && topic.category@ == category && topic.title@ == title && topic.author_subject@
            == author.subject && topic.author_name@ == author.name && topic.created_at == now
            && topic.updated_at == now,
        post_drafted(post, body, author, now) <==> post.body_markdown@ == body
            && post.author_subject@ == author.subject && post.author_name@ == author.name
            && post.created_at == now && post.updated_at == now,
{
}

/// A post that is written anew says what was written, is marked as edited, and
/// keeps its author, its place and the moment it was first written.
pub proof fn what_is_written_anew(before: Post, after: Post, body: Seq<char>, now: i64)
    requires
        rewritten(before, after, body, now),
    ensures
        after.body_markdown@ == body,
        after.edited,
        after.updated_at == now,
        after.created_at == before.created_at,
        after.id == before.id,
        after.topic_id == before.topic_id,
        after.author_subject == before.author_subject,
        after.author_name == before.author_name,
{
}

/// The last post of a topic is said to be its author's and of its moment, and to
/// open the topic if none has a lower number.
pub proof fn who_wrote_last(
    last: Option<LastPost>,
    posts: Seq<Byline>,
    post: Byline,
    topic_id: i64,
)
    requires
        byline_of(last, posts, topic_id),
    ensures
        last_in(posts, topic_id) is None ==> last is None,
        last_in(posts, topic_id) == Some(post) ==> last is Some && last->0.author_name@
            == post.author_name@ && last->0.created_at == post.created_at,
        last_in(posts, topic_id) == Some(post) ==> (last->0.opens_the_topic <==> forall|i: int|
            0 <= i < posts.len() && (#[trigger] posts[i]).topic_id == post.topic_id
                ==> posts[i].post_id >= post.post_id),
{
}

} // verus!
