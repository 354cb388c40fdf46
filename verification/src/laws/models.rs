//! What the library knows of a value is what the value holds, field by field.
use crate::articles::Article;
use crate::authz::Identity;
use crate::config::{Category, Config, Events, Space, categories_view, events_view, spaces_view};
use crate::db::accounts::Known;
use crate::db::directory::{Account, Group, Reader, User};
use crate::db::events::{Checked, Link, Raw};
use crate::db::inbox::{Entry, EntryView, Row, Stored};
use crate::db::likes::{Like, LikedPost, Noted, Summary};
use crate::db::outbox::{Owed, Queued, queued_view};
use crate::db::search::{Found, Hit};
use crate::db::topics::{Effects, Thread, Written, written_view};
use crate::mentions::Offer;
use crate::notify::Message;
use crate::text::{text_of, texts};
use crate::web::scim::Change;
use vstd::prelude::*;

verus! {

/// What is known of an `Article` is what it holds.
pub proof fn what_an_article_holds(one: Article)
    ensures
        one@.key == one.key@,
        one@.title == one.title@,
        one@.body == one.body@,
        one@.published_at == one.published_at,
{
}

/// What is known of an `Identity` is what it holds.
pub proof fn what_an_identity_holds(one: Identity)
    ensures
        one@.subject == one.subject@,
        one@.name == one.name@,
        one@.groups == texts(one.groups@),
        one@.email == text_of(one.email),
        one@.handle == text_of(one.handle),
{
}

/// What is known of a `Known` is what it holds.
pub proof fn what_a_known_holds(one: Known)
    ensures
        one@.subject == one.subject@,
        one@.handle == one.handle@,
        one@.groups == texts(one.groups@),
{
}

/// What is known of an `User` is what it holds.
pub proof fn what_an_user_holds(one: User)
    ensures
        one@.id == one.id@,
        one@.user_name == one.user_name@,
        one@.display_name == one.display_name@,
        one@.email == text_of(one.email),
        one@.active == one.active,
{
}

/// What is known of a `Group` is what it holds.
pub proof fn what_a_group_holds(one: Group)
    ensures
        one@.id == one.id@,
        one@.name == one.name@,
        one@.members == texts(one.members@),
{
}

/// What is known of an `Account` is what it holds.
pub proof fn what_an_account_holds(one: Account)
    ensures
        one@.subject == one.subject@,
        one@.name == one.name@,
        one@.email == text_of(one.email),
        one@.handle == text_of(one.handle),
        one@.groups == texts(one.groups@),
        one@.user_name == one.user_name@,
        one@.active == one.active,
{
}

/// What is known of a `Reader` is what it holds.
pub proof fn what_a_reader_holds(one: Reader)
    ensures
        one@.subject == one.subject@,
        one@.active == one.active,
        one@.groups == texts(one.groups@),
{
}

/// What is known of a `Raw` is what it holds.
pub proof fn what_a_raw_holds(one: Raw)
    ensures
        one@.handle == one.handle@,
        one@.kind == one.kind@,
        one@.title == one.title@,
        one@.link == text_of(one.link),
        one@.reason == text_of(one.reason),
        one@.source_key == one.source_key@,
{
}

/// What is known of a `Checked` is what it holds.
pub proof fn what_a_checked_holds(one: Checked)
    ensures
        one@.handle == one.handle@,
        one@.kind == one.kind,
        one@.title == one.title@,
        one@.link == text_of(one.link),
        one@.reason == text_of(one.reason),
        one@.source_key == one.source_key@,
{
}

/// What is known of a `Link` is what it holds.
pub proof fn what_a_link_holds(one: Link)
    ensures
        one@.scheme == one.scheme@,
        one@.host == text_of(one.host),
        one@.username == one.username@,
        one@.password == text_of(one.password),
        one@.text == one.text@,
{
}

/// What is known of a `Row` is what it holds.
pub proof fn what_a_row_holds(one: Row)
    ensures
        one@.reason == one.reason,
        one@.space == one.space@,
        one@.topic_id == one.topic_id,
        one@.topic_title == one.topic_title@,
        one@.post_id == one.post_id,
        one@.author == one.author@,
        one@.at == one.at,
        one@.unread == one.unread,
        one@.hidden == one.hidden,
        one@.likes == one.likes,
        one@.latest_like == text_of(one.latest_like),
{
}

/// What is known of a `Stored` is what it holds.
pub proof fn what_a_stored_holds(one: Stored)
    ensures
        one@.id == one.id,
        one@.kind == one.kind@,
        one@.title == one.title@,
        one@.reason == text_of(one.reason),
        one@.at == one.at,
        one@.unread == one.unread,
        one@.space == one.space@,
{
}

/// What is known of a `LikedPost` is what it holds.
pub proof fn what_a_liked_post_holds(one: LikedPost)
    ensures
        one@.author_subject == one.author_subject@,
        one@.topic_id == one.topic_id,
        one@.space == one.space@,
        one@.mirrored == one.mirrored,
        one@.opens == one.opens,
{
}

/// What is known of a `Noted` is what it holds.
pub proof fn what_a_noted_holds(one: Noted)
    ensures
        one@.subject == one.subject@,
        one@.reason == one.reason,
        one@.at == one.at,
        one@.unread == one.unread,
{
}

/// What is known of a `Like` is what it holds.
pub proof fn what_a_like_holds(one: Like)
    ensures
        one@.post_id == one.post_id,
        one@.subject == one.subject@,
        one@.name == one.name@,
{
}

/// What is known of a `Summary` is what it holds.
pub proof fn what_a_summary_holds(one: Summary)
    ensures
        one@.count == one.count as int,
        one@.liked == one.liked,
        one@.names == texts(one.names@),
{
}

/// What is known of an `Owed` is what it holds.
pub proof fn what_an_owed_holds(one: Owed)
    ensures
        one@.id == one.id,
        one@.subject == one.subject@,
        one@.kanal == one.kanal@,
        one@.topic_id == one.topic_id,
        one@.post_id == one.post_id,
        one@.space == one.space@,
        one@.attempts == one.attempts,
{
}

/// What is known of a `Queued` is what it holds.
pub proof fn what_a_queued_holds(one: Queued)
    ensures
        one@.subject == one.subject@,
        one@.kanal == one.kanal@,
        one@.reason == one.reason@,
{
}

/// What is known of a `Hit` is what it holds.
pub proof fn what_a_hit_holds(one: Hit)
    ensures
        one@.topic_id == one.topic_id,
        one@.title == one.title@,
        one@.category == one.category@,
        one@.snippet == one.snippet@,
        one@.updated_at == one.updated_at,
{
}

/// What is known of a `Found` is what it holds.
pub proof fn what_a_found_holds(one: Found)
    ensures
        one@.hit == one.hit@,
        one@.space == one.space@,
        one@.hidden == one.hidden,
{
}

/// What is known of a `Written` is what it holds.
pub proof fn what_a_written_holds(one: Written)
    ensures
        one@.id == one.id,
        one@.author_subject == one.author_subject@,
{
}

/// What is known of a `Thread` is what it holds.
pub proof fn what_a_thread_holds(one: Thread)
    ensures
        one@.space == one.space@,
        one@.hidden == one.hidden,
        one@.posts == written_view(one.posts@),
{
}

/// What is known of an `Effects` is what it holds.
pub proof fn what_an_effects_holds(one: Effects)
    ensures
        one@.followers == texts(one.followers@),
        one@.mentioned == texts(one.mentioned@),
        one@.replied == texts(one.replied@),
        one@.owed == queued_view(one.owed@),
{
}

/// What is known of an `Offer` is what it holds.
pub proof fn what_an_offer_holds(one: Offer)
    ensures
        one@.name == one.name@,
        one@.handle == one.handle@,
{
}

/// What is known of a `Message` is what it holds.
pub proof fn what_a_message_holds(one: Message)
    ensures
        one@.to == one.to@,
        one@.space_title == one.space_title@,
        one@.topic_title == one.topic_title@,
        one@.author == one.author@,
        one@.body == one.body@,
        one@.link == one.link@,
        one@.unsubscribe == text_of(one.unsubscribe),
{
}

/// What is known of a `Change` is what it holds.
pub proof fn what_a_change_holds(one: Change)
    ensures
        one@.add == one.add,
        one@.subject == one.subject@,
{
}

/// What is known of a category is what it holds.
pub proof fn what_a_category_holds(one: Category)
    ensures
        one@.slug == one.slug@,
        one@.title == one.title@,
        one@.post == texts(one.post@),
        one@.reply == texts(one.reply@),
{
}

/// What is known of a space is what it holds, category by category.
pub proof fn what_a_space_holds(one: Space, i: int)
    requires
        0 <= i < one.categories@.len(),
    ensures
        one@.host == one.host@,
        one@.title == one.title@,
        one@.view == one.view,
        one@.read == texts(one.read@),
        one@.articles == text_of(one.articles),
        one@.attachment_max_bytes == one.attachment_max_bytes,
        one@.title_key == one.title_key@,
        one@.home == text_of(one.home),
        one@.categories == categories_view(one.categories@),
        categories_view(one.categories@).len() == one.categories@.len(),
        categories_view(one.categories@)[i] == one.categories@[i]@,
{
}

/// What is known of a configuration is what it holds, space by space.
pub proof fn what_a_configuration_holds(one: Config, events: Events, i: int)
    requires
        0 <= i < one.spaces@.len(),
    ensures
        one@.timezone == text_of(one.timezone),
        one@.spaces == spaces_view(one.spaces@),
        one@.events == events_view(one.events),
        spaces_view(one.spaces@).len() == one.spaces@.len(),
        spaces_view(one.spaces@)[i] == one.spaces@[i]@,
        events_view(None) is None,
        events_view(Some(events)) == Some(events@),
        events@.space == events.space@,
        events@.link_hosts == texts(events.link_hosts@),
{
}

/// What is known of an entry in the bell is what it holds.
pub proof fn what_an_entry_holds(one: Entry)
    ensures
        match one {
            Entry::Replies {
                topic_id,
                topic_title,
                space,
                count,
                latest_author,
                latest_at,
                first_post_id,
                unread,
            } => one@ == (EntryView::Replies {
                topic_id,
                topic_title: topic_title@,
                space: space@,
                count: count as int,
                latest_author: latest_author@,
                latest_at,
                first_post_id,
                unread,
            }),
            Entry::Mention { topic_id, topic_title, post_id, author, space, at, unread } => one@ == (
            EntryView::Mention {
                topic_id,
                topic_title: topic_title@,
                post_id,
                author: author@,
                space: space@,
                at,
                unread,
            }),
            Entry::Likes {
                topic_id,
                topic_title,
                post_id,
                count,
                space,
                latest_name,
                at,
                unread,
            } => one@ == (EntryView::Likes {
                topic_id,
                topic_title: topic_title@,
                post_id,
                count: count as int,
                space: space@,
                latest_name: latest_name@,
                at,
                unread,
            }),
            Entry::Event { id, kind, title, reason, at, unread, space } => one@ == (
            EntryView::Event {
                id,
                kind,
                title: title@,
                reason: text_of(reason),
                at,
                unread,
                space: space@,
            }),
        },
{
}

/// Texts are known one by one, each as it is written.
pub proof fn what_texts_hold(list: Seq<String>, i: int, one: String)
    requires
        0 <= i < list.len(),
    ensures
        texts(list).len() == list.len(),
        texts(list)[i] == list[i]@,
        text_of(Some(one)) == Some(one@),
        text_of(None) is None,
{
}

} // verus!
