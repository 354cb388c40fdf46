//! How a page is put together: everything that belongs on it is there.
use crate::articles::moment_after;
use crate::authz::IdentityView;
use crate::config::{CategoryView, ConfigError, ConfigView, SpaceView};
use crate::db::directory::{as_members, members_after};
use crate::db::inbox::{page_entries, unread_total, EntryView, RowView, StoredView};
use crate::db::search::HitView;
use crate::db::topics::Post;
use crate::i18n::{said, Lang};
use crate::laws::pages::{has, inside, says};
use crate::laws::people::{a_group_gives_the_right, in_one_of};
use crate::live::bell_tree;
use crate::markup::{
    cleaned_html, edited_html, edits_for, markdown_html, markdown_nodes, rendered, rendered_with,
    sanitized, Dialect,
};
use crate::notify::SecretFault;
use crate::text::{decimal_text, trimmed};
use crate::web::html::{AttrView, NodeView};
use crate::web::internal::{bell_owner, outside_bell};
use crate::web::views::{
    answer_of, back_view, bare_view, bell_view, body_view, byline_view, category_index_view,
    category_row_view, category_seen, delete_question_view, entry_body_view, find_view,
    handle_known, header_view, hit_view, inbox_line_view, latest_cell_view, layout_view, like_view,
    likes_known, meta_view, notifications_view, number_cell_view, own_view, post_view, reply_view,
    search_view, section_link_view, section_nav_view, space_view, subject_cell_view,
    thread_row_view, threads_view, timeline_entry_view, topic_page_view, unsubscribe_view,
    unsubscribed_view, up_view, Bell, CategoryRow, TopicRow, TopicView,
};
use vstd::prelude::*;
use vstd::string::*;

verus! {

/// What a page is about, between its header and its footer.
pub open spec fn middle(page: NodeView) -> NodeView {
    inside(inside(inside(page)[1])[1])[0]
}

/// Every page is in the language that was asked for, says its title, and shows
/// whose it is, the bell, the search and what the page is about.
pub proof fn every_page(
    space: SpaceView,
    who: IdentityView,
    lang: Lang,
    bell: Bell,
    title: Seq<char>,
    find: Seq<char>,
    body: NodeView,
)
    ensures
        ({
            let page = layout_view(space, who, lang, bell, title, find, body);
            let head = inside(page)[0];
            let top = inside(inside(page)[1])[0];
            let nav = inside(inside(top)[1])[1];
            &&& has(page, "lang"@, lang.tag())
            &&& says(inside(head)[2], title + " \u{2014} "@ + space.title)
            &&& middle(page) == body
            &&& top == header_view(space, who, lang, bell, find)
            &&& inside(nav) == seq![
                find_view(lang, find),
                up_view(space.home),
                bell_view(lang, bell),
                inside(nav)[3],
                inside(nav)[4],
            ]
            &&& says(inside(nav)[3], who.name)
            &&& has(inside(nav)[4], "action"@, "/auth/logout"@)
            &&& has(inside(find_view(lang, find))[0], "value"@, find)
            &&& says(inside(inside(inside(top)[1])[0])[0], space.title)
        }),
{
    let page = layout_view(space, who, lang, bell, title, find, body);
    assert(page->Element_1[0] == AttrView::Named("lang"@, lang.tag()));
    let head = inside(page)[0];
    assert(inside(inside(head)[2])[0] == NodeView::Text(title + " \u{2014} "@ + space.title));
    let top = inside(inside(page)[1])[0];
    let nav = inside(inside(top)[1])[1];
    assert(inside(inside(nav)[3])[0] == NodeView::Text(who.name));
    assert(inside(nav)[4]->Element_1[2] == AttrView::Named("action"@, "/auth/logout"@));
    let find_box = inside(find_view(lang, find))[0];
    assert(find_box->Void_1[2] == AttrView::Named("value"@, find));
    assert(inside(inside(inside(inside(top)[1])[0])[0])[0] == NodeView::Text(space.title));
}

/// A row in a list of topics shows the topic, how many replies and likes it has
/// and the last reply, and is marked while something in it waits.
pub proof fn a_row_of_topics(
    space: SpaceView,
    lang: Lang,
    row: TopicRow,
    with_section: bool,
    moments: Seq<(i64, Option<i32>)>,
)
    ensures
        ({
            let line = thread_row_view(space, lang, row, with_section, moments);
            &&& inside(line) == seq![
                subject_cell_view(space, row.topic, with_section, moments),
                number_cell_view("n replies"@, said(lang, "col_replies"@), row.counts.replies),
                number_cell_view("n likes"@, said(lang, "col_likes"@), row.counts.likes),
                latest_cell_view(lang, answer_of(row), moments),
            ]
            &&& row.counts.unread ==> has(line, "class"@, "unread"@)
            &&& !row.counts.unread ==> line->Element_1 == seq![AttrView::Absent]
        }),
        row.last is None ==> answer_of(row) is None,
        row.last is Some && row.last->0.opens_the_topic ==> answer_of(row) is None,
        row.last is Some && !row.last->0.opens_the_topic ==> answer_of(row) == row.last,
{
    let line = thread_row_view(space, lang, row, with_section, moments);
    if row.counts.unread {
        assert(line->Element_1[0] == AttrView::Named("class"@, "unread"@));
    }
}

/// A list of topics shows each of them, in their order.
pub proof fn a_row_for_each_topic(
    space: SpaceView,
    lang: Lang,
    rows: Seq<TopicRow>,
    with_section: bool,
    moments: Seq<(i64, Option<i32>)>,
    i: int,
)
    requires
        0 <= i < rows.len(),
    ensures
        ({
            let body = inside(threads_view(space, lang, rows, with_section, moments))[1];
            &&& inside(body).len() == rows.len()
            &&& inside(body)[i] == thread_row_view(space, lang, rows[i], with_section, moments)
        }),
{
}

/// The navigation leads to every category, in their order.
pub proof fn a_link_for_each_category(
    space: SpaceView,
    lang: Lang,
    current: Option<Seq<char>>,
    i: int,
)
    requires
        0 <= i < space.categories.len(),
    ensures
        ({
            let list = inside(section_nav_view(space, lang, current))[1];
            &&& inside(list).len() == space.categories.len()
            &&& inside(list)[i] == section_link_view(space.categories[i], current)
        }),
{
}

/// A post on its page is found under its number. It shows who wrote it and what,
/// its likes, and, to its author alone, how to change it.
pub proof fn a_post_on_its_page(
    who: IdentityView,
    lang: Lang,
    view: TopicView,
    index: int,
    moments: Seq<(i64, Option<i32>)>,
)
    ensures
        ({
            let post = view.posts@[index];
            let shown = post_view(who, lang, view, index, moments);
            let own = who.subject == post.author_subject@;
            &&& has(shown, "id"@, seq!['p'] + decimal_text(post.id as int))
            &&& inside(shown).len() == 3
            &&& inside(shown)[0] == byline_view(
                lang,
                post,
                index,
                view.topic.dated_by_day,
                handle_known(view.handles@, post.author_subject@),
                moments,
            )
            &&& inside(shown)[1] == body_view(
                post.body_markdown@,
                crate::text::texts(view.highlighted@),
            )
            &&& inside(inside(shown)[2])[0] == like_view(
                lang,
                post.id,
                own,
                likes_known(view.likes@, post.id),
            )
            &&& own ==> inside(inside(shown)[2])[1] == own_view(lang, post.id, post.body_markdown@)
            &&& !own ==> inside(inside(inside(shown)[2])[1]).len() == 0
        }),
{
    reveal_strlit("p");
    assert("p"@ == seq!['p']);
    let post = view.posts@[index];
    let shown = post_view(who, lang, view, index, moments);
    assert(shown->Element_1[1] == AttrView::Named("id"@, seq!['p'] + decimal_text(post.id as int)));
}

/// The page of a topic says its title and shows every post in its order; the
/// form for a reply is there for those who may reply, and for nobody else.
pub proof fn the_page_of_a_topic(
    space: SpaceView,
    who: IdentityView,
    lang: Lang,
    bell: Bell,
    view: TopicView,
    moments: Seq<(i64, Option<i32>)>,
    i: int,
)
    requires
        0 <= i < view.posts@.len(),
    ensures
        ({
            let page = middle(topic_page_view(space, who, lang, bell, view, moments));
            let category = category_seen(view.category);
            let may = category is Some && in_one_of(who, category->0.reply);
            &&& says(inside(page)[0], view.topic.title@)
            &&& inside(page)[1] == meta_view(
                lang,
                category,
                view.topic.id,
                view.posts@.len() as int,
                view.following,
            )
            &&& inside(inside(page)[2]).len() == view.posts@.len()
            &&& inside(inside(page)[2])[i] == post_view(who, lang, view, i, moments)
            &&& may ==> inside(page)[4] == reply_view(lang, view.topic.id)
            &&& !may ==> inside(inside(page)[4]).len() == 0
        }),
{
    let page = middle(topic_page_view(space, who, lang, bell, view, moments));
    assert(inside(inside(page)[0])[0] == NodeView::Text(view.topic.title@));
    let category = category_seen(view.category);
    if category is Some {
        a_group_gives_the_right(who, space, category->0);
    }
}

/// From a topic one gets back to its category.
pub proof fn the_way_back(category: CategoryView)
    ensures
        has(
            inside(back_view(Some(category)))[0],
            "href"@,
            seq!['/', 'c', '/'] + category.slug,
        ),
        says(inside(back_view(Some(category)))[0], category.title),
        inside(back_view(None)).len() == 0,
{
    reveal_strlit("/c/");
    assert("/c/"@ == seq!['/', 'c', '/']);
    let link = inside(back_view(Some(category)))[0];
    assert(link->Element_1[1] == AttrView::Named("href"@, seq!['/', 'c', '/'] + category.slug));
    assert(inside(link)[0] == NodeView::Text(category.title));
}

/// A space that is a timeline shows its entries, one after the other; one that
/// is made of topics shows its categories and a list. Where there is nothing, it
/// says so.
pub proof fn the_page_of_a_space(
    space: SpaceView,
    who: IdentityView,
    lang: Lang,
    bell: Bell,
    category: CategoryView,
    topics: Seq<TopicRow>,
    moments: Seq<(i64, Option<i32>)>,
    i: int,
)
    ensures
        ({
            let page = middle(space_view(space, who, lang, bell, Some(category), topics, moments));
            let list = inside(page)[1];
            &&& topics.len() == 0 ==> says(inside(page)[0], said(lang, "nothing_here"@))
            &&& topics.len() > 0 ==> inside(inside(page)[0]).len() == 0
            &&& space.view == crate::config::View::Timeline ==> inside(list).len() == topics.len()
            &&& space.view == crate::config::View::Timeline && 0 <= i < topics.len() ==> inside(
                list,
            )[i] == timeline_entry_view(who, lang, topics[i], moments)
            &&& space.view == crate::config::View::Topics ==> inside(list) == seq![
                section_nav_view(space, lang, Some(category.slug)),
                threads_view(space, lang, topics, false, moments),
            ]
        }),
{
    let page = middle(space_view(space, who, lang, bell, Some(category), topics, moments));
    if topics.len() == 0 {
        assert(inside(inside(page)[0])[0] == NodeView::Text(said(lang, "nothing_here"@)));
    }
}

/// An entry of a timeline stands under its title, which leads to it, with its
/// author, and with its text, its heart and its comments.
pub proof fn an_entry_of_a_timeline(
    who: IdentityView,
    lang: Lang,
    row: TopicRow,
    moments: Seq<(i64, Option<i32>)>,
)
    ensures
        ({
            let entry = timeline_entry_view(who, lang, row, moments);
            let link = inside(inside(entry)[0])[0];
            let body = inside(entry)[2];
            let href = seq!['/', 't', '/'] + decimal_text(row.topic.id as int);
            &&& has(link, "href"@, href)
            &&& says(link, row.topic.title@)
            &&& says(inside(inside(entry)[1])[0], row.topic.author_name@)
            &&& says(
                inside(entry)[1],
                crate::web::views::opened_text(row.topic, moments),
            )
            &&& body == entry_body_view(who, lang, row)
            &&& row.first is None ==> inside(body).len() == 0
            &&& row.first matches Some(first) ==> {
                &&& inside(body)[0] == body_view(first.body_markdown@, Seq::empty())
                &&& inside(inside(body)[1])[0] == like_view(
                    lang,
                    first.id,
                    first.author_subject@ == who.subject,
                    crate::web::views::likes_seen(row.likes),
                )
                &&& has(inside(inside(body)[1])[1], "href"@, href)
                &&& says(
                    inside(inside(body)[1])[1],
                    crate::web::views::comments_text(lang, row.counts.replies),
                )
            }
        }),
{
    reveal_strlit("/t/");
    assert("/t/"@ == seq!['/', 't', '/']);
    let entry = timeline_entry_view(who, lang, row, moments);
    let link = inside(inside(entry)[0])[0];
    let href = seq!['/', 't', '/'] + decimal_text(row.topic.id as int);
    assert(link->Element_1[0] == AttrView::Named("href"@, href));
    assert(inside(link)[0] == NodeView::Text(row.topic.title@));
    let by = inside(entry)[1];
    assert(inside(inside(by)[0])[0] == NodeView::Text(row.topic.author_name@));
    assert(inside(by)[2] == NodeView::Text(crate::web::views::opened_text(row.topic, moments)));
    if row.first is Some {
        let more = inside(inside(inside(entry)[2])[1])[1];
        assert(more->Element_1[1] == AttrView::Named("href"@, href));
        assert(inside(more)[0] == NodeView::Text(
            crate::web::views::comments_text(lang, row.counts.replies),
        ));
    }
}

/// What was found is shown, each in its order; where nothing was asked for, or
/// nothing found, the page says which.
pub proof fn the_page_of_a_search(
    space: SpaceView,
    who: IdentityView,
    lang: Lang,
    bell: Bell,
    find: Seq<char>,
    hits: Seq<HitView>,
    moments: Seq<(i64, Option<i32>)>,
    i: int,
)
    ensures
        ({
            let list = inside(middle(search_view(space, who, lang, bell, find, hits, moments)))[1];
            &&& trimmed(find).len() == 0 ==> says(list, said(lang, "search_prompt"@))
            &&& trimmed(find).len() > 0 && hits.len() == 0 ==> says(
                list,
                said(lang, "search_nothing"@),
            )
            &&& trimmed(find).len() > 0 && hits.len() > 0 ==> inside(list).len() == hits.len()
            &&& trimmed(find).len() > 0 && 0 <= i < hits.len() ==> inside(list)[i] == hit_view(
                hits[i],
                moments,
            )
        }),
{
    let list = inside(middle(search_view(space, who, lang, bell, find, hits, moments)))[1];
    if trimmed(find).len() == 0 {
        assert(inside(list)[0] == NodeView::Text(said(lang, "search_prompt"@)));
    } else if hits.len() == 0 {
        assert(inside(list)[0] == NodeView::Text(said(lang, "search_nothing"@)));
    }
}

/// Every notification is on the page, in its order; where there is none, the
/// page says so, and everything can be marked as read while something is new.
pub proof fn the_page_of_notifications(
    space: SpaceView,
    who: IdentityView,
    lang: Lang,
    bell: Bell,
    entries: Seq<EntryView>,
    on: bool,
    moments: Seq<(i64, Option<i32>)>,
    i: int,
)
    ensures
        ({
            let page = middle(
                notifications_view(space, who, lang, bell, entries, on, moments),
            );
            let list = inside(page)[1];
            &&& entries.len() == 0 ==> says(list, said(lang, "nothing_new"@))
            &&& entries.len() > 0 ==> inside(inside(list)[1]).len() == entries.len()
            &&& 0 <= i < entries.len() ==> inside(inside(list)[1])[i] == inbox_line_view(
                entries[i],
                space.host,
                lang,
                moments,
            )
            &&& entries.len() > 0 && bell.unread > 0 ==> has(
                inside(list)[0],
                "action"@,
                "/notifications/read"@,
            )
            &&& entries.len() > 0 && bell.unread <= 0 ==> inside(inside(list)[0]).len() == 0
            &&& inside(page)[2] == crate::web::views::mention_switch_view(lang, on)
        }),
{
    let page = middle(notifications_view(space, who, lang, bell, entries, on, moments));
    let list = inside(page)[1];
    if entries.len() == 0 {
        assert(inside(list)[0] == NodeView::Text(said(lang, "nothing_new"@)));
    } else if bell.unread > 0 {
        assert(inside(list)[0]->Element_1[2] == AttrView::Named(
            "action"@,
            "/notifications/read"@,
        ));
    }
}

/// The index shows every category in its order, and what was written last in
/// any of them, if anything was.
pub proof fn the_page_of_the_index(
    space: SpaceView,
    who: IdentityView,
    lang: Lang,
    bell: Bell,
    rows: Seq<CategoryRow>,
    recent: Seq<TopicRow>,
    moments: Seq<(i64, Option<i32>)>,
    i: int,
)
    requires
        0 <= i < rows.len(),
    ensures
        ({
            let page = middle(
                category_index_view(space, who, lang, bell, rows, recent, moments),
            );
            &&& inside(inside(page)[1]).len() == rows.len()
            &&& inside(inside(page)[1])[i] == category_row_view(
                lang,
                rows[i].category@,
                rows[i].count,
                moments,
            )
            &&& recent.len() == 0 ==> inside(inside(page)[2]).len() == 0
            &&& recent.len() > 0 ==> inside(inside(page)[2])[1] == threads_view(
                space,
                lang,
                recent,
                true,
                moments,
            )
        }),
{
}

/// A page that is there for everybody loads no script, and says its title.
pub proof fn a_page_for_everybody(
    space: SpaceView,
    lang: Lang,
    title: Seq<char>,
    body: NodeView,
)
    ensures
        ({
            let page = bare_view(space, lang, title, body);
            let main = inside(inside(page)[1])[0];
            &&& inside(inside(inside(page)[0])[4]).len() == 0
            &&& says(inside(main)[0], title)
            &&& inside(main)[1] == body
            &&& has(page, "lang"@, lang.tag())
        }),
{
    let page = bare_view(space, lang, title, body);
    let main = inside(inside(page)[1])[0];
    assert(inside(inside(main)[0])[0] == NodeView::Text(title));
    assert(page->Element_1[0] == AttrView::Named("lang"@, lang.tag()));
}

/// Before a post is deleted it is shown once more, with a button that deletes
/// this very post and a way back to its topic.
pub proof fn the_page_before_deleting(
    space: SpaceView,
    who: IdentityView,
    lang: Lang,
    bell: Bell,
    post: Post,
    moments: Seq<(i64, Option<i32>)>,
)
    ensures
        ({
            let page = middle(delete_question_view(space, who, lang, bell, post, moments));
            let choice = inside(page)[3];
            &&& inside(inside(page)[2])[1] == body_view(post.body_markdown@, Seq::empty())
            &&& says(inside(inside(inside(page)[2])[0])[0], post.author_name@)
            &&& has(
                inside(choice)[0],
                "action"@,
                seq!['/', 'p', '/'] + decimal_text(post.id as int) + "/delete"@,
            )
            &&& has(
                inside(choice)[1],
                "href"@,
                seq!['/', 't', '/'] + decimal_text(post.topic_id as int),
            )
        }),
{
    reveal_strlit("/p/");
    reveal_strlit("/t/");
    assert("/p/"@ == seq!['/', 'p', '/']);
    assert("/t/"@ == seq!['/', 't', '/']);
    let page = middle(delete_question_view(space, who, lang, bell, post, moments));
    let choice = inside(page)[3];
    assert(inside(inside(inside(inside(page)[2])[0])[0])[0] == NodeView::Text(post.author_name@));
    assert(inside(choice)[0]->Element_1[1] == AttrView::Named(
        "action"@,
        seq!['/', 'p', '/'] + decimal_text(post.id as int) + "/delete"@,
    ));
    assert(inside(choice)[1]->Element_1[1] == AttrView::Named(
        "href"@,
        seq!['/', 't', '/'] + decimal_text(post.topic_id as int),
    ));
}

/// The way out asks what it stops, and goes to the row it came from.
pub proof fn the_page_of_the_way_out(
    space: SpaceView,
    lang: Lang,
    id: i64,
    token: Seq<char>,
    mention: bool,
)
    ensures
        ({
            let main = inside(inside(unsubscribe_view(space, lang, id, token, mention))[1])[0];
            let asked = inside(main)[1];
            let done = inside(inside(unsubscribed_view(space, lang, mention))[1])[0];
            &&& has(
                inside(asked)[1],
                "action"@,
                seq!['/', 'u', '/'] + decimal_text(id as int) + seq!['/'] + token,
            )
            &&& mention ==> says(inside(asked)[0], said(lang, "unsubscribe_mentions_question"@))
            &&& !mention ==> says(inside(asked)[0], said(lang, "unsubscribe_question"@))
            &&& mention ==> says(inside(done)[1], said(lang, "unsubscribed_mentions_note"@))
            &&& !mention ==> says(inside(done)[1], said(lang, "unsubscribed_note"@))
        }),
{
    reveal_strlit("/u/");
    reveal_strlit("/");
    assert("/u/"@ == seq!['/', 'u', '/']);
    assert("/"@ == seq!['/']);
    let main = inside(inside(unsubscribe_view(space, lang, id, token, mention))[1])[0];
    let asked = inside(main)[1];
    assert(inside(asked)[1]->Element_1[1] == AttrView::Named(
        "action"@,
        seq!['/', 'u', '/'] + decimal_text(id as int) + seq!['/'] + token,
    ));
    assert(inside(inside(asked)[0])[0] == NodeView::Text(
        said(
            lang,
            if mention {
                "unsubscribe_mentions_question"@
            } else {
                "unsubscribe_question"@
            },
        ),
    ));
    let done = inside(inside(unsubscribed_view(space, lang, mention))[1])[0];
    assert(inside(inside(done)[1])[0] == NodeView::Text(
        said(
            lang,
            if mention {
                "unsubscribed_mentions_note"@
            } else {
                "unsubscribed_note"@
            },
        ),
    ));
}

/// A post is cleaned before it is shown: links lead to three schemes and tell
/// nobody where they come from, and no class passes but the one for mentions,
/// where there are any.
pub proof fn a_post_is_cleaned(
    markdown: Seq<char>,
    handles: Seq<Seq<char>>,
    raw: Seq<char>,
)
    ensures
        ({
            let dialect = Dialect { strikethrough: true, table: true, autolink: true };
            let schemes = seq!["http"@, "https"@, "mailto"@];
            let rel = "noopener noreferrer nofollow"@;
            let edits = edits_for(markdown_nodes(markdown, dialect), handles);
            &&& rendered(markdown) == cleaned_html(
                markdown_html(markdown, dialect),
                schemes,
                rel,
                Seq::empty(),
            )
            &&& rendered_with(markdown, Seq::empty()) == rendered(markdown)
            &&& handles.len() > 0 && edited_html(markdown, dialect, edits) == Some(raw)
                ==> rendered_with(markdown, handles) == cleaned_html(
                raw,
                schemes,
                rel,
                seq![("span"@, "mention"@)],
            )
            &&& handles.len() > 0 && edited_html(markdown, dialect, edits) is None
                ==> rendered_with(markdown, handles) == rendered(markdown)
            &&& edits.len() == markdown_nodes(markdown, dialect).len()
        }),
        sanitized(raw, false) == cleaned_html(
            raw,
            seq!["http"@, "https"@, "mailto"@],
            "noopener noreferrer nofollow"@,
            Seq::empty(),
        ),
{
    assert(crate::markup::link_schemes() == seq!["http"@, "https"@, "mailto"@]);
    assert(crate::markup::mention_classes(true) == seq![("span"@, "mention"@)]);
}

/// An article moves with its file, and never back.
pub proof fn an_article_moves_with_its_file(stored: i64, published: i64)
    ensures
        moment_after(None, published) == published,
        moment_after(Some(stored), published) >= stored,
        moment_after(Some(stored), published) >= published,
        moment_after(Some(stored), published) == stored || moment_after(Some(stored), published)
            == published,
{
}

/// A group keeps its members where none are given, and has exactly the given
/// ones where some are.
pub proof fn whose_members_they_are(before: Seq<Seq<char>>, given: Seq<Seq<char>>, x: Seq<char>)
    ensures
        members_after(before, None) == before,
        members_after(before, Some(given)) == as_members(given),
        as_members(given).contains(x) <==> given.contains(x),
        as_members(given).no_duplicates(),
{
    crate::order::sorting_keeps(given, x);
    crate::order::each_once(crate::order::sorted_texts(given));
    assert(crate::order::once_each(crate::order::sorted_texts(given)).contains(x)
        == crate::order::sorted_texts(given).contains(x));
}

/// The bell from outside holds what is new in the space of the reports, up to
/// twenty entries; whoever it is not for finds an empty one.
pub proof fn the_bell_from_outside(
    config: ConfigView,
    user: Seq<char>,
    groups: Seq<char>,
    rows: Seq<RowView>,
    events: Seq<StoredView>,
)
    ensures
        bell_owner(config, user, groups) is None ==> outside_bell(
            config,
            user,
            groups,
            rows,
            events,
        ) == bell_tree(0, Seq::empty(), Seq::empty()),
        bell_owner(config, user, groups) matches Some(found) ==> outside_bell(
            config,
            user,
            groups,
            rows,
            events,
        ) == bell_tree(
            unread_total(rows, events, seq![found.1.host]) as i64,
            page_entries(rows, events, seq![found.1.host], 20),
            Seq::empty(),
        ),
{
}

/// What an operator is told of a setting that is wrong names the file.
pub proof fn what_an_operator_is_told(path: Seq<char>, reason: Seq<char>, name: Seq<char>)
    ensures
        crate::notify::mail::fault_text(
            crate::notify::mail::SettingsFault::Password(SecretFault::Unreadable { path, reason }),
        ) == "cannot read "@ + path + seq![':', ' '] + reason,
        crate::notify::webhook::fault_text(
            crate::notify::webhook::SettingsFault::Token(SecretFault::Unreadable { path, reason }),
        ) == "cannot read "@ + path + seq![':', ' '] + reason,
        crate::web::internal::fault_text(
            crate::web::internal::SettingsFault::Token(
                name,
                SecretFault::Unreadable { path, reason },
            ),
        ) == name + seq![' ', '('] + path + ") cannot be read: "@ + reason,
        crate::web::internal::fault_text(
            crate::web::internal::SettingsFault::Token(name, SecretFault::Blank { path }),
        ) == name + seq![' ', '('] + path + ") is empty"@,
{
    reveal_strlit(": ");
    reveal_strlit(" (");
    assert(": "@ == seq![':', ' ']);
    assert(" ("@ == seq![' ', '(']);
}

/// What an operator is told of a configuration names the space it is about.
pub proof fn what_is_said_of_a_configuration(host: String, slug: String)
    ensures
        ConfigError::DuplicateHost(host).text() == "host "@ + host@ + " is configured twice"@,
        ConfigError::NoCategories(host).text() == "space "@ + host@ + " has no categories"@,
        ConfigError::NobodyCanRead(host).text() == "space "@ + host@
            + " would be readable by nobody"@,
        (ConfigError::DuplicateCategory { space: host, slug }).text() == "space "@ + host@
            + " has the category "@ + slug@ + " twice"@,
        ConfigError::Syntax(slug).text() == "cannot parse configuration: "@ + slug@,
{
}

} // verus!
