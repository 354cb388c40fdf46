//! What stands on a page is what it is about.
use crate::authz::IdentityView;
use crate::clock::{
    civil_formatted, day_text, goes_by, offset_in, shown_day, shown_stamp, stamp_text,
};
use crate::config::{CategoryView, SpaceView};
use crate::db::inbox::EntryView;
use crate::db::likes::SummaryView;
use crate::db::search::HitView;
use crate::db::topics::{CategoryCount, Post, Topic};
use crate::i18n::{said, Lang};
use crate::laws::people::{a_group_gives_the_right, in_one_of};
use crate::text::{ascii_lower, decimal_text, first_at, html_text};
use crate::web::html::{
    attr_html, attrs_html, document_html, node_html, nodes_html, AttrView, NodeView,
};
use crate::web::views::{
    activity_view, bell_view, bell_words, body_view, bundle_key, byline_view, category_row_view,
    comments_text, entry_words_view, follow_view, form_view, handle_known, hit_view, host_part,
    inbox_line_view, latest_cell_view, like_view, like_words, likers_text, may_answer,
    mention_switch_view, names_line, new_topic_view, number_cell_view, opened_text, own_view,
    replies_text, reply_view, section_link_view, section_name, subject_cell_view, tally_text, Bell,
};
use vstd::prelude::*;
use vstd::string::*;

verus! {

/// What is directly inside a piece of a page.
pub open spec fn inside(node: NodeView) -> Seq<NodeView> {
    match node {
        NodeView::Many(nodes) => nodes,
        NodeView::Element(_, _, nodes) => nodes,
        _ => Seq::empty(),
    }
}

/// Does the piece have this attribute?
pub open spec fn has(node: NodeView, name: Seq<char>, value: Seq<char>) -> bool {
    match node {
        NodeView::Element(_, attrs, _) => attrs.contains(AttrView::Named(name, value)),
        NodeView::Void(_, attrs) => attrs.contains(AttrView::Named(name, value)),
        _ => false,
    }
}

/// Do these words stand directly inside the piece?
pub open spec fn says(node: NodeView, words: Seq<char>) -> bool {
    inside(node).contains(NodeView::Text(words))
}

/// Is there a piece directly inside that says these words under this class?
pub open spec fn says_under(node: NodeView, class: Seq<char>, words: Seq<char>) -> bool {
    exists|i: int|
        0 <= i < inside(node).len() && has(#[trigger] inside(node)[i], "class"@, class) && says(
            inside(node)[i],
            words,
        )
}

/// Is there a link directly inside that leads there and says these words?
pub open spec fn links(node: NodeView, href: Seq<char>, words: Seq<char>) -> bool {
    exists|i: int|
        0 <= i < inside(node).len() && has(#[trigger] inside(node)[i], "href"@, href) && says(
            inside(node)[i],
            words,
        )
}

proof fn a_span_says(class: Seq<char>, words: Seq<char>)
    ensures
        ({
            let span = NodeView::Element(
                "span"@,
                seq![AttrView::Named("class"@, class)],
                seq![NodeView::Text(words)],
            );
            has(span, "class"@, class) && says(span, words)
        }),
{
    let attrs = seq![AttrView::Named("class"@, class)];
    let nodes = seq![NodeView::Text(words)];
    assert(attrs[0] == AttrView::Named("class"@, class));
    assert(nodes[0] == NodeView::Text(words));
}

/// A topic stands in a list under its title, which leads to it, with its
/// author and the moment it was opened.
pub proof fn a_topic_in_a_list(
    space: SpaceView,
    topic: Topic,
    with_section: bool,
    moments: Seq<(i64, Option<i32>)>,
)
    ensures
        ({
            let cell = subject_cell_view(space, topic, with_section, moments);
            &&& links(
                cell,
                seq!['/', 't', '/'] + decimal_text(topic.id as int),
                topic.title@,
            )
            &&& inside(cell).len() == 2
            &&& says_under(inside(cell)[1], "name"@, topic.author_name@)
            &&& says(inside(cell)[1], opened_text(topic, moments))
            &&& with_section ==> says_under(
                inside(inside(cell)[1])[0],
                "section"@,
                section_name(space, topic.category@),
            )
            &&& !with_section ==> inside(inside(inside(cell)[1])[0]).len() == 0
        }),
        topic.dated_by_day ==> opened_text(topic, moments) == shown_day(moments, topic.created_at),
        !topic.dated_by_day ==> opened_text(topic, moments) == shown_stamp(
            moments,
            topic.created_at,
        ),
{
    reveal_strlit("/t/");
    assert("/t/"@ == seq!['/', 't', '/']);
    let cell = subject_cell_view(space, topic, with_section, moments);
    let href = seq!['/', 't', '/'] + decimal_text(topic.id as int);
    let link = inside(cell)[0];
    assert(link->Element_1[0] == AttrView::Named("href"@, href));
    assert(inside(link)[0] == NodeView::Text(topic.title@));
    assert(has(link, "href"@, href) && says(link, topic.title@));
    let by = inside(cell)[1];
    a_span_says("name"@, topic.author_name@);
    assert(has(inside(by)[1], "class"@, "name"@) && says(inside(by)[1], topic.author_name@));
    assert(inside(by)[3] == NodeView::Text(opened_text(topic, moments)));
    a_span_says("section"@, section_name(space, topic.category@));
    let first = inside(by)[0];
    if with_section {
        assert(has(inside(first)[0], "class"@, "section"@) && says(
            inside(first)[0],
            section_name(space, topic.category@),
        ));
    }
}

/// A number in a list is the number, or a dash for none.
pub proof fn a_number_in_a_list(class: Seq<char>, label: Seq<char>, n: i64)
    ensures
        says(number_cell_view(class, label, n), tally_text(n)),
        n != 0 ==> tally_text(n) == decimal_text(n as int),
        tally_text(0) == seq!['\u{2013}'],
{
    reveal_strlit("\u{2013}");
    assert("\u{2013}"@ == seq!['\u{2013}']);
    assert(inside(number_cell_view(class, label, n))[0] == NodeView::Text(tally_text(n)));
}

/// The last reply to a topic is somebody's, and of a moment; where there is
/// none, it says so.
pub proof fn the_last_reply_in_a_list(
    lang: Lang,
    last: crate::db::topics::LastPost,
    moments: Seq<(i64, Option<i32>)>,
)
    ensures
        says_under(latest_cell_view(lang, Some(last), moments), "name"@, last.author_name@),
        says_under(
            latest_cell_view(lang, Some(last), moments),
            "when"@,
            shown_stamp(moments, last.created_at),
        ),
        says_under(latest_cell_view(lang, None, moments), "none"@, said(lang, "no_replies_yet"@)),
{
    a_span_says("name"@, last.author_name@);
    a_span_says("when"@, shown_stamp(moments, last.created_at));
    a_span_says("none"@, said(lang, "no_replies_yet"@));
    let cell = latest_cell_view(lang, Some(last), moments);
    assert(has(inside(cell)[0], "class"@, "name"@) && says(inside(cell)[0], last.author_name@));
    assert(has(inside(cell)[1], "class"@, "when"@) && says(
        inside(cell)[1],
        shown_stamp(moments, last.created_at),
    ));
    let empty = latest_cell_view(lang, None, moments);
    assert(has(inside(empty)[0], "class"@, "none"@) && says(
        inside(empty)[0],
        said(lang, "no_replies_yet"@),
    ));
}

/// A category stands in the index under its title, which leads to it, with the
/// number of its topics and when something last happened.
pub proof fn a_category_in_the_index(
    lang: Lang,
    category: CategoryView,
    count: CategoryCount,
    at: i64,
    moments: Seq<(i64, Option<i32>)>,
)
    ensures
        ({
            let row = category_row_view(lang, category, count, moments);
            &&& links(row, seq!['/', 'c', '/'] + category.slug, category.title)
            &&& count.topics == 1 ==> says_under(row, "count"@, said(lang, "topic_one"@))
            &&& count.topics != 1 ==> says_under(
                row,
                "count"@,
                decimal_text(count.topics as int) + seq![' '] + said(lang, "topic_many"@),
            )
            &&& inside(row).len() == 3
            &&& inside(inside(row)[2])[0] == activity_view(lang, count.last_activity, moments)
        }),
        says_under(activity_view(lang, Some(at), moments), "value"@, shown_stamp(moments, at)),
        activity_view(lang, None, moments) == NodeView::Text(said(lang, "no_topics_yet"@)),
{
    reveal_strlit("/c/");
    reveal_strlit(" ");
    assert("/c/"@ == seq!['/', 'c', '/']);
    assert(" "@ == seq![' ']);
    let row = category_row_view(lang, category, count, moments);
    let link = inside(row)[0];
    let href = seq!['/', 'c', '/'] + category.slug;
    assert(link->Element_1[1] == AttrView::Named("href"@, href));
    assert(inside(link)[0] == NodeView::Text(category.title));
    assert(has(link, "href"@, href) && says(link, category.title));
    let words = if count.topics == 1 {
        said(lang, "topic_one"@)
    } else {
        decimal_text(count.topics as int) + seq![' '] + said(lang, "topic_many"@)
    };
    a_span_says("count"@, words);
    assert(has(inside(row)[1], "class"@, "count"@) && says(inside(row)[1], words));
    a_span_says("value"@, shown_stamp(moments, at));
    let moment = activity_view(lang, Some(at), moments);
    assert(has(inside(moment)[1], "class"@, "value"@) && says(
        inside(moment)[1],
        shown_stamp(moments, at),
    ));
}

/// What was found stands under its title, which leads to it, with its category
/// and the words around it.
pub proof fn what_was_found_in_a_list(hit: HitView, moments: Seq<(i64, Option<i32>)>)
    ensures
        ({
            let line = hit_view(hit, moments);
            &&& links(line, seq!['/', 't', '/'] + decimal_text(hit.topic_id as int), hit.title)
            &&& inside(line).len() == 3
            &&& says_under(inside(line)[1], "name"@, hit.category)
            &&& says(inside(line)[1], shown_stamp(moments, hit.updated_at))
            &&& says_under(line, "snippet"@, hit.snippet)
        }),
{
    reveal_strlit("/t/");
    assert("/t/"@ == seq!['/', 't', '/']);
    let line = hit_view(hit, moments);
    let href = seq!['/', 't', '/'] + decimal_text(hit.topic_id as int);
    let link = inside(line)[0];
    assert(link->Element_1[0] == AttrView::Named("href"@, href));
    assert(inside(link)[0] == NodeView::Text(hit.title));
    assert(has(link, "href"@, href) && says(link, hit.title));
    a_span_says("name"@, hit.category);
    let by = inside(line)[1];
    assert(has(inside(by)[0], "class"@, "name"@) && says(inside(by)[0], hit.category));
    assert(inside(by)[2] == NodeView::Text(shown_stamp(moments, hit.updated_at)));
    let words = inside(line)[2];
    assert(words->Element_1[0] == AttrView::Named("class"@, "snippet"@));
    assert(inside(words)[0] == NodeView::Text(hit.snippet));
    assert(has(words, "class"@, "snippet"@) && says(words, hit.snippet));
}

/// A category's link in the navigation leads to it, and is marked where one is
/// there already.
pub proof fn a_category_in_the_navigation(category: CategoryView, current: Option<Seq<char>>)
    ensures
        ({
            let link = section_link_view(category, current);
            &&& has(link, "href"@, seq!['/', 'c', '/'] + category.slug)
            &&& says(link, category.title)
            &&& current == Some(category.slug) ==> has(link, "aria-current"@, "page"@)
            &&& current != Some(category.slug) ==> link->Element_1[1] == AttrView::Absent
        }),
{
    reveal_strlit("/c/");
    assert("/c/"@ == seq!['/', 'c', '/']);
    let link = section_link_view(category, current);
    assert(link->Element_1[0] == AttrView::Named("href"@, seq!['/', 'c', '/'] + category.slug));
    assert(inside(link)[0] == NodeView::Text(category.title));
    if current == Some(category.slug) {
        assert(link->Element_1[1] == AttrView::Named("aria-current"@, "page"@));
    }
}

/// The heart under somebody else's post is a button that likes it; under one's
/// own it only counts, and is not there for nothing.
pub proof fn the_heart_under_a_post(lang: Lang, post_id: i64, summary: SummaryView)
    ensures
        ({
            let heart = like_view(lang, post_id, false, Some(summary));
            &&& has(
                heart,
                "action"@,
                seq!['/', 'p', '/'] + decimal_text(post_id as int) + "/like"@,
            )
            &&& inside(heart).len() == 1
            &&& has(
                inside(heart)[0],
                "aria-pressed"@,
                if summary.liked {
                    "true"@
                } else {
                    "false"@
                },
            )
            &&& summary.count > 0 ==> says_under(
                inside(heart)[0],
                "count"@,
                decimal_text(summary.count),
            )
            &&& summary.count <= 0 ==> inside(inside(inside(heart)[0])[1]).len() == 0
        }),
        summary.count > 0 ==> says_under(
            like_view(lang, post_id, true, Some(summary)),
            "count"@,
            decimal_text(summary.count),
        ),
        summary.count <= 0 ==> inside(like_view(lang, post_id, true, Some(summary))).len() == 0,
        inside(like_view(lang, post_id, true, None)).len() == 0,
{
    reveal_strlit("/p/");
    assert("/p/"@ == seq!['/', 'p', '/']);
    let heart = like_view(lang, post_id, false, Some(summary));
    assert(heart->Element_1[2] == AttrView::Named(
        "action"@,
        seq!['/', 'p', '/'] + decimal_text(post_id as int) + "/like"@,
    ));
    let button = inside(heart)[0];
    assert(button->Element_1[1] == AttrView::Named(
        "aria-pressed"@,
        if summary.liked {
            "true"@
        } else {
            "false"@
        },
    ));
    a_span_says("count"@, decimal_text(summary.count));
    if summary.count > 0 {
        assert(has(inside(button)[1], "class"@, "count"@) && says(
            inside(button)[1],
            decimal_text(summary.count),
        ));
        let own = like_view(lang, post_id, true, Some(summary));
        assert(has(inside(own)[1], "class"@, "count"@) && says(
            inside(own)[1],
            decimal_text(summary.count),
        ));
    }
}

/// What a number of likes, replies, comments or new entries is called.
pub proof fn what_numbers_are_called(lang: Lang, liked: bool, n: i64)
    ensures
        like_words(lang, true, 0) == said(lang, "unlike"@),
        like_words(lang, false, 0) == said(lang, "like"@),
        like_words(lang, liked, 1) == like_words(lang, liked, 0) + seq![',', ' '] + said(
            lang,
            "likes_one"@,
        ),
        n > 1 ==> like_words(lang, liked, n) == like_words(lang, liked, 0) + seq![',', ' ']
            + decimal_text(n as int) + seq![' '] + said(lang, "likes_many"@),
        comments_text(lang, 0) == said(lang, "no_comments_yet"@),
        comments_text(lang, 1) == said(lang, "comment_count_one"@),
        n > 1 ==> comments_text(lang, n) == decimal_text(n as int) + seq![' '] + said(
            lang,
            "comment_count_many"@,
        ),
        replies_text(lang, 0) == said(lang, "no_replies_yet"@),
        replies_text(lang, 1) == said(lang, "no_replies_yet"@),
        replies_text(lang, 2) == said(lang, "reply_count_one"@),
        n > 1 ==> replies_text(lang, n + 1) == decimal_text(n as int) + seq![' '] + said(
            lang,
            "reply_count_many"@,
        ),
        bell_words(lang, 0) == said(lang, "notifications"@),
        n > 0 ==> bell_words(lang, n) == said(lang, "notifications"@) + seq![':', ' ']
            + decimal_text(n as int) + seq![' '] + said(lang, "unread"@),
        likers_text(lang, 1) == seq![' '] + said(lang, "likes_your_post_in"@) + seq![' '],
        n > 0 ==> likers_text(lang, n + 1) == seq![' '] + said(lang, "and"@) + seq![' ']
            + decimal_text(n as int) + seq![' '] + said(lang, "others_like_your_post_in"@) + seq![
            ' ',
        ],
        bundle_key(true, true) == "new_reply_in"@,
        bundle_key(true, false) == "new_replies_in"@,
        bundle_key(false, true) == "reply_in"@,
        bundle_key(false, false) == "replies_in"@,
{
    reveal_strlit(" ");
    reveal_strlit(", ");
    reveal_strlit(": ");
    assert(" "@ == seq![' ']);
    assert(", "@ == seq![',', ' ']);
    assert(": "@ == seq![':', ' ']);
}

/// Names stand one after the other, with a comma between them.
pub proof fn one_more_name(names: Seq<Seq<char>>, one: Seq<char>)
    ensures
        names_line(Seq::empty()) == Seq::<char>::empty(),
        names_line(seq![one]) == one,
        names.len() > 0 ==> names_line(names.push(one)) == names_line(names) + seq![',', ' '] + one,
{
    reveal_strlit(", ");
    assert(", "@ == seq![',', ' ']);
    assert(names.push(one).drop_last() == names);
}

/// The bell says how much is new, if anything is.
pub proof fn the_bell_says_how_much_is_new(lang: Lang, bell: Bell)
    ensures
        has(bell_view(lang, bell), "href"@, "/notifications"@),
        has(bell_view(lang, bell), "title"@, bell_words(lang, bell.unread)),
        bell.unread > 0 ==> says_under(
            bell_view(lang, bell),
            "unread"@,
            decimal_text(bell.unread as int),
        ),
        bell.unread <= 0 ==> inside(inside(bell_view(lang, bell))[1]).len() == 0,
{
    let view = bell_view(lang, bell);
    assert(view->Element_1[1] == AttrView::Named("href"@, "/notifications"@));
    assert(view->Element_1[20] == AttrView::Named("title"@, bell_words(lang, bell.unread)));
    a_span_says("unread"@, decimal_text(bell.unread as int));
    if bell.unread > 0 {
        assert(has(inside(view)[1], "class"@, "unread"@) && says(
            inside(view)[1],
            decimal_text(bell.unread as int),
        ));
    }
}

/// Over a post stand its author and its moment, that it was edited if it was,
/// and its number, which leads to it.
pub proof fn what_stands_over_a_post(
    lang: Lang,
    post: Post,
    index: int,
    by_day: bool,
    handle: Option<Seq<char>>,
    moments: Seq<(i64, Option<i32>)>,
)
    ensures
        ({
            let line = byline_view(lang, post, index, by_day, handle, moments);
            &&& says_under(line, "name"@, post.author_name@)
            &&& index == 0 && by_day ==> says(line, shown_day(moments, post.created_at))
            &&& index != 0 || !by_day ==> says(line, shown_stamp(moments, post.created_at))
            &&& post.edited ==> says(line, " ("@ + said(lang, "edited"@) + ")"@)
            &&& !post.edited ==> inside(inside(line)[4]).len() == 0 && !(inside(line)[4] is Text)
            &&& links(
                line,
                seq!['#', 'p'] + decimal_text(post.id as int),
                seq!['#'] + decimal_text(index + 1),
            )
            &&& handle is Some ==> says_under(inside(line)[1], "handle"@, seq!['@'] + handle->0)
            &&& handle is None ==> inside(inside(line)[1]).len() == 0
        }),
{
    reveal_strlit("#p");
    reveal_strlit("#");
    reveal_strlit("@");
    assert("#p"@ == seq!['#', 'p']);
    assert("#"@ == seq!['#']);
    assert("@"@ == seq!['@']);
    let line = byline_view(lang, post, index, by_day, handle, moments);
    a_span_says("name"@, post.author_name@);
    assert(has(inside(line)[0], "class"@, "name"@) && says(inside(line)[0], post.author_name@));
    assert(inside(line)[3] is Text);
    if post.edited {
        assert(inside(line)[4] == NodeView::Text(" ("@ + said(lang, "edited"@) + ")"@));
    }
    let link = inside(line)[5];
    let (href, words) = (
        seq!['#', 'p'] + decimal_text(post.id as int),
        seq!['#'] + decimal_text(index + 1),
    );
    assert(link->Element_1[1] == AttrView::Named("href"@, href));
    assert(inside(link)[0] == NodeView::Text(words));
    assert(has(link, "href"@, href) && says(link, words));
    if handle is Some {
        let words = seq!['@'] + handle->0;
        a_span_says("handle"@, words);
        let one = inside(line)[1];
        assert(has(inside(one)[1], "class"@, "handle"@) && says(inside(one)[1], words));
    }
}

/// A post is shown as it was written, with the handles that are marked in it.
pub proof fn a_post_is_shown(markdown: Seq<char>, handles: Seq<Seq<char>>)
    ensures
        inside(body_view(markdown, handles)) == seq![NodeView::Post(markdown, handles)],
{
}

/// The first handle under a subject is that person's.
pub proof fn a_subject_finds_its_handle(
    front: Seq<(String, String)>,
    one: (String, String),
    back: Seq<(String, String)>,
    subject: Seq<char>,
)
    requires
        forall|i: int| 0 <= i < front.len() ==> (#[trigger] front[i]).0@ != subject,
    ensures
        one.0@ == subject ==> handle_known(front.push(one) + back, subject) == Some(one.1@),
        handle_known(front, subject) is None,
    decreases front.len(),
{
    let all = front.push(one) + back;
    if front.len() > 0 {
        let rest = front.skip(1);
        assert forall|i: int| 0 <= i < rest.len() implies (#[trigger] rest[i]).0@ != subject by {
            assert(rest[i] == front[i + 1]);
        }
        a_subject_finds_its_handle(rest, one, back, subject);
        assert(all.skip(1) == rest.push(one) + back);
        assert(all[0] == front[0]);
    } else {
        assert(all[0] == one);
    }
}

/// Whoever may post in a category finds the form for it there, and whoever may
/// reply finds the one for that; nobody else does.
pub proof fn who_finds_a_form(who: IdentityView, lang: Lang, category: CategoryView, space: SpaceView)
    ensures
        in_one_of(who, category.post) ==> form_view(who, lang, Some(category)) == new_topic_view(
            lang,
            category.slug,
        ),
        !in_one_of(who, category.post) ==> inside(form_view(who, lang, Some(category))).len() == 0,
        inside(form_view(who, lang, None)).len() == 0,
        may_answer(who, Some(category)) <==> in_one_of(who, category.reply),
        !may_answer(who, None),
{
    a_group_gives_the_right(who, space, category);
}

/// A form goes to what it is for.
pub proof fn where_forms_go(lang: Lang, id: i64, slug: Seq<char>, markdown: Seq<char>)
    ensures
        has(
            inside(new_topic_view(lang, slug))[1],
            "action"@,
            seq!['/', 'c', '/'] + slug + "/new"@,
        ),
        has(
            inside(reply_view(lang, id))[1],
            "action"@,
            seq!['/', 't', '/'] + decimal_text(id as int) + "/reply"@,
        ),
        has(
            inside(reply_view(lang, id))[2],
            "action"@,
            seq!['/', 't', '/'] + decimal_text(id as int) + "/attach"@,
        ),
        has(
            follow_view(lang, id, false),
            "action"@,
            seq!['/', 't', '/'] + decimal_text(id as int) + "/follow"@,
        ),
        has(
            follow_view(lang, id, true),
            "action"@,
            seq!['/', 't', '/'] + decimal_text(id as int) + "/unfollow"@,
        ),
        has(
            inside(inside(own_view(lang, id, markdown))[0])[1],
            "action"@,
            seq!['/', 'p', '/'] + decimal_text(id as int) + "/edit"@,
        ),
        has(
            inside(own_view(lang, id, markdown))[1],
            "href"@,
            seq!['/', 'p', '/'] + decimal_text(id as int) + "/delete"@,
        ),
        says(inside(inside(inside(own_view(lang, id, markdown))[0])[1])[0], markdown),
{
    reveal_strlit("/t/");
    reveal_strlit("/c/");
    reveal_strlit("/p/");
    assert("/t/"@ == seq!['/', 't', '/']);
    assert("/c/"@ == seq!['/', 'c', '/']);
    assert("/p/"@ == seq!['/', 'p', '/']);
    let t = seq!['/', 't', '/'] + decimal_text(id as int);
    let p = seq!['/', 'p', '/'] + decimal_text(id as int);
    let a = inside(new_topic_view(lang, slug))[1];
    assert(a->Element_1[1] == AttrView::Named("action"@, seq!['/', 'c', '/'] + slug + "/new"@));
    let b = inside(reply_view(lang, id))[1];
    assert(b->Element_1[1] == AttrView::Named("action"@, t + "/reply"@));
    let c = inside(reply_view(lang, id))[2];
    assert(c->Element_1[2] == AttrView::Named("action"@, t + "/attach"@));
    assert(follow_view(lang, id, false)->Element_1[2] == AttrView::Named("action"@, t + "/follow"@));
    assert(follow_view(lang, id, true)->Element_1[2] == AttrView::Named("action"@, t + "/unfollow"@));
    let own = own_view(lang, id, markdown);
    let d = inside(inside(own)[0])[1];
    assert(d->Element_1[1] == AttrView::Named("action"@, p + "/edit"@));
    let e = inside(own)[1];
    assert(e->Element_1[1] == AttrView::Named("href"@, p + "/delete"@));
    assert(inside(inside(d)[0])[0] == NodeView::Text(markdown));
}

/// The switch for mails about mentions turns off what is on, and on what is
/// off.
pub proof fn a_switch_turns(lang: Lang)
    ensures
        has(inside(mention_switch_view(lang, true))[0], "value"@, seq!['0']),
        has(inside(mention_switch_view(lang, false))[0], "value"@, seq!['1']),
        says_under(mention_switch_view(lang, true), "note"@, said(lang, "mention_mail_is_on"@)),
        says_under(mention_switch_view(lang, false), "note"@, said(lang, "mention_mail_is_off"@)),
        says(inside(mention_switch_view(lang, true))[1], said(lang, "mention_mail_off"@)),
        says(inside(mention_switch_view(lang, false))[1], said(lang, "mention_mail_on"@)),
{
    reveal_strlit("0");
    reveal_strlit("1");
    assert("0"@ == seq!['0']);
    assert("1"@ == seq!['1']);
    let (on, off) = (mention_switch_view(lang, true), mention_switch_view(lang, false));
    assert(inside(on)[0]->Void_1[2] == AttrView::Named("value"@, seq!['0']));
    assert(inside(off)[0]->Void_1[2] == AttrView::Named("value"@, seq!['1']));
    a_span_says("note"@, said(lang, "mention_mail_is_on"@));
    a_span_says("note"@, said(lang, "mention_mail_is_off"@));
    assert(has(inside(on)[2], "class"@, "note"@) && says(
        inside(on)[2],
        said(lang, "mention_mail_is_on"@),
    ));
    assert(has(inside(off)[2], "class"@, "note"@) && says(
        inside(off)[2],
        said(lang, "mention_mail_is_off"@),
    ));
    assert(inside(inside(on)[1])[0] == NodeView::Text(said(lang, "mention_mail_off"@)));
    assert(inside(inside(off)[1])[0] == NodeView::Text(said(lang, "mention_mail_on"@)));
}

/// A line on the notifications page says who did what in which topic, and
/// when, and leads there; it is marked as new while it is.
pub proof fn what_a_line_says(
    entry: EntryView,
    host: Seq<char>,
    lang: Lang,
    href: Seq<char>,
    moments: Seq<(i64, Option<i32>)>,
)
    ensures
        ({
            let words = entry_words_view(entry, lang, href, moments);
            let link = words[0];
            &&& words.len() == 2
            &&& has(link, "href"@, href)
            &&& match entry {
                EntryView::Replies { topic_title, count, latest_author, latest_at, unread, .. } => {
                    &&& says(
                        link,
                        decimal_text(count) + seq![' '] + said(
                            lang,
                            bundle_key(unread, count == 1),
                        ) + seq![' '],
                    )
                    &&& says(inside(link)[1], topic_title)
                    &&& says_under(words[1], "name"@, latest_author)
                    &&& says(words[1], shown_stamp(moments, latest_at))
                },
                EntryView::Mention { topic_title, author, at, .. } => {
                    &&& says_under(link, "name"@, author)
                    &&& says(inside(link)[2], topic_title)
                    &&& says(words[1], shown_stamp(moments, at))
                },
                EntryView::Likes { topic_title, count, latest_name, at, .. } => {
                    &&& says_under(link, "name"@, latest_name)
                    &&& says(link, likers_text(lang, count))
                    &&& says(inside(link)[2], topic_title)
                    &&& says(words[1], shown_stamp(moments, at))
                },
                EntryView::Event { title, reason, at, .. } => {
                    &&& says(inside(link)[1], title)
                    &&& says(words[1], shown_stamp(moments, at))
                    &&& reason is Some ==> says(inside(words[1])[0], reason->0)
                },
            }
        }),
        has(
            inbox_line_view(entry, host, lang, moments),
            "class"@,
            if entry.is_unread() {
                "new"@
            } else {
                "seen"@
            },
        ),
        entry.is_unread() == match entry {
            EntryView::Replies { unread, .. } => unread,
            EntryView::Mention { unread, .. } => unread,
            EntryView::Likes { unread, .. } => unread,
            EntryView::Event { unread, .. } => unread,
        },
{
    reveal_strlit(" ");
    assert(" "@ == seq![' ']);
    let words = entry_words_view(entry, lang, href, moments);
    let link = words[0];
    assert(link->Element_1[0] == AttrView::Named("href"@, href));
    let line = inbox_line_view(entry, host, lang, moments);
    assert(line->Element_1[0] == AttrView::Named(
        "class"@,
        if entry.is_unread() {
            "new"@
        } else {
            "seen"@
        },
    ));
    match entry {
        EntryView::Replies { topic_title, count, latest_author, latest_at, unread, .. } => {
            assert(inside(link)[0] == NodeView::Text(
                decimal_text(count) + seq![' '] + said(lang, bundle_key(unread, count == 1)) + seq![
                    ' ',
                ],
            ));
            assert(inside(inside(link)[1])[0] == NodeView::Text(topic_title));
            a_span_says("name"@, latest_author);
            assert(has(inside(words[1])[1], "class"@, "name"@) && says(
                inside(words[1])[1],
                latest_author,
            ));
            assert(inside(words[1])[3] == NodeView::Text(shown_stamp(moments, latest_at)));
        },
        EntryView::Mention { topic_title, author, at, .. } => {
            a_span_says("name"@, author);
            assert(has(inside(link)[0], "class"@, "name"@) && says(inside(link)[0], author));
            assert(inside(inside(link)[2])[0] == NodeView::Text(topic_title));
            assert(inside(words[1])[0] == NodeView::Text(shown_stamp(moments, at)));
        },
        EntryView::Likes { topic_title, count, latest_name, at, .. } => {
            a_span_says("name"@, latest_name);
            assert(has(inside(link)[0], "class"@, "name"@) && says(inside(link)[0], latest_name));
            assert(inside(link)[1] == NodeView::Text(likers_text(lang, count)));
            assert(inside(inside(link)[2])[0] == NodeView::Text(topic_title));
            assert(inside(words[1])[0] == NodeView::Text(shown_stamp(moments, at)));
        },
        EntryView::Event { title, reason, at, .. } => {
            assert(inside(inside(link)[1])[0] == NodeView::Text(title));
            assert(inside(words[1])[1] == NodeView::Text(shown_stamp(moments, at)));
            if reason is Some {
                assert(inside(inside(words[1])[0])[0] == NodeView::Text(reason->0));
            }
        },
    }
}

/// The host of an address is what stands behind the colon and the two slashes,
/// up to the next one.
pub proof fn the_host_of_an_address(scheme: Seq<char>, host: Seq<char>, path: Seq<char>)
    requires
        !scheme.contains(':'),
        !host.contains('/'),
    ensures
        host_part(scheme + seq![':', '/', '/'] + host + seq!['/'] + path) == host,
        host_part(scheme + seq![':', '/', '/'] + host) == host,
{
    reveal_strlit("://");
    let mark = seq![':', '/', '/'];
    assert("://"@ == mark);
    let n = scheme.len() as int;
    let long = scheme + mark + host + seq!['/'] + path;
    let short = scheme + mark + host;
    assert forall|i: int| 0 <= i < n implies scheme[i] != ':' by {
        assert(scheme.contains(scheme[i]));
    }
    assert forall|i: int| 0 <= i < n implies !crate::text::starts_with(
        #[trigger] long.skip(i),
        mark,
    ) by {
        assert(long.skip(i)[0] == scheme[i]);
        assert(long.skip(i).take(3)[0] == scheme[i]);
    }
    assert forall|i: int| 0 <= i < n implies !crate::text::starts_with(
        #[trigger] short.skip(i),
        mark,
    ) by {
        assert(short.skip(i)[0] == scheme[i]);
        assert(short.skip(i).take(3)[0] == scheme[i]);
    }
    assert(long.skip(n).take(3) == mark);
    assert(short.skip(n).take(3) == mark);
    crate::laws::text::the_first_place(long, mark, n);
    crate::laws::text::the_first_place(short, mark, n);
    let behind = host + seq!['/'] + path;
    assert(long.skip(n + 3) == behind);
    assert(short.skip(n + 3) == host);
    assert forall|i: int| 0 <= i < host.len() implies host[i] != '/' by {
        assert(host.contains(host[i]));
    }
    crate::text::first_at_found(behind, '/', host.len() as int);
    crate::text::first_at_found(host, '/', host.len() as int);
    assert(behind.take(host.len() as int) == host);
    assert(host.take(host.len() as int) == host);
    assert(first_at(host, '/') == host.len());
}

/// A page is written piece by piece: words so that they mean themselves, an
/// element between its tags, and an attribute behind its name.
pub proof fn how_a_page_is_written(
    words: Seq<char>,
    tag: Seq<char>,
    attrs: Seq<AttrView>,
    nodes: Seq<NodeView>,
    name: Seq<char>,
    value: Seq<char>,
)
    ensures
        node_html(NodeView::Text(words)) == html_text(words),
        node_html(NodeView::Element(tag, attrs, nodes)) == seq!['<'] + tag + attrs_html(attrs)
            + seq!['>'] + node_html(NodeView::Many(nodes)) + seq!['<', '/'] + tag + seq!['>'],
        node_html(NodeView::Void(tag, attrs)) == seq!['<'] + tag + attrs_html(attrs) + seq!['>'],
        attrs_html(attrs.push(AttrView::Named(name, value))) == attrs_html(attrs) + seq![' ']
            + name + seq!['=', '"'] + html_text(value) + seq!['"'],
        attrs_html(attrs.push(AttrView::Bare(name))) == attrs_html(attrs) + seq![' '] + name,
        attrs_html(attrs.push(AttrView::Absent)) == attrs_html(attrs),
        attrs_html(Seq::empty()) == Seq::<char>::empty(),
        document_html(NodeView::Text(words)) == "<!DOCTYPE html>"@ + html_text(words),
{
    reveal_strlit("<");
    reveal_strlit(">");
    reveal_strlit("</");
    reveal_strlit(" ");
    reveal_strlit("=\"");
    reveal_strlit("\"");
    assert("<"@ == seq!['<']);
    assert(">"@ == seq!['>']);
    assert("</"@ == seq!['<', '/']);
    assert(" "@ == seq![' ']);
    assert("=\""@ == seq!['=', '"']);
    assert("\""@ == seq!['"']);
    assert(attrs.push(AttrView::Named(name, value)).drop_last() == attrs);
    assert(attrs.push(AttrView::Bare(name)).drop_last() == attrs);
    assert(attrs.push(AttrView::Absent).drop_last() == attrs);
    let one = attr_html(AttrView::Named(name, value));
    assert(attrs_html(attrs) + one == attrs_html(attrs) + seq![' '] + name + seq!['=', '"']
        + html_text(value) + seq!['"']);
    assert(attrs_html(attrs) + (seq![' '] + name) == attrs_html(attrs) + seq![' '] + name);
    assert(attrs_html(attrs) + Seq::<char>::empty() == attrs_html(attrs));
}

/// One more piece is written behind the ones before it.
pub proof fn one_more_piece(nodes: Seq<NodeView>, one: NodeView)
    ensures
        node_html(NodeView::Many(nodes.push(one))) == node_html(NodeView::Many(nodes)) + node_html(
            one,
        ),
        node_html(NodeView::Many(Seq::empty())) == Seq::<char>::empty(),
{
    let more = nodes.push(one);
    same_front(nodes, more, nodes.len());
    assert(more[more.len() - 1] == one);
}

proof fn same_front(a: Seq<NodeView>, b: Seq<NodeView>, count: nat)
    requires
        count <= a.len(),
        count <= b.len(),
        forall|i: int| 0 <= i < count ==> a[i] == b[i],
    ensures
        nodes_html(a, count) == nodes_html(b, count),
    decreases count,
{
    if count > 0 {
        same_front(a, b, (count - 1) as nat);
    }
}

/// A moment is shown by its day and its minute, and an article by its day
/// alone; what cannot be shown is unknown.
pub proof fn how_a_moment_is_shown(second: i64, offset: i32, text: Seq<char>)
    ensures
        civil_formatted(second, offset, "%Y-%m-%d %H:%M"@) == Some(text) ==> stamp_text(
            second,
            Some(offset),
        ) == text,
        civil_formatted(second, offset, "%Y-%m-%d"@) == Some(text) ==> day_text(
            second,
            Some(offset),
        ) == text,
        stamp_text(second, None) == "unknown"@,
        day_text(second, None) == "unknown"@,
        civil_formatted(second, offset, "%Y-%m-%d"@) is None ==> day_text(second, Some(offset))
            == "unknown"@,
{
}

/// A moment is shown by the offset that was asked for it.
pub proof fn a_moment_finds_its_offset(
    front: Seq<(i64, Option<i32>)>,
    second: i64,
    offset: Option<i32>,
    back: Seq<(i64, Option<i32>)>,
)
    requires
        forall|i: int| 0 <= i < front.len() ==> (#[trigger] front[i]).0 != second,
    ensures
        offset_in(front.push((second, offset)) + back, second) == offset,
        offset_in(front, second) is None,
        shown_stamp(front.push((second, offset)) + back, second) == stamp_text(second, offset),
        shown_day(front.push((second, offset)) + back, second) == day_text(second, offset),
    decreases front.len(),
{
    let all = front.push((second, offset)) + back;
    if front.len() > 0 {
        let rest = front.skip(1);
        assert forall|i: int| 0 <= i < rest.len() implies (#[trigger] rest[i]).0 != second by {
            assert(rest[i] == front[i + 1]);
        }
        a_moment_finds_its_offset(rest, second, offset, back);
        assert(all.skip(1) == rest.push((second, offset)) + back);
        assert(all[0] == front[0]);
    } else {
        assert(all[0] == (second, offset));
    }
}

/// A zone goes by its name, however it is written.
pub proof fn a_zone_goes_by_its_name(own: Seq<char>, name: Seq<char>)
    ensures
        goes_by(Some(own), name) <==> ascii_lower(own) == ascii_lower(name),
        goes_by(None, name) <==> ascii_lower(name) == "etc/unknown"@,
{
}

} // verus!
