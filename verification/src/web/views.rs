//! The pages. Server-rendered HTML, no third party, and scripts of our own
//! which nothing depends on: every page works the same without them.
//!
//! Everything user-supplied reaches a page through one of two doors: a text,
//! which is escaped, or a post body, which goes through the sanitizer.
use crate::authz::{
    may_modify, may_post, may_reply, posts, replies, Identity, IdentityView,
};
use crate::config::{category_named, Category, CategoryView, Space, SpaceView, View};
use crate::clock::{shown_day, shown_stamp, Moments};
use crate::db::events::Kind;
use crate::db::inbox::{entries_view, Entry, EntryView};
use crate::db::likes::{Summary, SummaryView};
use crate::db::search::{hits_view, Hit, HitView};
use crate::db::topics::{CategoryCount, Counts, LastPost, Post, Topic};
use crate::i18n::{said, Lang};
use crate::live::{base_of, entry_path, link_base, path_of_entry};
use crate::text::{
    chars, decimal, decimal_count, decimal_text, find_char, find_text, first_at, found_fits, place_of,
    same, slice_string, text_of, texts, trim, trimmed,
};
use crate::web::html::{
    attr, attrs1, attrs2, attrs3, attrs4, attrs5, attrs_view, bare, elem, element, icon, many,
    maybe, maybe_view, no_attrs, no_nodes, nodes1, nodes2, nodes3, nodes4, nodes5, nodes6,
    nodes_view, nothing, nothing_view, named, post, text, txt, void, Attr, AttrView, Icon, Node,
    NodeView,
};
use std::collections::HashMap;
use vstd::prelude::*;
use vstd::string::*;
use vstd::view::View as _;

verus! {

/// What the header needs to know about the person looking, beyond who they
/// are: how many things wait for them. Counted by the handler AFTER it has
/// changed anything: a topic page reads its own entries first, so the bell on
/// it does not count the bundle it just cleared.
#[derive(Debug, Clone, Copy, Default, PartialEq, Eq, Structural)]
pub struct Bell {
    pub unread: i64,
}

/// What the bell says to somebody who cannot see it.
pub open spec fn bell_words(lang: Lang, unread: i64) -> Seq<char> {
    if unread > 0 {
        said(lang, "notifications"@) + ": "@ + decimal_text(unread as int) + " "@ + said(
            lang,
            "unread"@,
        )
    } else {
        said(lang, "notifications"@)
    }
}

/// What the bell says to somebody who cannot see it.
pub fn bell_label(lang: Lang, bell: Bell) -> (r: String)
    ensures
        r@ == bell_words(lang, bell.unread),
{
    if bell.unread > 0 {
        lang.t("notifications").to_owned().concat(": ").concat(&decimal(bell.unread)).concat(
            " ",
        ).concat(lang.t("unread"))
    } else {
        lang.t("notifications").to_owned()
    }
}

/// The host part of an address.
pub open spec fn host_part(url: Seq<char>) -> Seq<char> {
    let rest = match place_of(url, "://"@) {
        Some(at) => url.skip(at + 3),
        None => url,
    };
    rest.take(first_at(rest, '/'))
}

/// The host part of an address, for labelling a link with the place it leads
/// to.
///
/// Deliberately not a parser: the value comes from the configuration file of
/// whoever runs the instance, it is only ever printed, and it is escaped on
/// the way out. Anything unexpected shows up as itself rather than as a wrong
/// answer.
pub fn host_of(url: &str) -> (r: String)
    ensures
        r@ == host_part(url@),
{
    let all = chars(url);
    let mark = chars("://");
    let size: usize = all.len();
    proof {
        reveal_strlit("://");
    }
    let from: usize = match find_text(&all, &mark) {
        Some(at) => {
            proof {
                found_fits(url@, "://"@);
            }
            at + 3
        },
        None => 0,
    };
    let ghost rest = url@.skip(from as int);
    assert(url@.skip(0) == url@);
    assert(all@.subrange(from as int, size as int) == rest);
    let n: usize = find_char(&all[from..size], '/');
    assert(rest.take(n as int) == url@.subrange(from as int, from + n));
    slice_string(&all, from, from + n)
}

/// The head of a page.
pub open spec fn head_view(title: Seq<char>, space_title: Seq<char>, scripts: bool) -> NodeView {
    let front = seq![
        NodeView::Void("meta"@, seq![attr("charset"@, "utf-8"@)]),
        NodeView::Void(
            "meta"@,
            seq![
                attr("name"@, "viewport"@),
                attr("content"@, "width=device-width, initial-scale=1"@),
            ],
        ),
        elem("title"@, seq![], seq![txt(title + " \u{2014} "@ + space_title)]),
        NodeView::Void(
            "link"@,
            seq![attr("rel"@, "stylesheet"@), attr("href"@, "/assets/style.css"@)],
        ),
        if scripts {
            NodeView::Many(
                seq![
                    script_view("/assets/mention.js"@),
                    script_view("/assets/bell.js"@),
                    script_view("/assets/like.js"@),
                ],
            )
        } else {
            nothing_view()
        },
    ];
    elem("head"@, seq![], front)
}

pub open spec fn script_view(source: Seq<char>) -> NodeView {
    elem("script"@, seq![attr("src"@, source), AttrView::Bare("defer"@)], seq![])
}

/// `defer`, so it runs after the page is there and never holds it up.
fn script(source: &str) -> (r: Node)
    ensures
        r@ == script_view(source@),
{
    element("script", attrs2(named("src", source), bare("defer")), no_nodes())
}

fn head(title: &str, space_title: &str, scripts: bool) -> (r: Node)
    ensures
        r@ == head_view(title@, space_title@, scripts),
{
    let scripts = if scripts {
        many(
            nodes3(
                script("/assets/mention.js"),
                script("/assets/bell.js"),
                script("/assets/like.js"),
            ),
        )
    } else {
        nothing()
    };
    let title = title.to_owned().concat(" \u{2014} ").concat(space_title);
    element(
        "head",
        no_attrs(),
        nodes5(
            void("meta", attrs1(named("charset", "utf-8"))),
            void(
                "meta",
                attrs2(
                    named("name", "viewport"),
                    named("content", "width=device-width, initial-scale=1"),
                ),
            ),
            element("title", no_attrs(), nodes1(text(&title))),
            void("link", attrs2(named("rel", "stylesheet"), named("href", "/assets/style.css"))),
            scripts,
        ),
    )
}

/// The command on the prompt line: a timeline is read, and a topic list is
/// browsed.
pub open spec fn command_of(view: View) -> Seq<char> {
    match view {
        View::Timeline => "cat *.md"@,
        View::Topics => "ls -la"@,
    }
}

/// The prompt line is shell, not prose: it says who you are and where you are,
/// in the one notation that needs no translation.
pub open spec fn prompt_view(space: SpaceView, who: IdentityView) -> NodeView {
    elem(
        "p"@,
        seq![attr("class"@, "prompt"@)],
        seq![
            elem("b"@, seq![], seq![txt(who.name + "@"@ + space.host)]),
            txt(":~$ "@ + command_of(space.view)),
        ],
    )
}

fn prompt(space: &Space, who: &Identity) -> (r: Node)
    ensures
        r@ == prompt_view(space@, who@),
{
    let place = who.name.clone().concat("@").concat(&space.host);
    let command = match space.view {
        View::Timeline => ":~$ ".to_owned().concat("cat *.md"),
        View::Topics => ":~$ ".to_owned().concat("ls -la"),
    };
    element(
        "p",
        attrs1(named("class", "prompt")),
        nodes2(element("b", no_attrs(), nodes1(text(&place))), text(&command)),
    )
}

pub open spec fn brand_view(title: Seq<char>) -> NodeView {
    elem(
        "span"@,
        seq![attr("class"@, "brand"@)],
        seq![
            elem(
                "a"@,
                seq![attr("class"@, "home"@), attr("href"@, "/"@)],
                seq![txt(title)],
            ),
            elem("span"@, seq![attr("class"@, "cursor"@)], seq![]),
        ],
    )
}

fn brand(title: &str) -> (r: Node)
    ensures
        r@ == brand_view(title@),
{
    element(
        "span",
        attrs1(named("class", "brand")),
        nodes2(
            element("a", attrs2(named("class", "home"), named("href", "/")), nodes1(text(title))),
            element("span", attrs1(named("class", "cursor")), no_nodes()),
        ),
    )
}

/// The search field, with whatever was searched for left standing in it: a
/// field that empties itself on the results page is one people retype.
pub open spec fn find_view(lang: Lang, find: Seq<char>) -> NodeView {
    elem(
        "form"@,
        seq![attr("class"@, "find"@), attr("method"@, "get"@), attr("action"@, "/search"@)],
        seq![
            NodeView::Void(
                "input"@,
                seq![
                    attr("type"@, "search"@),
                    attr("name"@, "q"@),
                    attr("value"@, find),
                    attr("placeholder"@, said(lang, "search_placeholder"@)),
                    attr("aria-label"@, said(lang, "search_placeholder"@)),
                ],
            ),
        ],
    )
}

fn find_form(lang: Lang, find: &str) -> (r: Node)
    ensures
        r@ == find_view(lang, find@),
{
    element(
        "form",
        attrs3(named("class", "find"), named("method", "get"), named("action", "/search")),
        nodes1(
            void(
                "input",
                attrs5(
                    named("type", "search"),
                    named("name", "q"),
                    named("value", find),
                    named("placeholder", lang.t("search_placeholder")),
                    named("aria-label", lang.t("search_placeholder")),
                ),
            ),
        ),
    )
}

/// The way back to where the space came from, labelled with the place and not
/// with an arrow: who lands here often comes from a bookmark and does not know
/// where "back" leads.
pub open spec fn up_view(home: Option<Seq<char>>) -> NodeView {
    match home {
        Some(home) => elem(
            "a"@,
            seq![attr("class"@, "up"@), attr("href"@, home)],
            seq![txt(host_part(home))],
        ),
        None => nothing_view(),
    }
}

fn up(home: &Option<String>) -> (r: Node)
    ensures
        r@ == up_view(text_of(*home)),
{
    match home {
        Some(home) => {
            let place = host_of(home);
            element(
                "a",
                attrs2(named("class", "up"), named("href", home)),
                nodes1(text(&place)),
            )
        },
        None => nothing(),
    }
}

/// The words the bell's script needs, in the page's language. Everything it
/// needs is on the element, so the same file can serve a page that is not
/// ours, and it carries no translation of its own.
pub open spec fn bell_attrs_view(lang: Lang, bell: Bell) -> Seq<AttrView> {
    seq![
        attr("class"@, "bell"@),
        attr("href"@, "/notifications"@),
        attr("data-stream"@, "/notifications/stream"@),
        attr("data-json"@, "/notifications.json"@),
        attr("data-t-title"@, said(lang, "notifications"@)),
        attr("data-t-all"@, said(lang, "all_notifications"@)),
        attr("data-t-nothing"@, said(lang, "nothing_new_short"@)),
        attr("data-t-new-reply-in"@, said(lang, "new_reply_in"@)),
        attr("data-t-new-replies-in"@, said(lang, "new_replies_in"@)),
        attr("data-t-reply-in"@, said(lang, "reply_in"@)),
        attr("data-t-replies-in"@, said(lang, "replies_in"@)),
        attr("data-t-latest-from"@, said(lang, "latest_from"@)),
        attr("data-t-mentioned-you-in"@, said(lang, "mentioned_you_in"@)),
        attr("data-t-film-available"@, said(lang, "film_available"@)),
        attr("data-t-film-failed"@, said(lang, "film_failed"@)),
        attr("data-t-likes-your-post-in"@, said(lang, "likes_your_post_in"@)),
        attr("data-t-and"@, said(lang, "and"@)),
        attr("data-t-others-like-your-post-in"@, said(lang, "others_like_your_post_in"@)),
        attr("data-t-unread"@, said(lang, "unread"@)),
        attr("aria-label"@, bell_words(lang, bell.unread)),
        attr("title"@, bell_words(lang, bell.unread)),
    ]
}

fn bell_attrs(lang: Lang, bell: Bell) -> (r: Vec<Attr>)
    ensures
        attrs_view(r@) == bell_attrs_view(lang, bell),
{
    let label = bell_label(lang, bell);
    let out: Vec<Attr> = vec![
        named("class", "bell"),
        named("href", "/notifications"),
        named("data-stream", "/notifications/stream"),
        named("data-json", "/notifications.json"),
        named("data-t-title", lang.t("notifications")),
        named("data-t-all", lang.t("all_notifications")),
        named("data-t-nothing", lang.t("nothing_new_short")),
        named("data-t-new-reply-in", lang.t("new_reply_in")),
        named("data-t-new-replies-in", lang.t("new_replies_in")),
        named("data-t-reply-in", lang.t("reply_in")),
        named("data-t-replies-in", lang.t("replies_in")),
        named("data-t-latest-from", lang.t("latest_from")),
        named("data-t-mentioned-you-in", lang.t("mentioned_you_in")),
        named("data-t-film-available", lang.t("film_available")),
        named("data-t-film-failed", lang.t("film_failed")),
        named("data-t-likes-your-post-in", lang.t("likes_your_post_in")),
        named("data-t-and", lang.t("and")),
        named("data-t-others-like-your-post-in", lang.t("others_like_your_post_in")),
        named("data-t-unread", lang.t("unread")),
        named("aria-label", &label),
        named("title", &label),
    ];
    assert(attrs_view(out@) =~= bell_attrs_view(lang, bell));
    out
}

/// The bell is A LINK, and with its script an overlay. The number is there
/// only when there is one: a bell that always says 0 is one people stop
/// looking at.
pub open spec fn bell_view(lang: Lang, bell: Bell) -> NodeView {
    elem(
        "a"@,
        bell_attrs_view(lang, bell),
        seq![
            NodeView::Icon(Icon::Bell),
            if bell.unread > 0 {
                elem(
                    "span"@,
                    seq![attr("class"@, "unread"@)],
                    seq![txt(decimal_text(bell.unread as int))],
                )
            } else {
                nothing_view()
            },
        ],
    )
}

fn bell_link(lang: Lang, bell: Bell) -> (r: Node)
    ensures
        r@ == bell_view(lang, bell),
{
    let number = if bell.unread > 0 {
        element("span", attrs1(named("class", "unread")), nodes1(text(&decimal(bell.unread))))
    } else {
        nothing()
    };
    element("a", bell_attrs(lang, bell), nodes2(icon(Icon::Bell), number))
}

/// A form and not a link: signing out CHANGES something, and what a link does
/// is done by everybody who merely fetches it.
pub open spec fn leave_view(lang: Lang) -> NodeView {
    elem(
        "form"@,
        seq![attr("class"@, "leave"@), attr("method"@, "post"@), attr("action"@, "/auth/logout"@)],
        seq![
            elem("button"@, seq![attr("type"@, "submit"@)], seq![txt(said(lang, "sign_out"@))]),
        ],
    )
}

fn leave(lang: Lang) -> (r: Node)
    ensures
        r@ == leave_view(lang),
{
    element(
        "form",
        attrs3(named("class", "leave"), named("method", "post"), named("action", "/auth/logout")),
        nodes1(button(lang.t("sign_out"))),
    )
}

/// A button that sends its form.
pub open spec fn button_view(label: Seq<char>) -> NodeView {
    elem("button"@, seq![attr("type"@, "submit"@)], seq![txt(label)])
}

fn button(label: &str) -> (r: Node)
    ensures
        r@ == button_view(label@),
{
    element("button", attrs1(named("type", "submit")), nodes1(text(label)))
}

/// Something in a class of its own.
pub open spec fn span_view(class: Seq<char>, words: Seq<char>) -> NodeView {
    elem("span"@, seq![attr("class"@, class)], seq![txt(words)])
}

fn span(class: &str, words: &str) -> (r: Node)
    ensures
        r@ == span_view(class@, words@),
{
    element("span", attrs1(named("class", class)), nodes1(text(words)))
}

/// What stands between two parts of a line.
pub open spec fn sep_view() -> NodeView {
    span_view("sep"@, " \u{b7} "@)
}

fn sep() -> (r: Node)
    ensures
        r@ == sep_view(),
{
    span("sep", " \u{b7} ")
}

pub open spec fn header_view(
    space: SpaceView,
    who: IdentityView,
    lang: Lang,
    bell: Bell,
    find: Seq<char>,
) -> NodeView {
    elem(
        "header"@,
        seq![],
        seq![
            prompt_view(space, who),
            elem(
                "div"@,
                seq![attr("class"@, "headline"@)],
                seq![
                    brand_view(space.title),
                    elem(
                        "nav"@,
                        seq![],
                        seq![
                            find_view(lang, find),
                            up_view(space.home),
                            bell_view(lang, bell),
                            span_view("who"@, who.name),
                            leave_view(lang),
                        ],
                    ),
                ],
            ),
        ],
    )
}

fn header(space: &Space, who: &Identity, lang: Lang, bell: Bell, find: &str) -> (r: Node)
    ensures
        r@ == header_view(space@, who@, lang, bell, find@),
{
    element(
        "header",
        no_attrs(),
        nodes2(
            prompt(space, who),
            element(
                "div",
                attrs1(named("class", "headline")),
                nodes2(
                    brand(&space.title),
                    element(
                        "nav",
                        no_attrs(),
                        nodes5(
                            find_form(lang, find),
                            up(&space.home),
                            bell_link(lang, bell),
                            span("who", &who.name),
                            leave(lang),
                        ),
                    ),
                ),
            ),
        ),
    )
}

/// A page of somebody who is signed in, with whatever was searched for left
/// standing in the field.
pub open spec fn layout_view(
    space: SpaceView,
    who: IdentityView,
    lang: Lang,
    bell: Bell,
    title: Seq<char>,
    find: Seq<char>,
    body: NodeView,
) -> NodeView {
    elem(
        "html"@,
        seq![attr("lang"@, lang.tag())],
        seq![
            head_view(title, space.title, true),
            elem(
                "body"@,
                seq![],
                seq![
                    header_view(space, who, lang, bell, find),
                    elem("main"@, seq![attr("id"@, "top"@)], seq![body]),
                    elem(
                        "footer"@,
                        seq![],
                        seq![
                            elem(
                                "p"@,
                                seq![attr("class"@, "prompt"@)],
                                seq![txt("# "@ + space.host)],
                            ),
                            elem("p"@, seq![], seq![txt(said(lang, "footer_note"@))]),
                        ],
                    ),
                ],
            ),
        ],
    )
}

pub fn layout(
    space: &Space,
    who: &Identity,
    lang: Lang,
    bell: Bell,
    title: &str,
    body: Node,
) -> (r: Node)
    ensures
        r@ == layout_view(space@, who@, lang, bell, title@, ""@, body@),
{
    layout_with_search(space, who, lang, bell, title, "", body)
}

/// The same layout, with whatever was searched for left standing in the field.
pub fn layout_with_search(
    space: &Space,
    who: &Identity,
    lang: Lang,
    bell: Bell,
    title: &str,
    find: &str,
    body: Node,
) -> (r: Node)
    ensures
        r@ == layout_view(space@, who@, lang, bell, title@, find@, body@),
{
    let place = "# ".to_owned().concat(&space.host);
    element(
        "html",
        attrs1(named("lang", lang.code())),
        nodes2(
            head(title, &space.title, true),
            element(
                "body",
                no_attrs(),
                nodes3(
                    header(space, who, lang, bell, find),
                    element("main", attrs1(named("id", "top")), nodes1(body)),
                    element(
                        "footer",
                        no_attrs(),
                        nodes2(
                            element("p", attrs1(named("class", "prompt")), nodes1(text(&place))),
                            element("p", no_attrs(), nodes1(text(lang.t("footer_note")))),
                        ),
                    ),
                ),
            ),
        ),
    )
}

/// A page with no header and no navigation, for the two places somebody
/// arrives without a session. Everything the normal layout shows, the name,
/// the way to sign out, would be a lie here.
pub open spec fn bare_view(
    space: SpaceView,
    lang: Lang,
    title: Seq<char>,
    body: NodeView,
) -> NodeView {
    elem(
        "html"@,
        seq![attr("lang"@, lang.tag())],
        seq![
            head_view(title, space.title, false),
            elem(
                "body"@,
                seq![],
                seq![
                    elem(
                        "main"@,
                        seq![attr("class"@, "bare"@)],
                        seq![elem("h1"@, seq![], seq![txt(title)]), body],
                    ),
                ],
            ),
        ],
    )
}

fn bare_page(space: &Space, lang: Lang, title: &str, body: Node) -> (r: Node)
    ensures
        r@ == bare_view(space@, lang, title@, body@),
{
    element(
        "html",
        attrs1(named("lang", lang.code())),
        nodes2(
            head(title, &space.title, false),
            element(
                "body",
                no_attrs(),
                nodes1(
                    element(
                        "main",
                        attrs1(named("class", "bare")),
                        nodes2(element("h1", no_attrs(), nodes1(text(title))), body),
                    ),
                ),
            ),
        ),
    )
}

/// The question behind the link in a mail. `mention` says which link this is:
/// a reply's (stop this topic) or a mention's (stop mails about mentions).
pub open spec fn unsubscribe_view(
    space: SpaceView,
    lang: Lang,
    id: i64,
    token: Seq<char>,
    mention: bool,
) -> NodeView {
    bare_view(
        space,
        lang,
        said(lang, "unsubscribe_title"@),
        NodeView::Many(
            seq![
                elem(
                    "p"@,
                    seq![],
                    seq![
                        txt(
                            said(
                                lang,
                                if mention {
                                    "unsubscribe_mentions_question"@
                                } else {
                                    "unsubscribe_question"@
                                },
                            ),
                        ),
                    ],
                ),
                elem(
                    "form"@,
                    seq![
                        attr("method"@, "post"@),
                        attr("action"@, "/u/"@ + decimal_text(id as int) + "/"@ + token),
                    ],
                    seq![button_view(said(lang, "unsubscribe_confirm"@))],
                ),
            ],
        ),
    )
}

/// The unsubscribe page. Deliberately plain and deliberately outside the
/// signed-in layout: whoever opens it may not be signed in, and asking them to
/// be would defeat the link. The button does what the question says, and the
/// question says what the button does.
pub fn unsubscribe_page(space: &Space, lang: Lang, id: i64, token: &str, mention: bool) -> (r: Node)
    ensures
        r@ == unsubscribe_view(space@, lang, id, token@, mention),
{
    let question = if mention {
        lang.t("unsubscribe_mentions_question")
    } else {
        lang.t("unsubscribe_question")
    };
    let action = "/u/".to_owned().concat(&decimal(id)).concat("/").concat(token);
    let body = many(
        nodes2(
            element("p", no_attrs(), nodes1(text(question))),
            element(
                "form",
                attrs2(named("method", "post"), named("action", &action)),
                nodes1(button(lang.t("unsubscribe_confirm"))),
            ),
        ),
    );
    bare_page(space, lang, lang.t("unsubscribe_title"), body)
}

/// What is said once the button was pressed.
pub open spec fn unsubscribed_view(space: SpaceView, lang: Lang, mention: bool) -> NodeView {
    bare_view(
        space,
        lang,
        said(lang, "unsubscribed_title"@),
        elem(
            "p"@,
            seq![],
            seq![
                txt(
                    said(
                        lang,
                        if mention {
                            "unsubscribed_mentions_note"@
                        } else {
                            "unsubscribed_note"@
                        },
                    ),
                ),
            ],
        ),
    )
}

pub fn unsubscribed_page(space: &Space, lang: Lang, mention: bool) -> (r: Node)
    ensures
        r@ == unsubscribed_view(space@, lang, mention),
{
    let note = if mention {
        lang.t("unsubscribed_mentions_note")
    } else {
        lang.t("unsubscribed_note")
    };
    bare_page(
        space,
        lang,
        lang.t("unsubscribed_title"),
        element("p", no_attrs(), nodes1(text(note))),
    )
}

/// A topic's date: the day alone for one that is dated by its day. An article
/// from a file has no hour, and an hour nobody chose is worse than none.
pub open spec fn opened_text(topic: Topic, moments: Seq<(i64, Option<i32>)>) -> Seq<char> {
    if topic.dated_by_day {
        shown_day(moments, topic.created_at)
    } else {
        shown_stamp(moments, topic.created_at)
    }
}

/// A timestamp as the day and the hour.
pub fn moment(unix_seconds: i64, moments: &Moments) -> (r: String)
    ensures
        r@ == shown_stamp(moments@, unix_seconds),
{
    moments.stamp(unix_seconds)
}

/// When a topic was opened: the day alone for one that is dated by its day.
pub fn opened(topic: &Topic, moments: &Moments) -> (r: String)
    ensures
        r@ == opened_text(*topic, moments@),
{
    if topic.dated_by_day {
        moments.day(topic.created_at)
    } else {
        moments.stamp(topic.created_at)
    }
}

/// One line of a space: the topic, whoever wrote in it last, and, in a
/// timeline only, the opening post whose body is shown underneath.
#[derive(Debug)]
pub struct TopicRow {
    pub topic: Topic,
    pub last: Option<LastPost>,
    pub first: Option<Post>,
    /// The likes of the opening post, for the heart under a timeline entry.
    pub likes: Option<Summary>,
    /// Replies, likes, and whether something here waits for the viewer.
    pub counts: Counts,
}

/// The name of a section for a label.
pub open spec fn section_name(space: SpaceView, slug: Seq<char>) -> Seq<char> {
    match category_named(space.categories, slug) {
        Some(category) => category.title,
        None => slug,
    }
}

/// The name of a section for a label: its configured title, or the slug when
/// the configuration no longer knows it. A topic whose section went is still
/// listed, and "archive" says more than nothing.
pub fn section_label(space: &Space, slug: &str) -> (r: String)
    ensures
        r@ == section_name(space@, slug@),
{
    match space.category(slug) {
        Some(category) => category.title.clone(),
        None => slug.to_owned(),
    }
}

pub open spec fn section_link_view(
    category: CategoryView,
    current: Option<Seq<char>>,
) -> NodeView {
    elem(
        "a"@,
        seq![
            attr("href"@, "/c/"@ + category.slug),
            maybe_view(
                "aria-current"@,
                if current == Some(category.slug) {
                    Some("page"@)
                } else {
                    None
                },
            ),
        ],
        seq![txt(category.title)],
    )
}

fn section_link(category: &Category, current: Option<&str>) -> (r: Node)
    ensures
        r@ == section_link_view(
            category@,
            match current {
                Some(current) => Some(current@),
                None => None,
            },
        ),
{
    let here = match current {
        Some(current) => same(current, &category.slug),
        None => false,
    };
    let mark: Option<&str> = if here {
        Some("page")
    } else {
        None
    };
    let href = "/c/".to_owned().concat(&category.slug);
    element(
        "a",
        attrs2(named("href", &href), maybe("aria-current", mark)),
        nodes1(text(&category.title)),
    )
}

/// The section line of a topic list: the way up, and every section with the
/// current one marked.
pub open spec fn section_nav_view(
    space: SpaceView,
    lang: Lang,
    current: Option<Seq<char>>,
) -> NodeView {
    elem(
        "nav"@,
        seq![attr("class"@, "sections"@), attr("aria-label"@, said(lang, "sections"@))],
        seq![
            elem(
                "a"@,
                seq![attr("class"@, "up"@), attr("href"@, "/"@)],
                seq![txt(said(lang, "sections"@))],
            ),
            NodeView::Many(
                Seq::new(
                    space.categories.len(),
                    |i: int| section_link_view(space.categories[i], current),
                ),
            ),
        ],
    )
}

fn section_nav(space: &Space, lang: Lang, current: Option<&str>) -> (r: Node)
    ensures
        r@ == section_nav_view(
            space@,
            lang,
            match current {
                Some(current) => Some(current@),
                None => None,
            },
        ),
{
    let ghost now = match current {
        Some(current) => Some(current@),
        None => None,
    };
    let mut links: Vec<Node> = Vec::new();
    let mut i: usize = 0;
    while i < space.categories.len()
        invariant
            i <= space.categories@.len(),
            now == (match current {
                Some(current) => Some(current@),
                None => None,
            }),
            links@.len() == i,
            forall|k: int|
                0 <= k < i ==> (#[trigger] links@[k])@ == section_link_view(
                    space@.categories[k],
                    now,
                ),
        decreases space.categories@.len() - i,
    {
        assert(space@.categories[i as int] == space.categories@[i as int]@);
        links.push(section_link(&space.categories[i], current));
        i += 1;
    }
    assert(nodes_view(links@) =~= Seq::new(
        space@.categories.len(),
        |i: int| section_link_view(space@.categories[i], now),
    ));
    element(
        "nav",
        attrs2(named("class", "sections"), named("aria-label", lang.t("sections"))),
        nodes2(
            element(
                "a",
                attrs2(named("class", "up"), named("href", "/")),
                nodes1(text(lang.t("sections"))),
            ),
            many(links),
        ),
    )
}

/// A number in a table: `0` as a dash, so the eye finds the rows where
/// something happened instead of reading zeros.
pub open spec fn tally_text(n: i64) -> Seq<char> {
    if n == 0 {
        "\u{2013}"@
    } else {
        decimal_text(n as int)
    }
}

pub fn tally(n: i64) -> (r: String)
    ensures
        r@ == tally_text(n),
{
    if n == 0 {
        "\u{2013}".to_owned()
    } else {
        decimal(n)
    }
}

/// A number under its heading. The heading is on the cell too, because a phone
/// cannot show the columns side by side; `zero` lets it leave out a number that
/// says nothing.
pub open spec fn number_cell_view(class: Seq<char>, label: Seq<char>, n: i64) -> NodeView {
    elem(
        "td"@,
        seq![
            attr(
                "class"@,
                if n == 0 {
                    class + " zero"@
                } else {
                    class
                },
            ),
            attr("data-label"@, label),
        ],
        seq![txt(tally_text(n))],
    )
}

fn number_cell(class: &str, label: &str, n: i64) -> (r: Node)
    ensures
        r@ == number_cell_view(class@, label@, n),
{
    let class = if n == 0 {
        class.to_owned().concat(" zero")
    } else {
        class.to_owned()
    };
    element(
        "td",
        attrs2(named("class", &class), named("data-label", label)),
        nodes1(text(&tally(n))),
    )
}

/// The last answer in a topic. The opening post is none: every topic has one,
/// and printing it would make every silent thread look like a conversation.
pub open spec fn answer_of(row: TopicRow) -> Option<LastPost> {
    match row.last {
        Some(last) if !last.opens_the_topic => Some(last),
        _ => None,
    }
}

pub open spec fn latest_cell_view(
    lang: Lang,
    answer: Option<LastPost>,
    moments: Seq<(i64, Option<i32>)>,
) -> NodeView {
    match answer {
        Some(last) => elem(
            "td"@,
            seq![
                attr("class"@, "latest"@),
                attr("data-label"@, said(lang, "col_last_reply"@)),
            ],
            seq![
                span_view("name"@, last.author_name@),
                span_view("when"@, shown_stamp(moments, last.created_at)),
            ],
        ),
        None => elem(
            "td"@,
            seq![attr("class"@, "latest"@)],
            seq![span_view("none"@, said(lang, "no_replies_yet"@))],
        ),
    }
}

fn latest_cell(lang: Lang, last: &Option<LastPost>, moments: &Moments) -> (r: Node)
    ensures
        r@ == latest_cell_view(
            lang,
            match *last {
                Some(last) if !last.opens_the_topic => Some(last),
                _ => None,
            },
            moments@,
        ),
{
    match last {
        Some(last) if !last.opens_the_topic => element(
            "td",
            attrs2(named("class", "latest"), named("data-label", lang.t("col_last_reply"))),
            nodes2(
                span("name", &last.author_name),
                span("when", &moment(last.created_at, moments)),
            ),
        ),
        _ => element(
            "td",
            attrs1(named("class", "latest")),
            nodes1(span("none", lang.t("no_replies_yet"))),
        ),
    }
}

pub open spec fn subject_cell_view(
    space: SpaceView,
    topic: Topic,
    with_section: bool,
    moments: Seq<(i64, Option<i32>)>,
) -> NodeView {
    elem(
        "td"@,
        seq![attr("class"@, "subject"@)],
        seq![
            elem(
                "a"@,
                seq![attr("href"@, "/t/"@ + decimal_text(topic.id as int))],
                seq![txt(topic.title@)],
            ),
            elem(
                "p"@,
                seq![attr("class"@, "byline"@)],
                seq![
                    if with_section {
                        NodeView::Many(
                            seq![
                                span_view("section"@, section_name(space, topic.category@)),
                                sep_view(),
                            ],
                        )
                    } else {
                        nothing_view()
                    },
                    span_view("name"@, topic.author_name@),
                    sep_view(),
                    txt(opened_text(topic, moments)),
                ],
            ),
        ],
    )
}

fn subject_cell(space: &Space, topic: &Topic, with_section: bool, moments: &Moments) -> (r: Node)
    ensures
        r@ == subject_cell_view(space@, *topic, with_section, moments@),
{
    let href = "/t/".to_owned().concat(&decimal(topic.id));
    let section = if with_section {
        many(nodes2(span("section", &section_label(space, &topic.category)), sep()))
    } else {
        nothing()
    };
    element(
        "td",
        attrs1(named("class", "subject")),
        nodes2(
            element("a", attrs1(named("href", &href)), nodes1(text(&topic.title))),
            element(
                "p",
                attrs1(named("class", "byline")),
                nodes4(
                    section,
                    span("name", &topic.author_name),
                    sep(),
                    text(&opened(topic, moments)),
                ),
            ),
        ),
    )
}

/// One topic in the table. `unread` is on the row, not on a cell: the mark
/// stands in front of the subject and the whole row is what it is about.
pub open spec fn thread_row_view(
    space: SpaceView,
    lang: Lang,
    row: TopicRow,
    with_section: bool,
    moments: Seq<(i64, Option<i32>)>,
) -> NodeView {
    elem(
        "tr"@,
        seq![
            maybe_view(
                "class"@,
                if row.counts.unread {
                    Some("unread"@)
                } else {
                    None
                },
            ),
        ],
        seq![
            subject_cell_view(space, row.topic, with_section, moments),
            number_cell_view("n replies"@, said(lang, "col_replies"@), row.counts.replies),
            number_cell_view("n likes"@, said(lang, "col_likes"@), row.counts.likes),
            latest_cell_view(lang, answer_of(row), moments),
        ],
    )
}

fn thread_row(space: &Space, lang: Lang, row: &TopicRow, with_section: bool, moments: &Moments) -> (r:
    Node)
    ensures
        r@ == thread_row_view(space@, lang, *row, with_section, moments@),
{
    let mark: Option<&str> = if row.counts.unread {
        Some("unread")
    } else {
        None
    };
    element(
        "tr",
        attrs1(maybe("class", mark)),
        nodes4(
            subject_cell(space, &row.topic, with_section, moments),
            number_cell("n replies", lang.t("col_replies"), row.counts.replies),
            number_cell("n likes", lang.t("col_likes"), row.counts.likes),
            latest_cell(lang, &row.last, moments),
        ),
    )
}

pub open spec fn heading_view(class: Option<Seq<char>>, label: Seq<char>) -> NodeView {
    elem(
        "th"@,
        seq![attr("scope"@, "col"@), maybe_view("class"@, class)],
        seq![txt(label)],
    )
}

fn heading(class: Option<&str>, label: &str) -> (r: Node)
    ensures
        r@ == heading_view(
            match class {
                Some(class) => Some(class@),
                None => None,
            },
            label@,
        ),
{
    element("th", attrs2(named("scope", "col"), maybe("class", class)), nodes1(text(label)))
}

/// The rows of the topic list.
pub open spec fn thread_rows_view(
    space: SpaceView,
    lang: Lang,
    rows: Seq<TopicRow>,
    with_section: bool,
    moments: Seq<(i64, Option<i32>)>,
) -> Seq<NodeView> {
    Seq::new(rows.len(), |i: int| thread_row_view(space, lang, rows[i], with_section, moments))
}

/// The topic list, as a TABLE: every row answers what happened here, opened by
/// whom, how many replies and likes, answered last by whom, each under a
/// heading that says which is which.
pub open spec fn threads_view(
    space: SpaceView,
    lang: Lang,
    rows: Seq<TopicRow>,
    with_section: bool,
    moments: Seq<(i64, Option<i32>)>,
) -> NodeView {
    elem(
        "table"@,
        seq![
            attr(
                "class"@,
                if with_section {
                    "threads recent"@
                } else {
                    "threads"@
                },
            ),
        ],
        seq![
            elem(
                "thead"@,
                seq![],
                seq![
                    elem(
                        "tr"@,
                        seq![],
                        seq![
                            heading_view(None, said(lang, "col_topic"@)),
                            heading_view(Some("n"@), said(lang, "col_replies"@)),
                            heading_view(Some("n"@), said(lang, "col_likes"@)),
                            heading_view(None, said(lang, "col_last_reply"@)),
                        ],
                    ),
                ],
            ),
            elem(
                "tbody"@,
                seq![],
                thread_rows_view(space, lang, rows, with_section, moments),
            ),
        ],
    )
}

/// The topic list, as a table. Shared by the section page and the front page's
/// recent list; the latter names the section under each subject, because its
/// rows come from all of them.
pub fn threads_table(
    space: &Space,
    lang: Lang,
    rows: &[TopicRow],
    with_section: bool,
    moments: &Moments,
) -> (r: Node)
    ensures
        r@ == threads_view(space@, lang, rows@, with_section, moments@),
{
    let mut lines: Vec<Node> = Vec::new();
    let mut i: usize = 0;
    while i < rows.len()
        invariant
            i <= rows@.len(),
            lines@.len() == i,
            forall|k: int|
                0 <= k < i ==> (#[trigger] lines@[k])@ == thread_row_view(
                    space@,
                    lang,
                    rows@[k],
                    with_section,
                    moments@,
                ),
        decreases rows@.len() - i,
    {
        lines.push(thread_row(space, lang, &rows[i], with_section, moments));
        i += 1;
    }
    assert(nodes_view(lines@) =~= thread_rows_view(space@, lang, rows@, with_section, moments@));
    let class = if with_section {
        "threads recent"
    } else {
        "threads"
    };
    element(
        "table",
        attrs1(named("class", class)),
        nodes2(
            element(
                "thead",
                no_attrs(),
                nodes1(
                    element(
                        "tr",
                        no_attrs(),
                        nodes4(
                            heading(None, lang.t("col_topic")),
                            heading(Some("n"), lang.t("col_replies")),
                            heading(Some("n"), lang.t("col_likes")),
                            heading(None, lang.t("col_last_reply")),
                        ),
                    ),
                ),
            ),
            element("tbody", no_attrs(), lines),
        ),
    )
}

/// A category and what happened in it.
#[derive(Debug)]
pub struct CategoryRow<'a> {
    pub category: &'a Category,
    pub count: CategoryCount,
}

/// When something last happened. A bare date in a list of sections is a riddle:
/// made, or read last? The word in front of it answers that.
pub open spec fn activity_view(
    lang: Lang,
    last_activity: Option<i64>,
    moments: Seq<(i64, Option<i32>)>,
) -> NodeView {
    match last_activity {
        Some(at) => NodeView::Many(
            seq![
                txt(said(lang, "last_activity"@) + " "@),
                span_view("value"@, shown_stamp(moments, at)),
            ],
        ),
        None => txt(said(lang, "no_topics_yet"@)),
    }
}

fn activity(lang: Lang, last_activity: Option<i64>, moments: &Moments) -> (r: Node)
    ensures
        r@ == activity_view(lang, last_activity, moments@),
{
    match last_activity {
        Some(at) => {
            let words = lang.t("last_activity").to_owned().concat(" ");
            many(nodes2(text(&words), span("value", &moment(at, moments))))
        },
        None => text(lang.t("no_topics_yet")),
    }
}

pub open spec fn category_row_view(
    lang: Lang,
    category: CategoryView,
    count: CategoryCount,
    moments: Seq<(i64, Option<i32>)>,
) -> NodeView {
    elem(
        "li"@,
        seq![],
        seq![
            elem(
                "a"@,
                seq![attr("class"@, "name"@), attr("href"@, "/c/"@ + category.slug)],
                seq![txt(category.title)],
            ),
            span_view(
                "count"@,
                if count.topics == 1 {
                    said(lang, "topic_one"@)
                } else {
                    decimal_text(count.topics as int) + " "@ + said(lang, "topic_many"@)
                },
            ),
            elem(
                "span"@,
                seq![attr("class"@, "byline"@)],
                seq![activity_view(lang, count.last_activity, moments)],
            ),
        ],
    )
}

fn category_row(lang: Lang, row: &CategoryRow, moments: &Moments) -> (r: Node)
    ensures
        r@ == category_row_view(lang, row.category@, row.count, moments@),
{
    let href = "/c/".to_owned().concat(&row.category.slug);
    let count = if row.count.topics == 1 {
        lang.t("topic_one").to_owned()
    } else {
        decimal(row.count.topics).concat(" ").concat(lang.t("topic_many"))
    };
    element(
        "li",
        no_attrs(),
        nodes3(
            element(
                "a",
                attrs2(named("class", "name"), named("href", &href)),
                nodes1(text(&row.category.title)),
            ),
            span("count", &count),
            element(
                "span",
                attrs1(named("class", "byline")),
                nodes1(activity(lang, row.count.last_activity, moments)),
            ),
        ),
    )
}

/// The heading over a list.
pub open spec fn section_head_view(class: Seq<char>, label: Seq<char>) -> NodeView {
    elem("h2"@, seq![attr("class"@, class)], seq![txt(label)])
}

fn section_head(class: &str, label: &str) -> (r: Node)
    ensures
        r@ == section_head_view(class@, label@),
{
    element("h2", attrs1(named("class", class)), nodes1(text(label)))
}

/// The list of categories.
pub open spec fn category_rows_view(
    lang: Lang,
    rows: Seq<CategoryRow>,
    moments: Seq<(i64, Option<i32>)>,
) -> Seq<NodeView> {
    Seq::new(
        rows.len(),
        |i: int| category_row_view(lang, rows[i].category@, rows[i].count, moments),
    )
}

/// The front page of a space with more than one category.
pub open spec fn category_index_view(
    space: SpaceView,
    who: IdentityView,
    lang: Lang,
    bell: Bell,
    rows: Seq<CategoryRow>,
    recent: Seq<TopicRow>,
    moments: Seq<(i64, Option<i32>)>,
) -> NodeView {
    layout_view(
        space,
        who,
        lang,
        bell,
        space.title,
        ""@,
        NodeView::Many(
            seq![
                section_head_view("section-head"@, said(lang, "sections"@)),
                elem(
                    "ul"@,
                    seq![attr("class"@, "categories"@)],
                    category_rows_view(lang, rows, moments),
                ),
                if recent.len() == 0 {
                    nothing_view()
                } else {
                    NodeView::Many(
                        seq![
                            section_head_view(
                                "section-head recent-head"@,
                                said(lang, "recent"@),
                            ),
                            threads_view(space, lang, recent, true, moments),
                        ],
                    )
                },
            ],
        ),
    )
}

/// The front page of a space with more than one category: what there is, and
/// what has happened lately. Every configured category is listed, including
/// the empty ones: a category that is hidden until someone writes in it is one
/// nobody ever writes in. Below it is WHERE SOMETHING IS GOING ON: a front page
/// that lists sections and nothing else sends the reader into every one of
/// them to find out that nothing happened.
pub fn category_index(
    space: &Space,
    who: &Identity,
    lang: Lang,
    bell: Bell,
    rows: &[CategoryRow],
    recent: &[TopicRow],
    moments: &Moments,
) -> (r: Node)
    ensures
        r@ == category_index_view(space@, who@, lang, bell, rows@, recent@, moments@),
{
    let mut lines: Vec<Node> = Vec::new();
    let mut i: usize = 0;
    while i < rows.len()
        invariant
            i <= rows@.len(),
            lines@.len() == i,
            forall|k: int|
                0 <= k < i ==> (#[trigger] lines@[k])@ == category_row_view(
                    lang,
                    rows@[k].category@,
                    rows@[k].count,
                    moments@,
                ),
        decreases rows@.len() - i,
    {
        lines.push(category_row(lang, &rows[i], moments));
        i += 1;
    }
    assert(nodes_view(lines@) =~= category_rows_view(lang, rows@, moments@));
    let lately = if recent.len() == 0 {
        nothing()
    } else {
        many(
            nodes2(
                section_head("section-head recent-head", lang.t("recent")),
                threads_table(space, lang, recent, true, moments),
            ),
        )
    };
    let body = many(
        nodes3(
            section_head("section-head", lang.t("sections")),
            element("ul", attrs1(named("class", "categories")), lines),
            lately,
        ),
    );
    layout(space, who, lang, bell, &space.title, body)
}

/// What a search found.
pub open spec fn hit_view(hit: HitView, moments: Seq<(i64, Option<i32>)>) -> NodeView {
    elem(
        "li"@,
        seq![attr("class"@, "hit"@)],
        seq![
            elem(
                "a"@,
                seq![attr("href"@, "/t/"@ + decimal_text(hit.topic_id as int))],
                seq![txt(hit.title)],
            ),
            elem(
                "span"@,
                seq![attr("class"@, "byline"@)],
                seq![
                    span_view("name"@, hit.category),
                    sep_view(),
                    txt(shown_stamp(moments, hit.updated_at)),
                ],
            ),
            elem("p"@, seq![attr("class"@, "snippet"@)], seq![txt(hit.snippet)]),
        ],
    )
}

fn hit_line(hit: &Hit, moments: &Moments) -> (r: Node)
    ensures
        r@ == hit_view(hit@, moments@),
{
    let href = "/t/".to_owned().concat(&decimal(hit.topic_id));
    element(
        "li",
        attrs1(named("class", "hit")),
        nodes3(
            element("a", attrs1(named("href", &href)), nodes1(text(&hit.title))),
            element(
                "span",
                attrs1(named("class", "byline")),
                nodes3(
                    span("name", &hit.category),
                    sep(),
                    text(&moment(hit.updated_at, moments)),
                ),
            ),
            element("p", attrs1(named("class", "snippet")), nodes1(text(&hit.snippet))),
        ),
    )
}

/// A line that says that there is nothing.
pub open spec fn empty_view(label: Seq<char>) -> NodeView {
    elem("p"@, seq![attr("class"@, "empty"@)], seq![txt(label)])
}

fn empty(label: &str) -> (r: Node)
    ensures
        r@ == empty_view(label@),
{
    element("p", attrs1(named("class", "empty")), nodes1(text(label)))
}

/// Everything a search found.
pub open spec fn hit_lines_view(
    hits: Seq<HitView>,
    moments: Seq<(i64, Option<i32>)>,
) -> Seq<NodeView> {
    Seq::new(hits.len(), |i: int| hit_view(hits[i], moments))
}

pub open spec fn search_view(
    space: SpaceView,
    who: IdentityView,
    lang: Lang,
    bell: Bell,
    find: Seq<char>,
    hits: Seq<HitView>,
    moments: Seq<(i64, Option<i32>)>,
) -> NodeView {
    layout_view(
        space,
        who,
        lang,
        bell,
        said(lang, "search_results"@),
        find,
        NodeView::Many(
            seq![
                section_head_view("section-head"@, said(lang, "search_results"@)),
                if trimmed(find).len() == 0 {
                    empty_view(said(lang, "search_prompt"@))
                } else if hits.len() == 0 {
                    empty_view(said(lang, "search_nothing"@))
                } else {
                    elem(
                        "ul"@,
                        seq![attr("class"@, "topics"@)],
                        hit_lines_view(hits, moments),
                    )
                },
            ],
        ),
    )
}

/// What a search found. The snippet arrives with `[` and `]` around the match:
/// plain characters, so it is escaped like every other piece of somebody
/// else's text.
pub fn search_page(
    space: &Space,
    who: &Identity,
    lang: Lang,
    bell: Bell,
    find: &str,
    hits: &[Hit],
    moments: &Moments,
) -> (r: Node)
    ensures
        r@ == search_view(space@, who@, lang, bell, find@, hits_view(hits@), moments@),
{
    let ghost seen = hits_view(hits@);
    let found = if trim(find).as_str().is_empty() {
        empty(lang.t("search_prompt"))
    } else if hits.len() == 0 {
        empty(lang.t("search_nothing"))
    } else {
        let mut lines: Vec<Node> = Vec::new();
        let mut i: usize = 0;
        while i < hits.len()
            invariant
                i <= hits@.len(),
                seen == hits_view(hits@),
                lines@.len() == i,
                forall|k: int| 0 <= k < i ==> (#[trigger] lines@[k])@ == hit_view(seen[k], moments@),
            decreases hits@.len() - i,
        {
            assert(seen[i as int] == hits@[i as int]@);
            lines.push(hit_line(&hits[i], moments));
            i += 1;
        }
        assert(nodes_view(lines@) =~= hit_lines_view(seen, moments@));
        element("ul", attrs1(named("class", "topics")), lines)
    };
    let body = many(nodes2(section_head("section-head", lang.t("search_results")), found));
    layout_with_search(space, who, lang, bell, lang.t("search_results"), find, body)
}

/// What the heart says to somebody who cannot see it.
pub open spec fn like_words(lang: Lang, liked: bool, count: i64) -> Seq<char> {
    let action = said(
        lang,
        if liked {
            "unlike"@
        } else {
            "like"@
        },
    );
    if count == 0 {
        action
    } else if count == 1 {
        action + ", "@ + said(lang, "likes_one"@)
    } else {
        action + ", "@ + decimal_text(count as int) + " "@ + said(lang, "likes_many"@)
    }
}

/// What the heart says to somebody who cannot see it: the action of the next
/// click, and the number: "Like", "Unlike, 1 like", "Like, 3 likes".
pub fn like_label(lang: Lang, liked: bool, count: i64) -> (r: String)
    ensures
        r@ == like_words(lang, liked, count),
{
    let action = if liked {
        lang.t("unlike").to_owned()
    } else {
        lang.t("like").to_owned()
    };
    if count == 0 {
        action
    } else if count == 1 {
        action.concat(", ").concat(lang.t("likes_one"))
    } else {
        action.concat(", ").concat(&decimal(count)).concat(" ").concat(lang.t("likes_many"))
    }
}

/// The names with a comma between them.
pub open spec fn names_line(names: Seq<Seq<char>>) -> Seq<char>
    decreases names.len(),
{
    if names.len() == 0 {
        Seq::empty()
    } else if names.len() == 1 {
        names[0]
    } else {
        names_line(names.drop_last()) + ", "@ + names.last()
    }
}

fn join_names(names: &[String]) -> (r: String)
    ensures
        r@ == names_line(texts(names@)),
{
    let ghost all = texts(names@);
    let mut out = String::new();
    let mut i: usize = 0;
    while i < names.len()
        invariant
            i <= names@.len(),
            all == texts(names@),
            out@ == names_line(all.take(i as int)),
        decreases names@.len() - i,
    {
        assert(all.take(i + 1).drop_last() == all.take(i as int));
        assert(all.take(i + 1).last() == names@[i as int]@);
        if i == 0 {
            assert(all.take(1)[0] == names@[0]@);
            assert(out@ + names@[0]@ =~= names@[0]@);
            out = out.concat(&names[i]);
        } else {
            out = out.concat(", ").concat(&names[i]);
        }
        i += 1;
    }
    assert(all.take(i as int) == all);
    out
}

/// Nobody likes it.
pub open spec fn no_likes() -> SummaryView {
    SummaryView { count: 0, liked: false, names: Seq::empty() }
}

/// Who likes a post, where nothing says that nobody does.
pub open spec fn likes_or_none(summary: Option<SummaryView>) -> SummaryView {
    match summary {
        Some(summary) => summary,
        None => no_likes(),
    }
}

pub open spec fn number_view(count: int) -> NodeView {
    span_view("count"@, decimal_text(count))
}

/// The heart under a post.
pub open spec fn like_view(
    lang: Lang,
    post_id: i64,
    own: bool,
    summary: Option<SummaryView>,
) -> NodeView {
    let known = likes_or_none(summary);
    let names = names_line(known.names);
    let who = maybe_view(
        "title"@,
        if names.len() == 0 {
            None
        } else {
            Some(names)
        },
    );
    if own {
        if known.count > 0 {
            elem(
                "span"@,
                seq![attr("class"@, "like own"@), who],
                seq![NodeView::Icon(Icon::Heart), number_view(known.count)],
            )
        } else {
            nothing_view()
        }
    } else {
        elem(
            "form"@,
            seq![
                attr("class"@, "like"@),
                attr("method"@, "post"@),
                attr("action"@, "/p/"@ + decimal_text(post_id as int) + "/like"@),
            ],
            seq![
                elem(
                    "button"@,
                    seq![
                        attr("type"@, "submit"@),
                        attr(
                            "aria-pressed"@,
                            if known.liked {
                                "true"@
                            } else {
                                "false"@
                            },
                        ),
                        who,
                        attr("aria-label"@, like_words(lang, known.liked, known.count as i64)),
                        attr("data-t-like"@, said(lang, "like"@)),
                        attr("data-t-unlike"@, said(lang, "unlike"@)),
                        attr("data-t-likes-one"@, said(lang, "likes_one"@)),
                        attr("data-t-likes-many"@, said(lang, "likes_many"@)),
                    ],
                    seq![
                        NodeView::Icon(Icon::Heart),
                        if known.count > 0 {
                            number_view(known.count)
                        } else {
                            nothing_view()
                        },
                    ],
                ),
            ],
        )
    }
}

/// The like control under a post: a form with the heart and the number for
/// everybody else's post; on your own, the heart and the number without a
/// button, and nothing at all while the number is zero.
///
/// The names go in the title, newest first, so the number can be asked "who?"
/// without another page. The label REPLACES the button's content for a screen
/// reader, so the number has to be in it.
pub fn like_control(lang: Lang, post_id: i64, own: bool, summary: Option<&Summary>) -> (r: Node)
    ensures
        r@ == like_view(
            lang,
            post_id,
            own,
            match summary {
                Some(summary) => Some(summary@),
                None => None,
            },
        ),
{
    let mut count: i64 = 0;
    let mut liked = false;
    let mut names = String::new();
    let ghost known = likes_or_none(
        match summary {
            Some(summary) => Some(summary@),
            None => None,
        },
    );
    match summary {
        Some(summary) => {
            count = summary.count;
            liked = summary.liked;
            names = join_names(&summary.names);
        },
        None => {
            assert(names@ =~= names_line(Seq::<Seq<char>>::empty()));
        },
    }
    assert(names@ == names_line(known.names));
    assert(count == known.count && liked == known.liked);
    let who: Option<&str> = if names.as_str().is_empty() {
        None
    } else {
        Some(names.as_str())
    };
    if own {
        return if count > 0 {
            element(
                "span",
                attrs2(named("class", "like own"), maybe("title", who)),
                nodes2(icon(Icon::Heart), span("count", &decimal(count))),
            )
        } else {
            nothing()
        };
    }
    let label = like_label(lang, liked, count);
    let pressed = if liked {
        "true"
    } else {
        "false"
    };
    let attrs: Vec<Attr> = vec![
        named("type", "submit"),
        named("aria-pressed", pressed),
        maybe("title", who),
        named("aria-label", &label),
        named("data-t-like", lang.t("like")),
        named("data-t-unlike", lang.t("unlike")),
        named("data-t-likes-one", lang.t("likes_one")),
        named("data-t-likes-many", lang.t("likes_many")),
    ];
    assert(attrs_view(attrs@) =~= seq![
        attr("type"@, "submit"@),
        attr(
            "aria-pressed"@,
            if liked {
                "true"@
            } else {
                "false"@
            },
        ),
        maybe_view(
            "title"@,
            if names@.len() == 0 {
                None
            } else {
                Some(names@)
            },
        ),
        attr("aria-label"@, like_words(lang, liked, count)),
        attr("data-t-like"@, said(lang, "like"@)),
        attr("data-t-unlike"@, said(lang, "unlike"@)),
        attr("data-t-likes-one"@, said(lang, "likes_one"@)),
        attr("data-t-likes-many"@, said(lang, "likes_many"@)),
    ]);
    let number = if count > 0 {
        span("count", &decimal(count))
    } else {
        nothing()
    };
    let action = "/p/".to_owned().concat(&decimal(post_id)).concat("/like");
    element(
        "form",
        attrs3(named("class", "like"), named("method", "post"), named("action", &action)),
        nodes1(element("button", attrs, nodes2(icon(Icon::Heart), number))),
    )
}

/// The question asked before a post goes.
pub open spec fn delete_question_view(
    space: SpaceView,
    who: IdentityView,
    lang: Lang,
    bell: Bell,
    asked: Post,
    moments: Seq<(i64, Option<i32>)>,
) -> NodeView {
    layout_view(
        space,
        who,
        lang,
        bell,
        said(lang, "delete_title"@),
        ""@,
        NodeView::Many(
            seq![
                elem("h1"@, seq![], seq![txt(said(lang, "delete_title"@))]),
                elem(
                    "p"@,
                    seq![attr("class"@, "warn"@)],
                    seq![txt(said(lang, "delete_question"@))],
                ),
                elem(
                    "article"@,
                    seq![attr("class"@, "post"@)],
                    seq![
                        elem(
                            "p"@,
                            seq![attr("class"@, "byline"@)],
                            seq![
                                span_view("name"@, asked.author_name@),
                                sep_view(),
                                txt(shown_stamp(moments, asked.created_at)),
                            ],
                        ),
                        body_view(asked.body_markdown@, seq![]),
                    ],
                ),
                elem(
                    "div"@,
                    seq![attr("class"@, "decide"@)],
                    seq![
                        elem(
                            "form"@,
                            seq![
                                attr("method"@, "post"@),
                                attr(
                                    "action"@,
                                    "/p/"@ + decimal_text(asked.id as int) + "/delete"@,
                                ),
                            ],
                            seq![
                                elem(
                                    "button"@,
                                    seq![attr("type"@, "submit"@), attr("class"@, "danger"@)],
                                    seq![txt(said(lang, "delete"@))],
                                ),
                            ],
                        ),
                        elem(
                            "a"@,
                            seq![
                                attr("class"@, "back"@),
                                attr("href"@, "/t/"@ + decimal_text(asked.topic_id as int)),
                            ],
                            seq![txt(said(lang, "cancel"@))],
                        ),
                    ],
                ),
            ],
        ),
    )
}

/// The words of a post.
pub open spec fn body_view(markdown: Seq<char>, highlighted: Seq<Seq<char>>) -> NodeView {
    elem("div"@, seq![attr("class"@, "body"@)], seq![NodeView::Post(markdown, highlighted)])
}

fn post_body(markdown: &str, highlighted: &[String]) -> (r: Node)
    ensures
        r@ == body_view(markdown@, texts(highlighted@)),
{
    element("div", attrs1(named("class", "body")), nodes1(post(markdown, highlighted)))
}

fn plain_body(markdown: &str) -> (r: Node)
    ensures
        r@ == body_view(markdown@, seq![]),
{
    let nobody: Vec<String> = Vec::new();
    assert(texts(nobody@) =~= seq![]);
    post_body(markdown, &nobody)
}

/// The question asked before a post goes, and the only place the button that
/// removes it lives.
///
/// It shows the post itself: "delete this?" about something the reader cannot
/// see is a question nobody can answer. The way back is a link to the topic,
/// so that leaving is as easy as arriving.
pub fn delete_question_page(
    space: &Space,
    who: &Identity,
    lang: Lang,
    bell: Bell,
    asked: &Post,
    moments: &Moments,
) -> (r: Node)
    ensures
        r@ == delete_question_view(space@, who@, lang, bell, *asked, moments@),
{
    let action = "/p/".to_owned().concat(&decimal(asked.id)).concat("/delete");
    let back = "/t/".to_owned().concat(&decimal(asked.topic_id));
    let body = many(
        nodes4(
            element("h1", no_attrs(), nodes1(text(lang.t("delete_title")))),
            element("p", attrs1(named("class", "warn")), nodes1(text(lang.t("delete_question")))),
            element(
                "article",
                attrs1(named("class", "post")),
                nodes2(
                    element(
                        "p",
                        attrs1(named("class", "byline")),
                        nodes3(
                            span("name", &asked.author_name),
                            sep(),
                            text(&moment(asked.created_at, moments)),
                        ),
                    ),
                    plain_body(&asked.body_markdown),
                ),
            ),
            element(
                "div",
                attrs1(named("class", "decide")),
                nodes2(
                    element(
                        "form",
                        attrs2(named("method", "post"), named("action", &action)),
                        nodes1(
                            element(
                                "button",
                                attrs2(named("type", "submit"), named("class", "danger")),
                                nodes1(text(lang.t("delete"))),
                            ),
                        ),
                    ),
                    element(
                        "a",
                        attrs2(named("class", "back"), named("href", &back)),
                        nodes1(text(lang.t("cancel"))),
                    ),
                ),
            ),
        ),
    );
    layout(space, who, lang, bell, lang.t("delete_title"), body)
}

/// How many comments there are under an entry.
pub open spec fn comments_text(lang: Lang, replies: i64) -> Seq<char> {
    if replies == 0 {
        said(lang, "no_comments_yet"@)
    } else if replies == 1 {
        said(lang, "comment_count_one"@)
    } else {
        decimal_text(replies as int) + " "@ + said(lang, "comment_count_many"@)
    }
}

fn comments(lang: Lang, replies: i64) -> (r: String)
    ensures
        r@ == comments_text(lang, replies),
{
    if replies == 0 {
        lang.t("no_comments_yet").to_owned()
    } else if replies == 1 {
        lang.t("comment_count_one").to_owned()
    } else {
        decimal(replies).concat(" ").concat(lang.t("comment_count_many"))
    }
}

/// What is known of the likes.
pub open spec fn likes_seen(likes: Option<Summary>) -> Option<SummaryView> {
    match likes {
        Some(likes) => Some(likes@),
        None => None,
    }
}

/// An entry's text, and under it the heart and how many people wrote there:
/// the way to them, on an entry that shows the text but not the comments.
pub open spec fn entry_body_view(who: IdentityView, lang: Lang, row: TopicRow) -> NodeView {
    match row.first {
        Some(first) => NodeView::Many(
            seq![
                body_view(first.body_markdown@, seq![]),
                elem(
                    "div"@,
                    seq![attr("class"@, "foot"@)],
                    seq![
                        like_view(
                            lang,
                            first.id,
                            first.author_subject@ == who.subject,
                            likes_seen(row.likes),
                        ),
                        elem(
                            "a"@,
                            seq![
                                attr("class"@, "comments"@),
                                attr("href"@, "/t/"@ + decimal_text(row.topic.id as int)),
                            ],
                            seq![txt(comments_text(lang, row.counts.replies))],
                        ),
                    ],
                ),
            ],
        ),
        None => nothing_view(),
    }
}

fn entry_body(who: &Identity, lang: Lang, row: &TopicRow) -> (r: Node)
    ensures
        r@ == entry_body_view(who@, lang, *row),
{
    match &row.first {
        Some(first) => {
            let own = same(&first.author_subject, &who.subject);
            let likes: Option<&Summary> = match &row.likes {
                Some(likes) => Some(likes),
                None => None,
            };
            let href = "/t/".to_owned().concat(&decimal(row.topic.id));
            many(
                nodes2(
                    plain_body(&first.body_markdown),
                    element(
                        "div",
                        attrs1(named("class", "foot")),
                        nodes2(
                            like_control(lang, first.id, own, likes),
                            element(
                                "a",
                                attrs2(named("class", "comments"), named("href", &href)),
                                nodes1(text(&comments(lang, row.counts.replies))),
                            ),
                        ),
                    ),
                ),
            )
        },
        None => nothing(),
    }
}

/// An entry of a timeline. The date is there because it is the ORDER of this
/// page.
pub open spec fn timeline_entry_view(
    who: IdentityView,
    lang: Lang,
    row: TopicRow,
    moments: Seq<(i64, Option<i32>)>,
) -> NodeView {
    elem(
        "article"@,
        seq![attr("class"@, "entry"@)],
        seq![
            elem(
                "h2"@,
                seq![],
                seq![
                    elem(
                        "a"@,
                        seq![attr("href"@, "/t/"@ + decimal_text(row.topic.id as int))],
                        seq![txt(row.topic.title@)],
                    ),
                ],
            ),
            elem(
                "p"@,
                seq![attr("class"@, "byline"@)],
                seq![
                    span_view("name"@, row.topic.author_name@),
                    sep_view(),
                    txt(opened_text(row.topic, moments)),
                ],
            ),
            entry_body_view(who, lang, row),
        ],
    )
}

fn timeline_entry(who: &Identity, lang: Lang, row: &TopicRow, moments: &Moments) -> (r: Node)
    ensures
        r@ == timeline_entry_view(who@, lang, *row, moments@),
{
    let href = "/t/".to_owned().concat(&decimal(row.topic.id));
    element(
        "article",
        attrs1(named("class", "entry")),
        nodes3(
            element(
                "h2",
                no_attrs(),
                nodes1(
                    element("a", attrs1(named("href", &href)), nodes1(text(&row.topic.title))),
                ),
            ),
            element(
                "p",
                attrs1(named("class", "byline")),
                nodes3(
                    span("name", &row.topic.author_name),
                    sep(),
                    text(&opened(&row.topic, moments)),
                ),
            ),
            entry_body(who, lang, row),
        ),
    )
}

/// The form that opens a topic, behind a fold: a list is read far more often
/// than it is written to.
pub open spec fn new_topic_view(lang: Lang, slug: Seq<char>) -> NodeView {
    elem(
        "details"@,
        seq![attr("class"@, "write"@)],
        seq![
            elem("summary"@, seq![], seq![txt(said(lang, "new_topic"@))]),
            elem(
                "form"@,
                seq![attr("method"@, "post"@), attr("action"@, "/c/"@ + slug + "/new"@)],
                seq![
                    elem(
                        "label"@,
                        seq![],
                        seq![
                            txt(said(lang, "field_title"@)),
                            NodeView::Void(
                                "input"@,
                                seq![
                                    attr("type"@, "text"@),
                                    attr("name"@, "title"@),
                                    attr("maxlength"@, "200"@),
                                    AttrView::Bare("required"@),
                                ],
                            ),
                        ],
                    ),
                    elem(
                        "label"@,
                        seq![],
                        seq![
                            txt(said(lang, "field_text"@)),
                            elem(
                                "textarea"@,
                                seq![
                                    attr("name"@, "body"@),
                                    attr("rows"@, "6"@),
                                    AttrView::Bare("required"@),
                                ],
                                seq![],
                            ),
                        ],
                    ),
                    button_view(said(lang, "open_topic"@)),
                ],
            ),
        ],
    )
}

fn new_topic(lang: Lang, slug: &str) -> (r: Node)
    ensures
        r@ == new_topic_view(lang, slug@),
{
    let action = "/c/".to_owned().concat(slug).concat("/new");
    element(
        "details",
        attrs1(named("class", "write")),
        nodes2(
            element("summary", no_attrs(), nodes1(text(lang.t("new_topic")))),
            element(
                "form",
                attrs2(named("method", "post"), named("action", &action)),
                nodes3(
                    element(
                        "label",
                        no_attrs(),
                        nodes2(
                            text(lang.t("field_title")),
                            void(
                                "input",
                                attrs4(
                                    named("type", "text"),
                                    named("name", "title"),
                                    named("maxlength", "200"),
                                    bare("required"),
                                ),
                            ),
                        ),
                    ),
                    element(
                        "label",
                        no_attrs(),
                        nodes2(
                            text(lang.t("field_text")),
                            element(
                                "textarea",
                                attrs3(
                                    named("name", "body"),
                                    named("rows", "6"),
                                    bare("required"),
                                ),
                                no_nodes(),
                            ),
                        ),
                    ),
                    button(lang.t("open_topic")),
                ),
            ),
        ),
    )
}

/// A space, the way it is configured.
pub open spec fn space_view(
    space: SpaceView,
    who: IdentityView,
    lang: Lang,
    bell: Bell,
    category: Option<CategoryView>,
    topics: Seq<TopicRow>,
    moments: Seq<(i64, Option<i32>)>,
) -> NodeView {
    layout_view(
        space,
        who,
        lang,
        bell,
        space.title,
        ""@,
        NodeView::Many(
            seq![
                if topics.len() == 0 {
                    empty_view(said(lang, "nothing_here"@))
                } else {
                    nothing_view()
                },
                topics_view(space, who, lang, category, topics, moments),
                form_view(who, lang, category),
            ],
        ),
    )
}

/// The name of a category in an address.
pub open spec fn slug_of(category: Option<CategoryView>) -> Option<Seq<char>> {
    match category {
        Some(category) => Some(category.slug),
        None => None,
    }
}

/// The form that opens a topic, for whoever may open one.
pub open spec fn form_view(who: IdentityView, lang: Lang, category: Option<CategoryView>) -> NodeView {
    match category {
        Some(category) => if posts(who, category) {
            new_topic_view(lang, category.slug)
        } else {
            nothing_view()
        },
        None => nothing_view(),
    }
}

/// The entries of a timeline.
pub open spec fn timeline_view(
    who: IdentityView,
    lang: Lang,
    topics: Seq<TopicRow>,
    moments: Seq<(i64, Option<i32>)>,
) -> Seq<NodeView> {
    Seq::new(topics.len(), |i: int| timeline_entry_view(who, lang, topics[i], moments))
}

/// The topics of a space: a timeline shows the posts themselves, a topic list
/// shows titles.
pub open spec fn topics_view(
    space: SpaceView,
    who: IdentityView,
    lang: Lang,
    category: Option<CategoryView>,
    topics: Seq<TopicRow>,
    moments: Seq<(i64, Option<i32>)>,
) -> NodeView {
    match space.view {
        View::Timeline => NodeView::Many(timeline_view(who, lang, topics, moments)),
        View::Topics => NodeView::Many(
            seq![
                section_nav_view(
                    space,
                    lang,
                    slug_of(category),
                ),
                threads_view(space, lang, topics, false, moments),
            ],
        ),
    }
}

fn topics_shown(
    space: &Space,
    who: &Identity,
    lang: Lang,
    category: Option<&Category>,
    topics: &[TopicRow],
    moments: &Moments,
) -> (r: Node)
    ensures
        r@ == topics_view(
            space@,
            who@,
            lang,
            match category {
                Some(category) => Some(category@),
                None => None,
            },
            topics@,
            moments@,
        ),
{
    match space.view {
        View::Timeline => {
            let mut entries: Vec<Node> = Vec::new();
            let mut i: usize = 0;
            while i < topics.len()
                invariant
                    i <= topics@.len(),
                    entries@.len() == i,
                    forall|k: int|
                        0 <= k < i ==> (#[trigger] entries@[k])@ == timeline_entry_view(
                            who@,
                            lang,
                            topics@[k],
                            moments@,
                        ),
                decreases topics@.len() - i,
            {
                entries.push(timeline_entry(who, lang, &topics[i], moments));
                i += 1;
            }
            assert(nodes_view(entries@) =~= timeline_view(who@, lang, topics@, moments@));
            many(entries)
        },
        View::Topics => {
            let current: Option<&str> = match category {
                Some(category) => Some(category.slug.as_str()),
                None => None,
            };
            many(
                nodes2(
                    section_nav(space, lang, current),
                    threads_table(space, lang, topics, false, moments),
                ),
            )
        },
    }
}

/// A space, rendered the way it is configured: a timeline shows the posts
/// themselves, a topic list shows titles. Same data, one line of configuration
/// apart. Display follows the right: someone who may not open a topic is not
/// shown a button that leads to a refusal.
pub fn space_page(
    space: &Space,
    who: &Identity,
    lang: Lang,
    bell: Bell,
    category: Option<&Category>,
    topics: &[TopicRow],
    moments: &Moments,
) -> (r: Node)
    ensures
        r@ == space_view(
            space@,
            who@,
            lang,
            bell,
            match category {
                Some(category) => Some(category@),
                None => None,
            },
            topics@,
            moments@,
        ),
{
    let hint = if topics.len() == 0 {
        empty(lang.t("nothing_here"))
    } else {
        nothing()
    };
    let form = match category {
        Some(category) => if may_post(who, category) {
            new_topic(lang, &category.slug)
        } else {
            nothing()
        },
        None => nothing(),
    };
    let shown = topics_shown(space, who, lang, category, topics, moments);
    layout(space, who, lang, bell, &space.title, many(nodes3(hint, shown, form)))
}

/// What a topic page shows, as opposed to who is looking at it.
#[derive(Debug, Clone, Copy)]
pub struct TopicView<'a> {
    pub category: Option<&'a Category>,
    pub topic: &'a Topic,
    pub posts: &'a [Post],
    pub following: bool,
    /// The handles that are marked up as mentions (`mentions::highlighted`).
    pub highlighted: &'a [String],
    /// Author subject and handle, shown next to the name so it can be copied:
    /// completing `@` needs a script, and a page must work without it.
    pub handles: &'a [(String, String)],
    /// Who likes a post, by its id, for the heart under each post.
    pub likes: &'a HashMap<i64, Summary>,
}

/// The handle of this person.
pub open spec fn handle_known(handles: Seq<(String, String)>, subject: Seq<char>) -> Option<Seq<char>>
    decreases handles.len(),
{
    if handles.len() == 0 {
        None
    } else if handles[0].0@ == subject {
        Some(handles[0].1@)
    } else {
        handle_known(handles.skip(1), subject)
    }
}

fn find_handle<'a>(handles: &'a [(String, String)], subject: &str) -> (r: Option<&'a String>)
    ensures
        match r {
            Some(handle) => handle_known(handles@, subject@) == Some(handle@),
            None => handle_known(handles@, subject@) is None,
        },
{
    let mut i: usize = 0;
    assert(handles@.skip(0) == handles@);
    while i < handles.len()
        invariant
            i <= handles@.len(),
            handle_known(handles@, subject@) == handle_known(handles@.skip(i as int), subject@),
        decreases handles@.len() - i,
    {
        assert(handles@.skip(i as int)[0] == handles@[i as int]);
        assert(handles@.skip(i as int).skip(1) == handles@.skip(i + 1));
        if same(&handles[i].0, subject) {
            return Some(&handles[i].1);
        }
        i += 1;
    }
    assert(handles@.skip(i as int).len() == 0);
    None
}

/// Who likes this post.
pub open spec fn likes_known(likes: Map<i64, Summary>, post_id: i64) -> Option<SummaryView> {
    if likes.contains_key(post_id) {
        Some(likes[post_id]@)
    } else {
        None
    }
}

fn find_likes<'a>(likes: &'a HashMap<i64, Summary>, post_id: i64) -> (r: Option<&'a Summary>)
    ensures
        match r {
            Some(summary) => likes_known(likes@, post_id) == Some(summary@),
            None => likes_known(likes@, post_id) is None,
        },
{
    broadcast use vstd::std_specs::hash::group_hash_axioms;

    likes.get(&post_id)
}

/// How many replies there are. The opening post is none.
pub open spec fn replies_text(lang: Lang, posts: int) -> Seq<char> {
    let replies = if posts <= 1 {
        0
    } else {
        posts - 1
    };
    if replies == 0 {
        said(lang, "no_replies_yet"@)
    } else if replies == 1 {
        said(lang, "reply_count_one"@)
    } else {
        decimal_text(replies) + " "@ + said(lang, "reply_count_many"@)
    }
}

pub fn replies_label(lang: Lang, posts: usize) -> (r: String)
    ensures
        r@ == replies_text(lang, posts as int),
{
    let replies: usize = if posts <= 1 {
        0
    } else {
        posts - 1
    };
    if replies == 0 {
        lang.t("no_replies_yet").to_owned()
    } else if replies == 1 {
        lang.t("reply_count_one").to_owned()
    } else {
        decimal_count(replies).concat(" ").concat(lang.t("reply_count_many"))
    }
}

/// The way back to the section, labelled with the place it leads to.
pub open spec fn back_view(category: Option<CategoryView>) -> NodeView {
    match category {
        Some(category) => NodeView::Many(
            seq![
                elem(
                    "a"@,
                    seq![attr("class"@, "up"@), attr("href"@, "/c/"@ + category.slug)],
                    seq![txt(category.title)],
                ),
                sep_view(),
            ],
        ),
        None => nothing_view(),
    }
}

fn back(category: Option<&Category>) -> (r: Node)
    ensures
        r@ == back_view(category_seen(category)),
{
    match category {
        Some(category) => {
            let href = "/c/".to_owned().concat(&category.slug);
            many(
                nodes2(
                    element(
                        "a",
                        attrs2(named("class", "up"), named("href", &href)),
                        nodes1(text(&category.title)),
                    ),
                    sep(),
                ),
            )
        },
        None => nothing(),
    }
}

pub open spec fn category_seen(category: Option<&Category>) -> Option<CategoryView> {
    match category {
        Some(category) => Some(category@),
        None => None,
    }
}

/// Following is a FORM and not a link: it changes something, and a link is
/// followed by whatever fetches previews.
pub open spec fn follow_view(lang: Lang, topic_id: i64, following: bool) -> NodeView {
    elem(
        "form"@,
        seq![
            attr("class"@, "follow"@),
            attr("method"@, "post"@),
            attr(
                "action"@,
                "/t/"@ + decimal_text(topic_id as int) + if following {
                    "/unfollow"@
                } else {
                    "/follow"@
                },
            ),
        ],
        seq![
            elem(
                "button"@,
                seq![
                    attr("type"@, "submit"@),
                    maybe_view(
                        "title"@,
                        if following {
                            Some(said(lang, "following_note"@))
                        } else {
                            None
                        },
                    ),
                ],
                seq![
                    txt(
                        said(
                            lang,
                            if following {
                                "unfollow"@
                            } else {
                                "follow"@
                            },
                        ),
                    ),
                ],
            ),
        ],
    )
}

fn follow_form(lang: Lang, topic_id: i64, following: bool) -> (r: Node)
    ensures
        r@ == follow_view(lang, topic_id, following),
{
    let place = "/t/".to_owned().concat(&decimal(topic_id));
    let action = if following {
        place.concat("/unfollow")
    } else {
        place.concat("/follow")
    };
    let note: Option<&str> = if following {
        Some(lang.t("following_note"))
    } else {
        None
    };
    let label = if following {
        lang.t("unfollow")
    } else {
        lang.t("follow")
    };
    element(
        "form",
        attrs3(named("class", "follow"), named("method", "post"), named("action", &action)),
        nodes1(
            element(
                "button",
                attrs2(named("type", "submit"), maybe("title", note)),
                nodes1(text(label)),
            ),
        ),
    )
}

/// THE META LINE: where this is, how long it is, and whether you are following
/// it, one quiet line under the title.
pub open spec fn meta_view(
    lang: Lang,
    category: Option<CategoryView>,
    topic_id: i64,
    posts: int,
    following: bool,
) -> NodeView {
    elem(
        "div"@,
        seq![attr("class"@, "meta"@)],
        seq![
            back_view(category),
            span_view("replies"@, replies_text(lang, posts)),
            sep_view(),
            follow_view(lang, topic_id, following),
        ],
    )
}

fn meta(
    lang: Lang,
    category: Option<&Category>,
    topic_id: i64,
    posts: usize,
    following: bool,
) -> (r: Node)
    ensures
        r@ == meta_view(lang, category_seen(category), topic_id, posts as int, following),
{
    element(
        "div",
        attrs1(named("class", "meta")),
        nodes4(
            back(category),
            span("replies", &replies_label(lang, posts)),
            sep(),
            follow_form(lang, topic_id, following),
        ),
    )
}

pub open spec fn handle_view(handle: Option<Seq<char>>) -> NodeView {
    match handle {
        Some(handle) => NodeView::Many(
            seq![txt(" "@), span_view("handle"@, "@"@ + handle)],
        ),
        None => nothing_view(),
    }
}

/// The line over a post: who, when, whether it was edited, and its number with
/// a link to its own anchor, so a post can be pointed at. The opening post of
/// an article IS the article, dated by its day; the comments under it were
/// written at a moment and keep their hour.
pub open spec fn byline_view(
    lang: Lang,
    written: Post,
    index: int,
    by_day: bool,
    handle: Option<Seq<char>>,
    moments: Seq<(i64, Option<i32>)>,
) -> NodeView {
    elem(
        "p"@,
        seq![attr("class"@, "byline"@)],
        seq![
            span_view("name"@, written.author_name@),
            handle_view(handle),
            sep_view(),
            txt(
                if index == 0 && by_day {
                    shown_day(moments, written.created_at)
                } else {
                    shown_stamp(moments, written.created_at)
                },
            ),
            if written.edited {
                txt(" ("@ + said(lang, "edited"@) + ")"@)
            } else {
                nothing_view()
            },
            elem(
                "a"@,
                seq![
                    attr("class"@, "num"@),
                    attr("href"@, "#p"@ + decimal_text(written.id as int)),
                ],
                seq![txt("#"@ + decimal_text(index + 1))],
            ),
        ],
    )
}

fn byline(
    lang: Lang,
    written: &Post,
    index: usize,
    by_day: bool,
    handle: Option<&String>,
    moments: &Moments,
) -> (r: Node)
    requires
        index < usize::MAX,
    ensures
        r@ == byline_view(
            lang,
            *written,
            index as int,
            by_day,
            match handle {
                Some(handle) => Some(handle@),
                None => None,
            },
            moments@,
        ),
{
    let name = match handle {
        Some(handle) => {
            let at = "@".to_owned().concat(handle);
            many(nodes2(text(" "), span("handle", &at)))
        },
        None => nothing(),
    };
    let when = if index == 0 && by_day {
        moments.day(written.created_at)
    } else {
        moments.stamp(written.created_at)
    };
    let edited = if written.edited {
        let note = " (".to_owned().concat(lang.t("edited")).concat(")");
        text(&note)
    } else {
        nothing()
    };
    let anchor = "#p".to_owned().concat(&decimal(written.id));
    let number = "#".to_owned().concat(&decimal_count(index + 1));
    element(
        "p",
        attrs1(named("class", "byline")),
        nodes6(
            span("name", &written.author_name),
            name,
            sep(),
            text(&when),
            edited,
            element(
                "a",
                attrs2(named("class", "num"), named("href", &anchor)),
                nodes1(text(&number)),
            ),
        ),
    )
}

/// On your own post, the pencil and the basket. The basket is A LINK TO THE
/// QUESTION, not a button that acts: an icon that deletes on the first click is
/// one mis-click wide.
pub open spec fn own_view(lang: Lang, post_id: i64, markdown: Seq<char>) -> NodeView {
    elem(
        "div"@,
        seq![attr("class"@, "own"@)],
        seq![
            elem(
                "details"@,
                seq![attr("class"@, "edit"@)],
                seq![
                    elem(
                        "summary"@,
                        seq![
                            attr("title"@, said(lang, "edit"@)),
                            attr("aria-label"@, said(lang, "edit"@)),
                        ],
                        seq![NodeView::Icon(Icon::Pencil)],
                    ),
                    elem(
                        "form"@,
                        seq![
                            attr("method"@, "post"@),
                            attr("action"@, "/p/"@ + decimal_text(post_id as int) + "/edit"@),
                        ],
                        seq![
                            elem(
                                "textarea"@,
                                seq![
                                    attr("name"@, "body"@),
                                    attr("rows"@, "4"@),
                                    AttrView::Bare("required"@),
                                ],
                                seq![txt(markdown)],
                            ),
                            button_view(said(lang, "save"@)),
                        ],
                    ),
                ],
            ),
            elem(
                "a"@,
                seq![
                    attr("class"@, "danger"@),
                    attr("href"@, "/p/"@ + decimal_text(post_id as int) + "/delete"@),
                    attr("title"@, said(lang, "delete"@)),
                    attr("aria-label"@, said(lang, "delete"@)),
                ],
                seq![NodeView::Icon(Icon::Bin)],
            ),
        ],
    )
}

fn own_controls(lang: Lang, post_id: i64, markdown: &str) -> (r: Node)
    ensures
        r@ == own_view(lang, post_id, markdown@),
{
    let edit = "/p/".to_owned().concat(&decimal(post_id)).concat("/edit");
    let delete = "/p/".to_owned().concat(&decimal(post_id)).concat("/delete");
    element(
        "div",
        attrs1(named("class", "own")),
        nodes2(
            element(
                "details",
                attrs1(named("class", "edit")),
                nodes2(
                    element(
                        "summary",
                        attrs2(named("title", lang.t("edit")), named("aria-label", lang.t("edit"))),
                        nodes1(icon(Icon::Pencil)),
                    ),
                    element(
                        "form",
                        attrs2(named("method", "post"), named("action", &edit)),
                        nodes2(
                            element(
                                "textarea",
                                attrs3(
                                    named("name", "body"),
                                    named("rows", "4"),
                                    bare("required"),
                                ),
                                nodes1(text(markdown)),
                            ),
                            button(lang.t("save")),
                        ),
                    ),
                ),
            ),
            element(
                "a",
                attrs4(
                    named("class", "danger"),
                    named("href", &delete),
                    named("title", lang.t("delete")),
                    named("aria-label", lang.t("delete")),
                ),
                nodes1(icon(Icon::Bin)),
            ),
        ),
    )
}

/// A post in a thread. There is an anchor per post, because the bell links to
/// the first post somebody has not read, not to the top of a long thread.
pub open spec fn post_view(
    who: IdentityView,
    lang: Lang,
    view: TopicView,
    index: int,
    moments: Seq<(i64, Option<i32>)>,
) -> NodeView {
    let written = view.posts@[index];
    let own = who.subject == written.author_subject@;
    elem(
        "article"@,
        seq![
            attr("class"@, "post"@),
            attr("id"@, "p"@ + decimal_text(written.id as int)),
        ],
        seq![
            byline_view(
                lang,
                written,
                index,
                view.topic.dated_by_day,
                handle_known(view.handles@, written.author_subject@),
                moments,
            ),
            body_view(written.body_markdown@, texts(view.highlighted@)),
            elem(
                "div"@,
                seq![attr("class"@, "foot"@)],
                seq![
                    like_view(lang, written.id, own, likes_known(view.likes@, written.id)),
                    if own {
                        own_view(lang, written.id, written.body_markdown@)
                    } else {
                        nothing_view()
                    },
                ],
            ),
        ],
    )
}

fn post_block(who: &Identity, lang: Lang, view: &TopicView, index: usize, moments: &Moments) -> (r:
    Node)
    requires
        index < view.posts@.len(),
        view.posts@.len() <= usize::MAX,
    ensures
        r@ == post_view(who@, lang, *view, index as int, moments@),
{
    let written = &view.posts[index];
    let own = may_modify(who, &written.author_subject);
    let handle = find_handle(view.handles, &written.author_subject);
    let likes = find_likes(view.likes, written.id);
    let anchor = "p".to_owned().concat(&decimal(written.id));
    let controls = if own {
        own_controls(lang, written.id, &written.body_markdown)
    } else {
        nothing()
    };
    element(
        "article",
        attrs2(named("class", "post"), named("id", &anchor)),
        nodes3(
            byline(lang, written, index, view.topic.dated_by_day, handle, moments),
            post_body(&written.body_markdown, view.highlighted),
            element(
                "div",
                attrs1(named("class", "foot")),
                nodes2(like_control(lang, written.id, own, likes), controls),
            ),
        ),
    )
}

/// ONE FOLD FOR BOTH FORMS. Writing a few lines and adding a picture are the
/// same intention, and asking which of the two you want before you may write
/// either would make two decisions out of one.
pub open spec fn reply_view(lang: Lang, topic_id: i64) -> NodeView {
    elem(
        "details"@,
        seq![attr("class"@, "write"@)],
        seq![
            elem("summary"@, seq![], seq![txt(said(lang, "reply"@))]),
            elem(
                "form"@,
                seq![
                    attr("method"@, "post"@),
                    attr("action"@, "/t/"@ + decimal_text(topic_id as int) + "/reply"@),
                ],
                seq![
                    elem(
                        "textarea"@,
                        seq![
                            attr("name"@, "body"@),
                            attr("rows"@, "5"@),
                            AttrView::Bare("required"@),
                            attr("aria-label"@, said(lang, "reply"@)),
                        ],
                        seq![],
                    ),
                    button_view(said(lang, "post_reply"@)),
                ],
            ),
            elem(
                "form"@,
                seq![
                    attr("method"@, "post"@),
                    attr("enctype"@, "multipart/form-data"@),
                    attr("action"@, "/t/"@ + decimal_text(topic_id as int) + "/attach"@),
                ],
                seq![
                    elem(
                        "label"@,
                        seq![],
                        seq![
                            txt(said(lang, "attach_picture"@)),
                            NodeView::Void(
                                "input"@,
                                seq![
                                    attr("type"@, "file"@),
                                    attr("name"@, "file"@),
                                    attr(
                                        "accept"@,
                                        "image/jpeg,image/png,image/gif,image/webp"@,
                                    ),
                                    AttrView::Bare("required"@),
                                ],
                            ),
                        ],
                    ),
                    elem(
                        "label"@,
                        seq![],
                        seq![
                            txt(said(lang, "caption"@)),
                            NodeView::Void(
                                "input"@,
                                seq![attr("type"@, "text"@), attr("name"@, "body"@)],
                            ),
                        ],
                    ),
                    button_view(said(lang, "attach"@)),
                ],
            ),
        ],
    )
}

fn reply_forms(lang: Lang, topic_id: i64) -> (r: Node)
    ensures
        r@ == reply_view(lang, topic_id),
{
    let reply = "/t/".to_owned().concat(&decimal(topic_id)).concat("/reply");
    let attach = "/t/".to_owned().concat(&decimal(topic_id)).concat("/attach");
    element(
        "details",
        attrs1(named("class", "write")),
        nodes3(
            element("summary", no_attrs(), nodes1(text(lang.t("reply")))),
            element(
                "form",
                attrs2(named("method", "post"), named("action", &reply)),
                nodes2(
                    element(
                        "textarea",
                        attrs4(
                            named("name", "body"),
                            named("rows", "5"),
                            bare("required"),
                            named("aria-label", lang.t("reply")),
                        ),
                        no_nodes(),
                    ),
                    button(lang.t("post_reply")),
                ),
            ),
            element(
                "form",
                attrs3(
                    named("method", "post"),
                    named("enctype", "multipart/form-data"),
                    named("action", &attach),
                ),
                nodes3(
                    element(
                        "label",
                        no_attrs(),
                        nodes2(
                            text(lang.t("attach_picture")),
                            void(
                                "input",
                                attrs4(
                                    named("type", "file"),
                                    named("name", "file"),
                                    named(
                                        "accept",
                                        "image/jpeg,image/png,image/gif,image/webp",
                                    ),
                                    bare("required"),
                                ),
                            ),
                        ),
                    ),
                    element(
                        "label",
                        no_attrs(),
                        nodes2(
                            text(lang.t("caption")),
                            void("input", attrs2(named("type", "text"), named("name", "body"))),
                        ),
                    ),
                    button(lang.t("attach")),
                ),
            ),
        ),
    )
}

/// May this person answer here?
pub open spec fn may_answer(who: IdentityView, category: Option<CategoryView>) -> bool {
    category is Some && replies(who, category->0)
}

/// The posts of a topic.
pub open spec fn posts_view(
    who: IdentityView,
    lang: Lang,
    view: TopicView,
    moments: Seq<(i64, Option<i32>)>,
) -> Seq<NodeView> {
    Seq::new(view.posts@.len(), |i: int| post_view(who, lang, view, i, moments))
}

/// A topic, with everything that was written in it.
pub open spec fn topic_page_view(
    space: SpaceView,
    who: IdentityView,
    lang: Lang,
    bell: Bell,
    view: TopicView,
    moments: Seq<(i64, Option<i32>)>,
) -> NodeView {
    layout_view(
        space,
        who,
        lang,
        bell,
        view.topic.title@,
        ""@,
        NodeView::Many(
            seq![
                elem("h1"@, seq![], seq![txt(view.topic.title@)]),
                meta_view(
                    lang,
                    category_seen(view.category),
                    view.topic.id,
                    view.posts@.len() as int,
                    view.following,
                ),
                NodeView::Many(posts_view(who, lang, view, moments)),
                if view.posts@.len() > 1 {
                    elem(
                        "a"@,
                        seq![attr("class"@, "top"@), attr("href"@, "#top"@)],
                        seq![txt(said(lang, "top"@))],
                    )
                } else {
                    nothing_view()
                },
                if may_answer(who, category_seen(view.category)) {
                    reply_view(lang, view.topic.id)
                } else {
                    nothing_view()
                },
            ],
        ),
    )
}

/// A topic, with everything that was written in it: the way back, how long it
/// is, the posts, and, for whoever may answer, the forms to answer with.
pub fn topic_page(
    space: &Space,
    who: &Identity,
    lang: Lang,
    bell: Bell,
    view: TopicView,
    moments: &Moments,
) -> (r: Node)
    ensures
        r@ == topic_page_view(space@, who@, lang, bell, view, moments@),
{
    let size: usize = view.posts.len();
    let mut blocks: Vec<Node> = Vec::new();
    let mut i: usize = 0;
    while i < size
        invariant
            i <= size == view.posts@.len(),
            blocks@.len() == i,
            forall|k: int|
                0 <= k < i ==> (#[trigger] blocks@[k])@ == post_view(
                    who@,
                    lang,
                    view,
                    k,
                    moments@,
                ),
        decreases size - i,
    {
        blocks.push(post_block(who, lang, &view, i, moments));
        i += 1;
    }
    assert(nodes_view(blocks@) =~= posts_view(who@, lang, view, moments@));
    let top = if size > 1 {
        element(
            "a",
            attrs2(named("class", "top"), named("href", "#top")),
            nodes1(text(lang.t("top"))),
        )
    } else {
        nothing()
    };
    let answering = match view.category {
        Some(category) => may_reply(who, category),
        None => false,
    };
    assert(answering == may_answer(who@, category_seen(view.category)));
    let answer = if answering {
        reply_forms(lang, view.topic.id)
    } else {
        nothing()
    };
    let body = many(
        nodes5(
            element("h1", no_attrs(), nodes1(text(&view.topic.title))),
            meta(lang, view.category, view.topic.id, size, view.following),
            many(blocks),
            top,
            answer,
        ),
    );
    layout(space, who, lang, bell, &view.topic.title, body)
}

/// What a bundle of replies is called: "new" only while it is. A bundle that
/// was read says how many there were, not that they are waiting.
pub open spec fn bundle_key(unread: bool, one: bool) -> Seq<char> {
    if unread {
        if one {
            "new_reply_in"@
        } else {
            "new_replies_in"@
        }
    } else {
        if one {
            "reply_in"@
        } else {
            "replies_in"@
        }
    }
}

/// A link of the list.
pub open spec fn entry_link_view(href: Seq<char>, nodes: Seq<NodeView>) -> NodeView {
    elem("a"@, seq![attr("href"@, href)], nodes)
}

pub open spec fn bold_view(words: Seq<char>) -> NodeView {
    elem("b"@, seq![], seq![txt(words)])
}

fn bold(words: &str) -> (r: Node)
    ensures
        r@ == bold_view(words@),
{
    element("b", no_attrs(), nodes1(text(words)))
}

pub open spec fn when_view(at: i64, moments: Seq<(i64, Option<i32>)>) -> NodeView {
    elem("span"@, seq![attr("class"@, "byline"@)], seq![txt(shown_stamp(moments, at))])
}

fn when(at: i64, moments: &Moments) -> (r: Node)
    ensures
        r@ == when_view(at, moments@),
{
    element("span", attrs1(named("class", "byline")), nodes1(text(&moment(at, moments))))
}

pub open spec fn event_words_view(lang: Lang, kind: Kind, title: Seq<char>) -> Seq<NodeView> {
    match kind {
        Kind::FilmAvailable => seq![
            txt("\u{1f3ac} "@),
            bold_view(title),
            txt(" "@ + said(lang, "film_available"@)),
        ],
        Kind::FilmFailed => seq![
            txt(""@),
            bold_view(title),
            txt(" "@ + said(lang, "film_failed"@)),
        ],
    }
}

fn event_words(lang: Lang, kind: Kind, title: &str) -> (r: Vec<Node>)
    ensures
        nodes_view(r@) == event_words_view(lang, kind, title@),
{
    match kind {
        Kind::FilmAvailable => {
            let words = " ".to_owned().concat(lang.t("film_available"));
            nodes3(text("\u{1f3ac} "), bold(title), text(&words))
        },
        Kind::FilmFailed => {
            let words = " ".to_owned().concat(lang.t("film_failed"));
            nodes3(text(""), bold(title), text(&words))
        },
    }
}

pub open spec fn reason_view(reason: Option<Seq<char>>) -> NodeView {
    match reason {
        Some(reason) => NodeView::Many(seq![txt(reason), sep_view()]),
        None => nothing_view(),
    }
}

fn reason_line(reason: &Option<String>) -> (r: Node)
    ensures
        r@ == reason_view(text_of(*reason)),
{
    match reason {
        Some(reason) => many(nodes2(text(reason), sep())),
        None => nothing(),
    }
}

/// The latest name leads, the rest is a number: "cem and 2 others like your
/// post".
pub open spec fn likers_text(lang: Lang, count: int) -> Seq<char> {
    if count == 1 {
        " "@ + said(lang, "likes_your_post_in"@) + " "@
    } else {
        " "@ + said(lang, "and"@) + " "@ + decimal_text(count - 1) + " "@ + said(
            lang,
            "others_like_your_post_in"@,
        ) + " "@
    }
}

fn likers(lang: Lang, count: i64) -> (r: String)
    requires
        count > i64::MIN,
    ensures
        r@ == likers_text(lang, count as int),
{
    if count == 1 {
        " ".to_owned().concat(lang.t("likes_your_post_in")).concat(" ")
    } else {
        " ".to_owned().concat(lang.t("and")).concat(" ").concat(&decimal(count - 1)).concat(
            " ",
        ).concat(lang.t("others_like_your_post_in")).concat(" ")
    }
}

/// What an entry says, and where it leads.
pub open spec fn entry_words_view(
    entry: EntryView,
    lang: Lang,
    href: Seq<char>,
    moments: Seq<(i64, Option<i32>)>,
) -> Seq<NodeView> {
    match entry {
        EntryView::Replies { topic_title, count, latest_author, latest_at, unread, .. } => seq![
            entry_link_view(
                href,
                seq![
                    txt(
                        decimal_text(count) + " "@ + said(lang, bundle_key(unread, count == 1))
                            + " "@,
                    ),
                    bold_view(topic_title),
                ],
            ),
            elem(
                "span"@,
                seq![attr("class"@, "byline"@)],
                seq![
                    txt(said(lang, "latest_from"@) + " "@),
                    span_view("name"@, latest_author),
                    sep_view(),
                    txt(shown_stamp(moments, latest_at)),
                ],
            ),
        ],
        EntryView::Event { kind, title, reason, at, .. } => seq![
            entry_link_view(href, event_words_view(lang, kind, title)),
            elem(
                "span"@,
                seq![attr("class"@, "byline"@)],
                seq![reason_view(reason), txt(shown_stamp(moments, at))],
            ),
        ],
        EntryView::Mention { topic_title, author, at, .. } => seq![
            entry_link_view(
                href,
                seq![
                    span_view("name"@, author),
                    txt(" "@ + said(lang, "mentioned_you_in"@) + " "@),
                    bold_view(topic_title),
                ],
            ),
            when_view(at, moments),
        ],
        EntryView::Likes { topic_title, count, latest_name, at, .. } => seq![
            entry_link_view(
                href,
                seq![
                    span_view("name"@, latest_name),
                    txt(likers_text(lang, count)),
                    bold_view(topic_title),
                ],
            ),
            when_view(at, moments),
        ],
    }
}

/// Can the entry be put into words? The number of people who like a post is
/// one that can be counted down from.
pub open spec fn countable(entry: EntryView) -> bool {
    match entry {
        EntryView::Likes { count, .. } => count > i64::MIN,
        _ => true,
    }
}

fn bundle_label(lang: Lang, count: i64, unread: bool) -> (r: String)
    ensures
        r@ == decimal_text(count as int) + " "@ + said(lang, bundle_key(unread, count == 1)) + " "@,
{
    let key = if unread {
        if count == 1 {
            "new_reply_in"
        } else {
            "new_replies_in"
        }
    } else {
        if count == 1 {
            "reply_in"
        } else {
            "replies_in"
        }
    };
    decimal(count).concat(" ").concat(lang.t(key)).concat(" ")
}

fn entry_words(entry: &Entry, lang: Lang, href: &str, moments: &Moments) -> (r: Vec<Node>)
    requires
        countable(entry@),
    ensures
        nodes_view(r@) == entry_words_view(entry@, lang, href@, moments@),
{
    match entry {
        Entry::Replies { topic_title, count, latest_author, latest_at, unread, .. } => {
            let words = bundle_label(lang, *count, *unread);
            let from = lang.t("latest_from").to_owned().concat(" ");
            nodes2(
                element(
                    "a",
                    attrs1(named("href", href)),
                    nodes2(text(&words), bold(topic_title)),
                ),
                element(
                    "span",
                    attrs1(named("class", "byline")),
                    nodes4(
                        text(&from),
                        span("name", latest_author),
                        sep(),
                        text(&moment(*latest_at, moments)),
                    ),
                ),
            )
        },
        Entry::Event { kind, title, reason, at, .. } => {
            nodes2(
                element("a", attrs1(named("href", href)), event_words(lang, *kind, title)),
                element(
                    "span",
                    attrs1(named("class", "byline")),
                    nodes2(reason_line(reason), text(&moment(*at, moments))),
                ),
            )
        },
        Entry::Mention { topic_title, author, at, .. } => {
            let words = " ".to_owned().concat(lang.t("mentioned_you_in")).concat(" ");
            nodes2(
                element(
                    "a",
                    attrs1(named("href", href)),
                    nodes3(span("name", author), text(&words), bold(topic_title)),
                ),
                when(*at, moments),
            )
        },
        Entry::Likes { topic_title, count, latest_name, at, .. } => {
            let words = likers(lang, *count);
            nodes2(
                element(
                    "a",
                    attrs1(named("href", href)),
                    nodes3(span("name", latest_name), text(&words), bold(topic_title)),
                ),
                when(*at, moments),
            )
        },
    }
}

/// A line of the notifications page. A link starts with nothing on this host,
/// and with the entry's own host everywhere else.
pub open spec fn inbox_line_view(
    entry: EntryView,
    host: Seq<char>,
    lang: Lang,
    moments: Seq<(i64, Option<i32>)>,
) -> NodeView {
    elem(
        "li"@,
        seq![
            attr(
                "class"@,
                if entry.is_unread() {
                    "new"@
                } else {
                    "seen"@
                },
            ),
        ],
        entry_words_view(entry, lang, base_of(entry.place(), host) + entry_path(entry), moments),
    )
}

fn inbox_line(entry: &Entry, host: &str, lang: Lang, moments: &Moments) -> (r: Node)
    requires
        countable(entry@),
    ensures
        r@ == inbox_line_view(entry@, host@, lang, moments@),
{
    let href = link_base(entry.space(), host).concat(&path_of_entry(entry));
    let class = if entry.unread() {
        "new"
    } else {
        "seen"
    };
    element(
        "li",
        attrs1(named("class", class)),
        entry_words(entry, lang, &href, moments),
    )
}

/// A form, like following: it changes something, and a link that did would be
/// followed by whatever fetches links in advance.
pub open spec fn read_all_view(lang: Lang) -> NodeView {
    elem(
        "form"@,
        seq![
            attr("class"@, "follow read-all"@),
            attr("method"@, "post"@),
            attr("action"@, "/notifications/read"@),
        ],
        seq![button_view(said(lang, "mark_all_read"@))],
    )
}

fn read_all(lang: Lang) -> (r: Node)
    ensures
        r@ == read_all_view(lang),
{
    element(
        "form",
        attrs3(
            named("class", "follow read-all"),
            named("method", "post"),
            named("action", "/notifications/read"),
        ),
        nodes1(button(lang.t("mark_all_read"))),
    )
}

/// The switch for mail about mentions sits under the list, not above it: it is
/// visited once, the list every day.
pub open spec fn mention_switch_view(lang: Lang, on: bool) -> NodeView {
    elem(
        "form"@,
        seq![
            attr("class"@, "follow mention-mail"@),
            attr("method"@, "post"@),
            attr("action"@, "/notifications/mention-mail"@),
        ],
        seq![
            NodeView::Void(
                "input"@,
                seq![
                    attr("type"@, "hidden"@),
                    attr("name"@, "on"@),
                    attr(
                        "value"@,
                        if on {
                            "0"@
                        } else {
                            "1"@
                        },
                    ),
                ],
            ),
            button_view(
                said(
                    lang,
                    if on {
                        "mention_mail_off"@
                    } else {
                        "mention_mail_on"@
                    },
                ),
            ),
            span_view(
                "note"@,
                said(
                    lang,
                    if on {
                        "mention_mail_is_on"@
                    } else {
                        "mention_mail_is_off"@
                    },
                ),
            ),
        ],
    )
}

fn mention_switch(lang: Lang, on: bool) -> (r: Node)
    ensures
        r@ == mention_switch_view(lang, on),
{
    let value = if on {
        "0"
    } else {
        "1"
    };
    let label = if on {
        lang.t("mention_mail_off")
    } else {
        lang.t("mention_mail_on")
    };
    let note = if on {
        lang.t("mention_mail_is_on")
    } else {
        lang.t("mention_mail_is_off")
    };
    element(
        "form",
        attrs3(
            named("class", "follow mention-mail"),
            named("method", "post"),
            named("action", "/notifications/mention-mail"),
        ),
        nodes3(
            void(
                "input",
                attrs3(named("type", "hidden"), named("name", "on"), named("value", value)),
            ),
            button(label),
            span("note", note),
        ),
    )
}

/// The lines of the notifications page.
pub open spec fn inbox_lines_view(
    entries: Seq<EntryView>,
    host: Seq<char>,
    lang: Lang,
    moments: Seq<(i64, Option<i32>)>,
) -> Seq<NodeView> {
    Seq::new(entries.len(), |i: int| inbox_line_view(entries[i], host, lang, moments))
}

/// What is new first, then what was already seen.
pub open spec fn notifications_view(
    space: SpaceView,
    who: IdentityView,
    lang: Lang,
    bell: Bell,
    entries: Seq<EntryView>,
    mention_mail: bool,
    moments: Seq<(i64, Option<i32>)>,
) -> NodeView {
    layout_view(
        space,
        who,
        lang,
        bell,
        said(lang, "notifications"@),
        ""@,
        NodeView::Many(
            seq![
                elem("h1"@, seq![], seq![txt(said(lang, "notifications"@))]),
                if entries.len() == 0 {
                    empty_view(said(lang, "nothing_new"@))
                } else {
                    NodeView::Many(
                        seq![
                            if bell.unread > 0 {
                                read_all_view(lang)
                            } else {
                                nothing_view()
                            },
                            elem(
                                "ul"@,
                                seq![attr("class"@, "topics inbox"@)],
                                inbox_lines_view(entries, space.host, lang, moments),
                            ),
                        ],
                    )
                },
                mention_switch_view(lang, mention_mail),
            ],
        ),
    )
}

/// The notifications of a person: what is new first, then what was already
/// seen, in the order in which the entries come.
pub fn notifications_page(
    space: &Space,
    who: &Identity,
    lang: Lang,
    bell: Bell,
    entries: &[Entry],
    mention_mail: bool,
    moments: &Moments,
) -> (r: Node)
    requires
        forall|i: int| 0 <= i < entries@.len() ==> countable((#[trigger] entries@[i])@),
    ensures
        r@ == notifications_view(
            space@,
            who@,
            lang,
            bell,
            entries_view(entries@),
            mention_mail,
            moments@,
        ),
{
    let ghost seen = entries_view(entries@);
    let list = if entries.len() == 0 {
        empty(lang.t("nothing_new"))
    } else {
        let mut lines: Vec<Node> = Vec::new();
        let mut i: usize = 0;
        while i < entries.len()
            invariant
                i <= entries@.len(),
                forall|k: int| 0 <= k < entries@.len() ==> countable((#[trigger] entries@[k])@),
                seen == entries_view(entries@),
                lines@.len() == i,
                forall|k: int|
                    0 <= k < i ==> (#[trigger] lines@[k])@ == inbox_line_view(
                        seen[k],
                        space@.host,
                        lang,
                        moments@,
                    ),
            decreases entries@.len() - i,
        {
            assert(seen[i as int] == entries@[i as int]@);
            lines.push(inbox_line(&entries[i], &space.host, lang, moments));
            i += 1;
        }
        assert(nodes_view(lines@) =~= inbox_lines_view(seen, space@.host, lang, moments@));
        let sweep = if bell.unread > 0 {
            read_all(lang)
        } else {
            nothing()
        };
        many(nodes2(sweep, element("ul", attrs1(named("class", "topics inbox")), lines)))
    };
    let body = many(
        nodes3(
            element("h1", no_attrs(), nodes1(text(lang.t("notifications")))),
            list,
            mention_switch(lang, mention_mail),
        ),
    );
    layout(space, who, lang, bell, lang.t("notifications"), body)
}

} // verus!
