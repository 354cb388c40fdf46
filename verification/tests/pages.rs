//! What a browser is shown.
use jiff::tz::TimeZone;
use std::collections::HashMap;
use treff::authz::Identity;
use treff::clock::Moments;
use treff::config::{Config, Space};
use treff::db::inbox::Entry;
use treff::db::likes::Summary;
use treff::db::search::Hit;
use treff::db::topics::{CategoryCount, Counts, LastPost, Post, Topic};
use treff::i18n::Lang;
use treff::web::html::{attrs2, bare, document, element, maybe, named, nodes2, no_nodes, post, text, void};
use treff::web::times::{
    times_of_entries, times_of_hits, times_of_index, times_of_posts, times_of_topics,
};
use treff::web::views::{
    bell_label, category_index, delete_question_page, host_of, layout, like_control, like_label,
    notifications_page, replies_label, search_page, section_label, space_page, tally, topic_page,
    unsubscribe_page, unsubscribed_page, Bell, CategoryRow, TopicRow, TopicView,
};

fn forum() -> Space {
    let mut config = Config::parse(
        r#"
[[space]]
host = "forum.example.org"
title = "Forum <3"
view = "topics"
read = ["Friends"]
  [[space.category]]
  slug = "general"
  title = "General"
  post = ["Friends"]
  reply = ["Friends"]
"#,
    )
    .expect("config");
    config.spaces.remove(0)
}

fn ada() -> Identity {
    Identity {
        subject: "sub-1".into(),
        name: "Ada & Co".into(),
        groups: vec!["Friends".into()],
        email: None,
        handle: None,
    }
}

const AT: i64 = 1_768_470_060;

fn moments() -> Moments {
    Moments { offsets: vec![(AT, Some(3600))] }
}

fn topic() -> Topic {
    Topic {
        id: 7,
        space: "forum.example.org".into(),
        category: "general".into(),
        title: "A <b>bold</b> title".into(),
        author_subject: "sub-2".into(),
        author_name: "Grace".into(),
        created_at: AT,
        updated_at: AT,
        dated_by_day: false,
    }
}

fn written(id: i64, author: &str, body: &str) -> Post {
    Post {
        id,
        topic_id: 7,
        body_markdown: body.into(),
        author_subject: author.into(),
        author_name: "Grace".into(),
        created_at: AT,
        updated_at: AT,
        edited: false,
    }
}

#[test]
fn a_document_escapes_texts_and_values_and_nothing_else() {
    let page = element(
        "p",
        attrs2(named("title", "\"a\" & b"), bare("hidden")),
        nodes2(text("<b>"), void("br", vec![maybe("class", None)])),
    );
    assert_eq!(
        document(&page),
        "<!DOCTYPE html><p title=\"&quot;a&quot; &amp; b\" hidden>&lt;b&gt;<br></p>"
    );
    assert_eq!(document(&element("div", vec![], no_nodes())), "<!DOCTYPE html><div></div>");
    assert_eq!(document(&post("**a**", &[])), "<!DOCTYPE html><p><strong>a</strong></p>\n");
}

#[test]
fn a_page_is_a_whole_document_in_its_language() {
    let html = document(&layout(&forum(), &ada(), Lang::De, Bell { unread: 3 }, "T", text("body")));
    assert!(html.starts_with("<!DOCTYPE html>"), "{html}");
    assert!(html.contains("lang=\"de\""), "{html}");
    assert!(html.contains("Forum &lt;3"), "{html}");
    assert!(html.contains("Ada &amp; Co"), "{html}");
    assert!(html.contains(Lang::De.t("sign_out")), "{html}");
}

#[test]
fn the_bell_says_how_many() {
    let none = bell_label(Lang::En, Bell { unread: 0 });
    let some = bell_label(Lang::En, Bell { unread: 3 });
    assert_ne!(none, some);
    assert!(some.contains('3'), "{some}");
    assert_eq!(host_of("https://home.example.org/path"), "home.example.org");
    assert_eq!(tally(0), "\u{2013}");
    assert_eq!(tally(12), "12");
    assert_eq!(section_label(&forum(), "general"), "General");
    assert_eq!(section_label(&forum(), "gone"), "gone");
}

#[test]
fn a_topic_page_shows_every_post_and_no_markup_of_a_title() {
    let topic = topic();
    let posts = vec![written(1, "sub-2", "Hello **all**"), written(2, "sub-1", "Hi @grace")];
    let space = forum();
    let highlighted = vec!["grace".to_string()];
    let mut likes = HashMap::new();
    likes.insert(1, Summary { count: 2, liked: true, names: vec!["Lin".into()] });
    let view = TopicView {
        category: space.category("general"),
        topic: &topic,
        posts: &posts,
        following: false,
        highlighted: &highlighted,
        handles: &[],
        likes: &likes,
    };
    let html = document(&topic_page(&space, &ada(), Lang::En, Bell { unread: 0 }, view, &moments()));
    assert!(html.contains("A &lt;b&gt;bold&lt;/b&gt; title"), "{html}");
    assert!(html.contains("<strong>all</strong>"), "{html}");
    assert!(html.contains("class=\"mention\""), "{html}");
    assert!(html.contains("2026-01-15 10:41"), "{html}");
    assert!(html.contains("id=\"p2\""), "{html}");
}

fn topic_row() -> TopicRow {
    TopicRow {
        topic: topic(),
        last: Some(LastPost { author_name: "Lin".into(), created_at: AT, opens_the_topic: false }),
        first: None,
        likes: None,
        counts: Counts { replies: 4, likes: 2, unread: true },
    }
}

#[test]
fn the_lists_link_to_their_topics() {
    let space = forum();
    let rows = vec![topic_row()];
    let bell = || Bell { unread: 0 };
    let html = document(&space_page(
        &space,
        &ada(),
        Lang::En,
        bell(),
        space.category("general"),
        &rows,
        &moments(),
    ));
    assert!(html.contains("/t/7"), "{html}");
    assert!(html.contains("Lin"), "{html}");
    let sections = vec![CategoryRow {
        category: space.category("general").expect("section"),
        count: CategoryCount { topics: 1, last_activity: Some(AT) },
    }];
    let html = document(&category_index(
        &space,
        &ada(),
        Lang::En,
        bell(),
        &sections,
        &rows,
        &moments(),
    ));
    assert!(html.contains("/c/general"), "{html}");
    let hits = vec![Hit {
        topic_id: 7,
        title: "T".into(),
        category: "general".into(),
        snippet: "found <here>".into(),
        updated_at: AT,
    }];
    let html =
        document(&search_page(&space, &ada(), Lang::En, bell(), "a\"b", &hits, &moments()));
    assert!(html.contains("found &lt;here&gt;"), "{html}");
    assert!(html.contains("a&quot;b"), "{html}");
}

#[test]
fn a_like_of_your_own_is_no_button() {
    let summary = Summary { count: 2, liked: false, names: vec!["Lin".into()] };
    let own = document(&like_control(Lang::En, 1, true, Some(&summary)));
    let other = document(&like_control(Lang::En, 1, false, Some(&summary)));
    assert!(!own.contains("<form"), "{own}");
    assert!(other.contains("<form"), "{other}");
    assert_ne!(like_label(Lang::En, true, 1), like_label(Lang::En, false, 1));
    assert_ne!(replies_label(Lang::En, 2), replies_label(Lang::En, 3));
}

#[test]
fn deleting_and_leaving_are_asked_about() {
    let html = document(&delete_question_page(
        &forum(),
        &ada(),
        Lang::En,
        Bell { unread: 0 },
        &written(5, "sub-1", "gone soon"),
        &moments(),
    ));
    assert!(html.contains("/p/5"), "{html}");
    let html = document(&unsubscribe_page(&forum(), Lang::En, 42, "tok", false));
    assert!(html.contains("/u/42/tok"), "{html}");
    let replies = document(&unsubscribed_page(&forum(), Lang::En, false));
    let mentions = document(&unsubscribed_page(&forum(), Lang::En, true));
    assert_ne!(replies, mentions);
}

#[test]
fn the_inbox_lists_each_entry_once() {
    let entries = vec![Entry::Likes {
        topic_id: 7,
        topic_title: "T".into(),
        post_id: 9,
        count: 3,
        space: "forum.example.org".into(),
        latest_name: "Lin".into(),
        at: AT,
        unread: true,
    }];
    let html = document(&notifications_page(
        &forum(),
        &ada(),
        Lang::En,
        Bell { unread: 1 },
        &entries,
        true,
        &moments(),
    ));
    assert_eq!(html.matches("/t/7#p9").count(), 1, "{html}");
    assert!(html.contains("Lin"), "{html}");
}

const SUMMER: i64 = 1_784_108_460;

#[test]
fn a_page_lists_the_moments_it_shows() {
    let silent = TopicRow {
        topic: Topic { created_at: 3, updated_at: 4, ..topic() },
        last: Some(LastPost { author_name: "Lin".into(), created_at: 5, opens_the_topic: true }),
        ..topic_row()
    };
    let rows = vec![topic_row(), silent];
    assert_eq!(times_of_topics(&rows), vec![AT, AT, 3]);
    let space = forum();
    let section = |last_activity| CategoryRow {
        category: space.category("general").expect("section"),
        count: CategoryCount { topics: 1, last_activity },
    };
    let sections = vec![section(Some(8)), section(None), section(Some(9))];
    assert_eq!(times_of_index(&sections, &rows), vec![AT, AT, 3, 8, 9]);
    let posts = vec![Post { created_at: 6, ..written(1, "sub-2", "a") }, written(2, "sub-2", "b")];
    assert_eq!(times_of_posts(&posts), vec![6, AT]);
    let hit = Hit {
        topic_id: 7,
        title: "T".into(),
        category: "general".into(),
        snippet: "s".into(),
        updated_at: 2,
    };
    assert_eq!(times_of_hits(&[hit]), vec![2]);
    assert!(times_of_entries(&[]).is_empty());
}

#[test]
fn every_moment_on_a_page_is_shown_in_the_zone() {
    let berlin = TimeZone::get("Europe/Berlin").expect("Europe/Berlin");
    let mut row = topic_row();
    row.last =
        Some(LastPost { author_name: "Lin".into(), created_at: SUMMER, opens_the_topic: false });
    let rows = vec![row];
    let space = forum();
    let times = Moments::read(&berlin, &times_of_topics(&rows));
    let html = document(&space_page(
        &space,
        &ada(),
        Lang::En,
        Bell { unread: 0 },
        space.category("general"),
        &rows,
        &times,
    ));
    assert!(html.contains("2026-01-15 10:41"), "{html}");
    assert!(html.contains("2026-07-15 11:41"), "{html}");
    assert!(!html.contains("unknown"), "{html}");
}
