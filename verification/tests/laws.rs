//! What holds of the library as a whole, on values.
use treff::articles::{mirror, File};
use treff::auth::{checked_handle, Sessions};
use treff::authz::{may_modify, may_post, may_read, may_reply, Identity};
use treff::config::{normalise, Category, Config};
use treff::db::attachments::path_of;
use treff::db::events::{checked_link, Kind};
use treff::db::likes::{toggle, LikedPost, Outcome};
use treff::db::outbox::{mark_failed, MAX_ATTEMPTS};
use treff::db::search::as_fts_query;
use treff::export::export;
use treff::live::link_base;
use treff::markup::{mentions, render, render_with};
use treff::media::{detect, strip_metadata, MediaType};
use treff::mentions::{highlighted, to_tell};
use treff::notify::mail::escape;
use treff::notify::webhook::request_body;
use treff::notify::Message;
use treff::text::{hex, trim};
use treff::web::html::{document, text};
use treff::web::scim::{checked_id, Page};

fn list(names: &[&str]) -> Vec<String> {
    names.iter().map(|n| n.to_string()).collect()
}

fn person(groups: &[&str]) -> Identity {
    Identity {
        subject: "sub-1".into(),
        name: "Ada".into(),
        groups: list(groups),
        email: None,
        handle: None,
    }
}

const SPACES: &str = r#"
[[space]]
host = "Forum.Example.org"
title = "Forum"
view = "topics"
read = ["Friends"]
  [[space.category]]
  slug = "general"
  title = "General"
  post = []
  reply = ["Friends"]
"#;

#[test]
fn more_groups_take_no_right_away() {
    let config = Config::parse(SPACES).expect("config");
    let space = &config.spaces[0];
    let (few, more) = (person(&["Friends"]), person(&["Friends", "Writers"]));
    assert!(may_read(&few, space) && may_read(&more, space));
    assert!(!may_read(&person(&[]), space));
    let open = Category {
        slug: "x".into(),
        title: "X".into(),
        post: vec![],
        reply: list(&["Friends"]),
    };
    assert!(!may_post(&more, &open), "an empty list grants nothing");
    assert!(may_reply(&few, &open) && may_reply(&more, &open));
    assert!(may_modify(&few, "sub-1") && !may_modify(&few, "sub-2"));
}

#[test]
fn a_host_is_the_same_in_any_case_and_behind_any_port() {
    let config = Config::parse(SPACES).expect("config");
    for host in ["forum.example.org", "FORUM.example.ORG", "forum.example.org:8443"] {
        assert!(config.space_for_host(host).is_some(), "{host}");
    }
    assert_eq!(normalise(&normalise("Forum.Example.org:80")), normalise("forum.example.org"));
}

#[test]
fn a_configuration_that_was_accepted_is_accepted_again() {
    let config = Config::parse(SPACES).expect("config");
    assert!(config.checked(true).is_ok());
}

#[test]
fn different_bytes_have_different_digits() {
    assert_ne!(hex(&[1, 2]), hex(&[18]));
    assert_ne!(hex(&[0]), hex(&[]));
    assert_eq!(trim(&trim(" \t a ")), trim(" \t a "));
}

#[test]
fn a_handle_that_was_checked_is_a_handle() {
    let once = checked_handle("Konrad.M").expect("handle");
    assert_eq!(checked_handle(&once), Some(once.clone()));
    assert_eq!(
        checked_id("5B1E0C1C-1111-4A4A-9B9B-000000000001"),
        checked_id("5b1e0c1c-1111-4a4a-9b9b-000000000001")
    );
}

#[test]
fn marking_a_mention_leaves_the_words_alone() {
    let bare = |html: String| {
        html.replace("<span class=\"mention\">", "").replace("</span>", "")
    };
    let body = "Hi @ada and @eve, see `@ada`";
    assert_eq!(bare(render_with(body, &list(&["ada"]))), render(body));
    assert_eq!(render_with(body, &[]), render(body));
    assert_eq!(mentions(body), list(&["ada", "eve"]));
}

#[test]
fn whoever_is_told_is_highlighted() {
    let config = Config::parse(SPACES).expect("config");
    let space = &config.spaces[0];
    let accounts = vec![treff::db::accounts::Known {
        subject: "s-ada".into(),
        handle: "ada".into(),
        groups: list(&["Friends"]),
    }];
    assert_eq!(to_tell(&accounts, space, "s-eve", "Hi @ada"), list(&["s-ada"]));
    assert_eq!(highlighted(&accounts, space, &list(&["Hi @ada"])), list(&["ada"]));
}

#[test]
fn stripping_twice_is_stripping_once_and_keeps_the_kind() {
    let mut jpeg = vec![0xff, 0xd8];
    jpeg.extend([0xff, 0xe1, 0x00, 0x08]);
    jpeg.extend(b"Exif\0\0");
    jpeg.extend([0xff, 0xda, 0x00, 0x02, 1, 2, 3, 0xff, 0xd9]);
    let once = strip_metadata(&jpeg, MediaType::Jpeg);
    assert!(once.len() < jpeg.len());
    assert_eq!(strip_metadata(&once, MediaType::Jpeg), once);
    assert_eq!(detect(&once), Some(MediaType::Jpeg));
    for kind in [MediaType::Jpeg, MediaType::Png, MediaType::Gif, MediaType::Webp] {
        assert_eq!(MediaType::from_mime(kind.mime()), Some(kind));
    }
}

#[test]
fn a_link_is_taken_only_where_it_leads_to_an_allowed_host() {
    let hosts = list(&["films.example.org"]);
    assert!(checked_link("https://films.example.org/1", &hosts).is_some());
    for no in [
        "http://films.example.org/1",
        "https://films.example.org@elsewhere.example/",
        "https://elsewhere.example/films.example.org",
        "films.example.org/1",
    ] {
        assert_eq!(checked_link(no, &hosts), None, "{no}");
    }
    for kind in [Kind::FilmAvailable, Kind::FilmFailed] {
        assert_eq!(Kind::parse(kind.as_str()), Some(kind));
    }
}

#[test]
fn a_failure_gives_up_in_the_end() {
    let mut attempts = 0;
    let mut moment = 0;
    while attempts < MAX_ATTEMPTS {
        let failure = mark_failed(attempts, moment, "no");
        assert!(failure.next_try_at > moment);
        assert_eq!(failure.attempts, attempts + 1);
        attempts = failure.attempts;
        moment = failure.next_try_at;
    }
    assert_eq!(attempts, MAX_ATTEMPTS);
}

#[test]
fn two_clicks_leave_everything_as_it_was() {
    let post = Some(LikedPost {
        author_subject: "sub-2".into(),
        topic_id: 1,
        space: "f".into(),
        mirrored: false,
        opens: false,
    });
    let who = person(&["Friends"]);
    let others = list(&["sub-3"]);
    let first = toggle(&post, "f", &who, &others);
    assert_eq!(first.outcome, Outcome::Toggled { liked: true, count: 2, topic_id: 1 });
    let second = toggle(&post, "f", &who, &list(&["sub-3", "sub-1"]));
    assert_eq!(second.outcome, Outcome::Toggled { liked: false, count: 1, topic_id: 1 });
    assert!(!second.forget, "somebody else still likes it");
}

#[test]
fn what_somebody_typed_stays_between_its_quotes() {
    let query = as_fts_query("NEAR(\"a\" \"b\") OR c*").expect("query");
    assert_eq!(query.matches('"').count() % 2, 0);
    assert_eq!(query, "\"NEAR(a\" AND \"b\" AND \"OR\" AND \"c\"");
    assert_eq!(export("/tmp/a b.db", false).expect("sql").matches('\'').count(), 2);
}

#[test]
fn a_file_of_tomorrow_is_a_draft() {
    let file = File {
        name: "2026-01-17-b.md".into(),
        text: Some("---\ntitle: T\n---\nB".into()),
    };
    let files = vec![file];
    assert!(mirror(&files, "title", "2026-01-16").articles.is_empty());
    assert_eq!(mirror(&files, "title", "2026-01-16").skipped, 0);
    assert!(mirror(&files, "title", "not a day").articles.len() == 1);
}

#[test]
fn a_generated_name_stays_below_its_directory() {
    let path = path_of("0123abcd", MediaType::Webp);
    assert_eq!(path, "attachments/0123abcd.webp");
    assert!(!path.starts_with('/') && !path.contains(".."));
}

#[test]
fn somebodys_words_are_no_markup_anywhere() {
    let words = "<img src=x onerror=\"a()\"> & more";
    assert!(!escape(words).contains('<'));
    let html = document(&text(words));
    assert_eq!(html.matches('<').count(), 1, "the doctype alone: {html}");
    assert!(!render(words).contains("onerror"));
}

#[test]
fn the_words_of_a_post_do_not_reach_the_webhook() {
    let message = |body: &str| Message {
        to: String::new(),
        space_title: "F".into(),
        topic_title: "T".into(),
        author: "Ada".into(),
        body: body.into(),
        link: "https://example.org/t/1".into(),
        unsubscribe: None,
    };
    assert_eq!(request_body(&message("one"), &None), request_body(&message("two"), &None));
}

#[test]
fn links_lead_to_the_host_they_belong_to() {
    assert_eq!(link_base("a.example", ""), "https://a.example");
    assert_eq!(link_base("a.example", "a.example"), "");
}

#[test]
fn a_session_lives_its_time_and_no_longer() {
    assert!(Sessions::is_live(100, 99));
    assert!(!Sessions::is_live(100, 100));
    assert_eq!(Sessions::expires_at(0), 43_200);
    assert_eq!(Sessions::stored_groups("[\"a\"]"), list(&["a"]));
}

#[test]
fn a_filter_finds_the_value_that_was_put_in() {
    let page = Page {
        start_index: None,
        count: None,
        filter: Some("userName eq \"Ada L\"".into()),
    };
    assert_eq!(page.equals("userName").ok().flatten().as_deref(), Some("Ada L"));
}
