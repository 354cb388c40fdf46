//! Articles mirrored from files, the live bell, and the copy on disk.
use treff::articles::{
    article_author, date_of, day_start, hide_missing, midnight, mirror, read_article, source_of,
    split_front_matter, upsert, File, Shown, StoredArticle, ARTICLE_SUBJECT,
};
use treff::config::Config;
use treff::db::inbox::Entry;
use treff::export::{export, ExportError};
use treff::live::{asks, bell_json, link_base, path_of_entry, path_to_post, BellStream, Wake};
use treff::tree::write_json;

fn file(name: &str, text: &str) -> File {
    File { name: name.into(), text: Some(text.into()) }
}

const TODAY: &str = "2026-09-06";

fn article(title: &str, prose: &str) -> String {
    format!("---\ntitle: {title}\nkind: note\n---\n\n{prose}\n")
}

const GOOD: &str = "---\ntitle: Hello\n---\nFirst line.\n";

#[test]
fn a_date_is_read_from_the_name() {
    let (day, second) = date_of("2026-01-15-hello.md").expect("date");
    assert_eq!(day, "2026-01-15");
    assert_eq!(second, 1_768_435_200);
    assert_eq!(day_start("2026-01-15"), 1_768_435_200);
    assert_eq!(midnight(2_440_588), 0);
    assert_eq!(date_of("2026-02-30-hello.md"), None);
    assert_eq!(date_of("hello.md"), None);
}

#[test]
fn the_front_matter_is_taken_off() {
    let (title, body) = split_front_matter(GOOD, "title").expect("article");
    assert_eq!(title, "Hello");
    assert!(body.starts_with("First line."), "{body:?}");
    let (title, body) =
        split_front_matter("---\ntitle: A\n---\n---\nProse\n", "title").expect("article");
    assert_eq!((title.as_str(), body.as_str()), ("A", "---\nProse"), "a rule is prose");
    assert!(split_front_matter("no front matter", "title").is_none());
    assert!(split_front_matter(GOOD, "titel").is_none());
}

#[test]
fn a_file_dated_in_the_future_waits_for_its_day() {
    let files = vec![
        file("2026-09-01-now.md", &article("Now", "text")),
        file("2026-09-20-later.md", &article("Later", "not yet")),
    ];
    let titles = |today: &str| -> Vec<String> {
        let mut found = mirror(&files, "title", today).articles;
        found.sort_by_key(|a| std::cmp::Reverse(a.published_at));
        found.into_iter().map(|a| a.title).collect()
    };
    assert_eq!(titles(TODAY), vec!["Now"], "the draft was published");
    assert_eq!(titles("2026-09-20"), vec!["Later", "Now"]);
}

#[test]
fn a_broken_file_is_skipped_and_the_others_still_arrive() {
    let files = vec![
        file("2026-09-01-fine.md", &article("Fine", "text")),
        file("2026-09-02-no-front-matter.md", "just prose\n"),
        file("2026-09-03-empty-title.md", &article("", "text")),
        file("no-date-at-all.md", &article("Undated", "text")),
        file("2026-13-45-impossible.md", &article("Bad", "x")),
        file("2026-09-04-not-markdown.txt", "ignored entirely"),
    ];
    let found = mirror(&files, "title", TODAY);
    let titles: Vec<&str> = found.articles.iter().map(|a| a.title.as_str()).collect();
    assert_eq!(titles, vec!["Fine"]);
    assert_eq!(found.articles.len(), 1);
    assert_eq!(found.skipped, 4, "the .txt is not an article and is not a complaint either");
}

#[test]
fn a_file_that_cannot_be_read_is_skipped() {
    let files = vec![
        File { name: "2026-09-01-a.md".into(), text: None },
        file("2026-09-02-b.md", &article("B", "text")),
    ];
    let found = mirror(&files, "title", TODAY);
    assert_eq!((found.articles.len(), found.skipped), (1, 1));
}

#[test]
fn mirroring_again_changes_nothing() {
    let article = read_article(&file("2026-01-15-a.md", GOOD), "title").expect("article");
    let (topic, post) = upsert(&None, "blog.example.org", "articles", &article);
    assert_eq!((topic.id, post.id), (None, None));
    assert_eq!(topic.created_at, article.published_at);
    let stored = StoredArticle { id: 5, updated_at: topic.updated_at, opening: Some(9) };
    let (again, opening) = upsert(&Some(stored), "blog.example.org", "articles", &article);
    assert_eq!((again.id, opening.id), (Some(5), Some(9)));
    assert_eq!(again.updated_at, topic.updated_at);
    assert_eq!(again.title, topic.title);
    assert_eq!(opening.body, post.body);
}

#[test]
fn a_comment_keeps_its_article_up_when_the_file_is_read_again() {
    let article = read_article(&file("2026-01-15-a.md", GOOD), "title").expect("article");
    let later = article.published_at + 1000;
    let stored = StoredArticle { id: 5, updated_at: later, opening: Some(9) };
    let (again, _) = upsert(&Some(stored), "blog.example.org", "articles", &article);
    assert_eq!(again.updated_at, later);
}

#[test]
fn a_file_that_disappears_takes_the_article() {
    let shown = vec![
        Shown { id: 1, source_key: "a".into() },
        Shown { id: 2, source_key: "b".into() },
    ];
    assert_eq!(hide_missing(&shown, &["a".to_string()]), vec![2]);
    assert_eq!(hide_missing(&shown, &[]), vec![1, 2]);
}

#[test]
fn an_article_is_written_by_nobody_who_can_sign_in() {
    let author = article_author();
    assert_eq!(author.subject, ARTICLE_SUBJECT);
    assert!(author.groups.is_empty());
}

#[test]
fn a_space_names_where_its_articles_lie() {
    let text = r#"
[[space]]
host = "blog.example.org"
title = "Blog"
view = "timeline"
read = ["Friends"]
articles = "/srv/articles"
  [[space.category]]
  slug = "articles"
  title = "Articles"
  post = []
  reply = ["Friends"]
"#;
    let config = Config::parse(text).expect("config");
    let source = source_of(&config.spaces[0]).expect("ok").expect("some");
    assert_eq!((source.directory.as_str(), source.category.as_str()), ("/srv/articles", "articles"));
    let plain = Config::parse(&text.replace("articles = \"/srv/articles\"\n", "")).expect("config");
    assert!(source_of(&plain.spaces[0]).expect("ok").is_none());
}

fn mention(space: &str) -> Entry {
    Entry::Mention {
        topic_id: 7,
        topic_title: "T".into(),
        post_id: 9,
        author: "Grace".into(),
        space: space.into(),
        at: 5,
        unread: true,
    }
}

#[test]
fn a_bell_entry_leads_to_its_own_host() {
    assert_eq!(link_base("forum.example.org", "forum.example.org"), "");
    assert_eq!(link_base("blog.example.org", "forum.example.org"), "https://blog.example.org");
    assert_eq!(path_to_post(7, 9), "/t/7#p9");
    assert_eq!(path_of_entry(&mention("forum.example.org")), "/t/7#p9");
    let text = write_json(&bell_json(
        1,
        &[mention("forum.example.org"), mention("blog.example.org")],
        "forum.example.org",
    ));
    let read: serde_json::Value = serde_json::from_str(&text).expect("json");
    assert_eq!(read["unread"], 1);
    assert_eq!(read["entries"][0]["link"], "/t/7#p9");
    assert_eq!(read["entries"][1]["link"], "https://blog.example.org/t/7#p9");
}

#[test]
fn only_news_is_sent() {
    let mut stream = BellStream::new();
    assert_eq!(stream.hear(Some("a".into())).as_deref(), Some("a"));
    assert_eq!(stream.hear(Some("a".into())), None);
    assert_eq!(stream.hear(None), None, "a failed read is not the end");
    assert_eq!(stream.hear(Some("a".into())), None);
    assert_eq!(stream.hear(Some("b".into())).as_deref(), Some("b"));
    assert!(asks(Wake::Connected) && asks(Wake::Changed) && asks(Wake::FellBehind));
    assert!(!asks(Wake::Closed));
}

#[test]
fn it_refuses_to_overwrite_an_existing_file() {
    assert!(matches!(export("/tmp/copy.db", true), Err(ExportError::Exists)));
    assert!(ExportError::Exists.message("/tmp/copy.db").contains("/tmp/copy.db"));
}

#[test]
fn it_refuses_a_path_it_cannot_quote() {
    assert!(matches!(export("/tmp/it's.db", false), Err(ExportError::Unquotable)));
    assert_eq!(export("/tmp/copy.db", false).expect("sql"), "VACUUM INTO '/tmp/copy.db'");
}
