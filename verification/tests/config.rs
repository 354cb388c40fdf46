//! Reading a configuration, and refusing one.
use treff::config::{Config, ConfigError, View};

const EXAMPLE: &str = r#"
[[space]]
host  = "blog.example.org"
title = "Notes"
view  = "timeline"
read  = ["Household"]

  [[space.category]]
  slug  = "notes"
  title = "Notes"
  post  = ["Writers"]
  reply = ["Household"]

[[space]]
host  = "forum.example.org"
title = "Forum"
view  = "topics"
read  = ["Household", "Friends"]

  [[space.category]]
  slug  = "general"
  title = "General"
  post  = ["Household", "Friends"]
  reply = ["Household", "Friends"]
"#;

#[test]
fn a_configuration_without_a_zone_leaves_the_choice_to_the_machine() {
    let c = Config::parse(EXAMPLE).expect("valid");
    assert_eq!(c.timezone, None);
}

#[test]
fn a_named_zone_is_read_and_kept() {
    let mut text = String::from("timezone = \"Europe/Berlin\"\n");
    text.push_str(EXAMPLE);
    let c = Config::parse(&text).expect("valid");
    assert_eq!(c.timezone.as_deref(), Some("Europe/Berlin"));
}

#[test]
fn a_zone_nobody_has_heard_of_stops_the_program() {
    let mut text = String::from("timezone = \"Mittelerde/Auenland\"\n");
    text.push_str(EXAMPLE);
    assert!(matches!(
        Config::parse(&text),
        Err(ConfigError::UnknownTimeZone(_))
    ));
}

#[test]
fn reads_two_spaces() {
    let c = Config::parse(EXAMPLE).expect("valid");
    assert_eq!(c.spaces.len(), 2);
    let blog = c.space_for_host("blog.example.org").expect("known host");
    assert_eq!(blog.view, View::Timeline);
    assert_eq!(
        blog.category("notes").expect("category").post,
        vec!["Writers"]
    );
}

#[test]
fn an_unknown_host_is_not_a_space() {
    let c = Config::parse(EXAMPLE).expect("valid");
    assert!(c.space_for_host("evil.example.org").is_none());
}

#[test]
fn the_host_is_matched_without_port_and_case() {
    let c = Config::parse(EXAMPLE).expect("valid");
    assert!(c.space_for_host("BLOG.example.org:443").is_some());
}

#[test]
fn a_duplicate_host_is_refused() {
    let mut twice = String::from(EXAMPLE);
    twice.push_str(
        "\n[[space]]\nhost = \"blog.example.org\"\ntitle = \"x\"\nview = \"topics\"\nread = [\"Household\"]\n\n  [[space.category]]\n  slug = \"a\"\n  title = \"A\"\n  post = []\n  reply = []\n",
    );
    assert!(matches!(
        Config::parse(&twice),
        Err(ConfigError::DuplicateHost(_))
    ));
}

#[test]
fn an_unknown_view_is_refused() {
    let text = EXAMPLE.replace("view  = \"timeline\"", "view  = \"carousel\"");
    assert!(Config::parse(&text).is_err());
}

#[test]
fn a_space_without_categories_is_refused() {
    let text = "[[space]]\nhost = \"a.example.org\"\ntitle = \"A\"\nview = \"topics\"\nread = [\"Household\"]\n";
    assert!(matches!(
        Config::parse(text),
        Err(ConfigError::NoCategories(_))
    ));
}

#[test]
fn a_space_nobody_may_read_is_refused() {
    let text = EXAMPLE.replace("read  = [\"Household\"]", "read  = []");
    assert!(matches!(
        Config::parse(&text),
        Err(ConfigError::NobodyCanRead(_))
    ));
}

#[test]
fn a_category_nobody_may_post_in_is_allowed() {
    let text = EXAMPLE.replace("post  = [\"Writers\"]", "post  = []");
    assert!(Config::parse(&text).is_ok());
}

#[test]
fn a_duplicate_category_slug_in_one_space_is_refused() {
    let text = EXAMPLE.replace(
        "  [[space.category]]\n  slug  = \"general\"",
        "  [[space.category]]\n  slug  = \"general\"\n  title = \"G\"\n  post  = []\n  reply = []\n\n  [[space.category]]\n  slug  = \"general\"",
    );
    assert!(matches!(
        Config::parse(&text),
        Err(ConfigError::DuplicateCategory { .. })
    ));
}

#[test]
fn a_slug_that_is_not_url_safe_is_refused() {
    for bad in ["Gene ral", "general/", "../etc", "General", "", "gene_ral"] {
        let text = EXAMPLE.replace("slug  = \"general\"", &format!("slug  = \"{bad}\""));
        assert!(
            matches!(Config::parse(&text), Err(ConfigError::InvalidSlug { .. })),
            "accepted the slug {bad:?}"
        );
    }
}

#[test]
fn a_space_may_name_an_article_directory() {
    let with = EXAMPLE.replace(
        "view  = \"timeline\"",
        "view  = \"timeline\"\narticles = \"/etc/treff/articles\"",
    );
    let c = Config::parse(&with).expect("valid");
    assert_eq!(
        c.space_for_host("blog.example.org")
            .expect("space")
            .articles
            .as_deref(),
        Some("/etc/treff/articles")
    );
    let plain = Config::parse(EXAMPLE).expect("valid");
    assert!(
        plain
            .space_for_host("forum.example.org")
            .expect("space")
            .articles
            .is_none()
    );
}

#[test]
fn a_misspelled_key_is_refused() {
    let text = EXAMPLE.replace("post  = [\"Writers\"]", "psot  = [\"Writers\"]");
    assert!(Config::parse(&text).is_err());
}

#[test]
fn a_struct_may_be_a_list_and_a_word_a_table() {
    let text = r#"
space = [
  ["a.example.org", "A", "topics", ["Friends"], [["general", "General", ["Friends"]]]],
  { host = "b.example.org", title = "B", view = { timeline = {} }, read = ["Friends"], category = [["notes", "Notes"]] },
]
"#;
    let c = Config::parse(text).expect("valid");
    let a = c.space_for_host("a.example.org").expect("a");
    assert_eq!((a.title.as_str(), a.view, a.read.len()), ("A", View::Topics, 1));
    assert_eq!(a.attachment_max_bytes, 8_388_608);
    let general = a.category("general").expect("general");
    assert_eq!((general.post.len(), general.reply.len()), (1, 0));
    let b = c.space_for_host("b.example.org").expect("b");
    assert_eq!(b.view, View::Timeline);
    assert!(b.category("notes").expect("notes").post.is_empty());
    for wrong in [
        text.replace("{ timeline = {} }", "{ timeline = 1 }"),
        text.replace("{ timeline = {} }", "{ timeline = {}, topics = {} }"),
        text.replace("{ timeline = {} }", "{}"),
        text.replace("[[\"notes\", \"Notes\"]]", "[[\"notes\"]]"),
    ] {
        assert!(matches!(Config::parse(&wrong), Err(ConfigError::Syntax(_))), "{wrong}");
    }
}

#[test]
fn a_size_limit_may_be_any_unsigned_number() {
    let with = |limit: &str| {
        let line = format!("view  = \"topics\"\nattachment_max_bytes = {limit}");
        Config::parse(&EXAMPLE.replace("view  = \"topics\"", &line))
            .map(|c| c.space_for_host("forum.example.org").expect("space").attachment_max_bytes)
    };
    assert_eq!(with("1_000").expect("valid"), 1_000);
    assert_eq!(with("0xff").expect("valid"), 255);
    assert_eq!(with("9223372036854775808").expect("valid"), 9_223_372_036_854_775_808);
    assert_eq!(with("18446744073709551615").expect("valid"), u64::MAX);
    for wrong in ["18446744073709551616", "-1", "1.5", "true", "\"1\""] {
        assert!(matches!(with(wrong), Err(ConfigError::Syntax(_))), "{wrong}");
    }
}

#[test]
fn what_does_not_fit_is_named() {
    let why = |text: &str| match Config::parse(text) {
        Err(ConfigError::Syntax(why)) => why,
        other => panic!("{other:?}"),
    };
    let changed = |from: &str, to: &str| why(&EXAMPLE.replacen(from, to, 1));
    assert_eq!(
        changed("post  = [\"Writers\"]", "psot  = [\"Writers\"]"),
        "unknown field `psot`, expected one of `slug`, `title`, `post`, `reply`"
    );
    assert_eq!(changed("title = \"Notes\"\n  post", "post"), "missing field `title`");
    assert_eq!(changed("host  = \"blog.example.org\"\n", ""), "missing field `host`");
    assert_eq!(changed("\"blog.example.org\"", "7"), "invalid type for `host`, expected a string");
    assert_eq!(
        changed("[\"Writers\"]", "[\"Writers\", 7]"),
        "invalid type for `post`, expected a list of strings"
    );
    assert_eq!(
        changed("\"timeline\"", "\"carousel\""),
        "invalid type for `view`, expected `timeline` or `topics`"
    );
    assert_eq!(why("space = 1"), "invalid type for `space`, expected a list of tables");
    assert_eq!(why("space = [1]"), "invalid type for `space`, expected a table");
    assert_eq!(
        why("zone = 1"),
        "unknown field `zone`, expected one of `timezone`, `space`, `events`"
    );
    assert_eq!(
        why("[events]\nspace = \"a\"\nhosts = []"),
        "unknown field `hosts`, expected `space` or `link_hosts`"
    );
    let limit = EXAMPLE.replacen("view", "attachment_max_bytes = -1\nview", 1);
    assert_eq!(why(&limit), "invalid type for `attachment_max_bytes`, expected u64");
    assert!(why("space = ").contains("line 1"), "the parser's own words");
}
