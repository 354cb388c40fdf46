//! Texts, orders, trees, and the listener nobody outside sees.
use treff::config::{Config, Events};
use treff::db::events::Raw;
use treff::order::{first_of_each, sorted};
use treff::text::{decimal, find_text, hex, trim, chars};
use treff::tree::{parse_json, write_json, Tree};
use treff::web::internal::{
    bell_for, bell_person, bell_refused, from_env, presents, scim_refused, stored_status, take_event,
    EventAnswer, SettingsError, Tokens,
};
use treff::notify::SecretFile;

fn list(names: &[&str]) -> Vec<String> {
    names.iter().map(|n| n.to_string()).collect()
}

#[test]
fn numbers_are_written_in_full() {
    assert_eq!(decimal(0), "0");
    assert_eq!(decimal(-17), "-17");
    assert_eq!(decimal(i64::MIN), "-9223372036854775808");
    assert_eq!(hex(&[0, 171, 255]), "00abff");
}

#[test]
fn trimming_takes_white_space_of_every_kind() {
    assert_eq!(trim("\u{a0} a b\u{3000}\n"), "a b");
    assert_eq!(trim(" \t "), "");
    assert_eq!(trim(&trim("  x ")), "x");
}

#[test]
fn a_part_is_found_where_it_first_stands() {
    assert_eq!(find_text(&chars("abcabc"), &chars("ca")), Some(2));
    assert_eq!(find_text(&chars("abc"), &chars("x")), None);
    assert_eq!(find_text(&chars("abc"), &[]), Some(0));
}

#[test]
fn lists_are_sorted_and_kept_once() {
    assert_eq!(sorted(list(&["b", "a", "c", "a"])), list(&["a", "a", "b", "c"]));
    assert_eq!(first_of_each(&list(&["b", "a", "b"])), list(&["b", "a"]));
}

#[test]
fn json_is_read_into_a_tree_and_written_back() {
    let tree = parse_json(br#"{"a":[1,true,null,"x"],"b":{"c":"d"}}"#).expect("json");
    assert_eq!(write_json(&tree), r#"{"a":[1,true,null,"x"],"b":{"c":"d"}}"#);
    assert!(parse_json(b"{").is_none());
    assert_eq!(write_json(&Tree::Text("a\"b".into())), r#""a\"b""#);
}

fn secret(text: &str) -> Option<SecretFile> {
    Some(SecretFile { path: "/run/token".into(), contents: Ok(text.into()) })
}

#[test]
fn a_token_needs_a_listener_and_a_listener_needs_no_token() {
    assert!(from_env(None, None, None, None).expect("ok").is_none());
    assert!(matches!(
        from_env(None, secret("t"), None, None),
        Err(SettingsError::NoListener)
    ));
    assert!(matches!(
        from_env(Some("127.0.0.1:1".into()), secret(" "), None, None),
        Err(SettingsError::Token(..))
    ));
    let settings = from_env(Some("127.0.0.1:1".into()), secret(" t\n"), None, None)
        .expect("ok")
        .expect("some");
    assert_eq!(settings.tokens.events, Some(b"t".to_vec()));
    assert_eq!(settings.tokens.bell, None);
}

#[test]
fn a_bearer_presents_the_whole_token() {
    assert!(presents(Some("Bearer abc"), b"abc"));
    assert!(!presents(Some("Bearer abcd"), b"abc"));
    assert!(!presents(Some("abc"), b"abc"));
    assert!(!presents(None, b"abc"));
}

fn tokens() -> Tokens {
    Tokens { events: Some(b"ev".to_vec()), bell: Some(b"bell".to_vec()), scim: None }
}

fn raw() -> Option<Raw> {
    Some(Raw {
        handle: "ada".into(),
        kind: "film_available".into(),
        title: "Film".into(),
        link: None,
        reason: None,
        source_key: "k-1".into(),
    })
}

#[test]
fn an_event_passes_three_questions_in_order() {
    let events = || Some(Events { space: "forum.example.org".into(), link_hosts: vec![] });
    let none = Tokens { events: None, bell: None, scim: None };
    let answer = take_event(&none, Some("Bearer ev"), &events(), raw()).expect_err("no door");
    assert_eq!(answer.status(), 404);
    let answer = take_event(&tokens(), Some("Bearer no"), &events(), raw()).expect_err("stranger");
    assert_eq!(answer.status(), 401);
    let answer = take_event(&tokens(), Some("Bearer ev"), &None, raw()).expect_err("unset");
    assert!(matches!(answer, EventAnswer::Unconfigured));
    let answer =
        take_event(&tokens(), Some("Bearer ev"), &events(), None).expect_err("not an event");
    assert_eq!(answer.status(), 400);
    let taken = take_event(&tokens(), Some("Bearer ev"), &events(), raw()).expect("taken");
    assert_eq!((taken.handle.as_str(), taken.title.as_str()), ("ada", "Film"));
    assert_eq!((stored_status(true), stored_status(false)), (201, 200));
}

#[test]
fn the_bell_of_somebody_unknown_is_silent() {
    let config = Config::parse(
        r#"
[[space]]
host = "forum.example.org"
title = "Forum"
view = "topics"
read = ["Friends"]
  [[space.category]]
  slug = "general"
  title = "General"
  post = ["Friends"]
  reply = ["Friends"]

[events]
space = "forum.example.org"
link_hosts = []
"#,
    )
    .expect("config");
    assert_eq!(bell_refused(&tokens(), Some("Bearer bell")), None);
    assert_eq!(bell_refused(&tokens(), Some("Bearer no")), Some(401));
    assert_eq!(scim_refused(&tokens(), Some("Bearer scim")), Some(404), "no token, no door");
    let open = Tokens { scim: Some(b"scim".to_vec()), ..tokens() };
    assert_eq!(scim_refused(&open, Some("Bearer scim")), None);
    assert_eq!(scim_refused(&open, Some("Bearer bell")), Some(401));
    assert_eq!(scim_refused(&open, None), Some(401));
    let (handle, space) = bell_person(&config, "Ada", "Friends").expect("person");
    assert_eq!((handle.as_str(), space.as_str()), ("ada", "forum.example.org"));
    assert!(bell_person(&config, "Ada", "Strangers").is_none());
    let text = write_json(&bell_for(&config, "Ada", "Strangers", None, &[]));
    let read: serde_json::Value = serde_json::from_str(&text).expect("json");
    assert_eq!(read["unread"], 0);
}
