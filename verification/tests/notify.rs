//! Mail, webhook, and the way out of both.
use base64::Engine as _;
use hmac::{KeyInit as _, Mac as _};
use treff::config::Config;
use treff::db::outbox::{due, given_up, OutboxRow, Owed};
use treff::db::topics::{Post, Topic};
use treff::notify::mail::{
    body_parts, escape, parse_port, subject, unsubscribe_headers, Settings as Mail,
    SettingsError as MailError,
};
use treff::notify::unsubscribe::{load_or_create_key, token, verify};
use treff::notify::webhook::{
    authorization, refusal, request_body, Settings as Webhook, SettingsError as WebhookError,
};
use treff::notify::{
    compose, may_be_told, read_secret, settle, Attempt, Message, SecretError, SecretFile, Verdict,
};

fn key() -> Vec<u8> {
    vec![7u8; 64]
}

fn file(path: &str, contents: &str) -> SecretFile {
    SecretFile { path: path.into(), contents: Ok(contents.into()) }
}

fn unreadable(path: &str) -> SecretFile {
    SecretFile { path: path.into(), contents: Err("No such file".into()) }
}

fn message() -> Message {
    Message {
        to: "a@example.org".into(),
        space_title: "F".into(),
        topic_title: "T".into(),
        author: "<script>".into(),
        body: "a & b".into(),
        link: "https://example.org/t/1".into(),
        unsubscribe: None,
    }
}

#[test]
fn a_token_belongs_to_one_row_and_no_other() {
    let k = key();
    assert!(verify(&k, 42, &token(&k, 42)));
    assert!(!verify(&k, 43, &token(&k, 42)), "a token for another row is not a token");
}

#[test]
fn a_token_from_another_key_is_refused() {
    assert!(!verify(&[9u8; 64], 42, &token(&key(), 42)));
}

#[test]
fn garbage_is_refused_without_a_hint() {
    let k = key();
    for wrong in ["", "!!!!", "AAAA", &token(&k, 42)[..8], "a".repeat(200).as_str()] {
        assert!(!verify(&k, 42, wrong), "{wrong:?} was accepted");
    }
}

#[test]
fn a_token_is_the_first_half_of_the_mac_in_url_safe_base64() {
    let mut mac = hmac::Hmac::<sha2::Sha256>::new_from_slice(&key()).expect("key");
    mac.update(b"treff-unsubscribe-v1:42");
    let tag = mac.finalize().into_bytes();
    let expected = base64::engine::general_purpose::URL_SAFE_NO_PAD.encode(&tag[..16]);
    assert_eq!(token(&key(), 42), expected);
    assert_eq!(expected.len(), 22);
}

#[test]
fn a_key_is_kept_if_it_is_long_enough_and_made_otherwise() {
    let (kept, fresh) = load_or_create_key(Some(key())).expect("key");
    assert_eq!((kept, fresh), (key(), false));
    let (made, fresh) = load_or_create_key(None).expect("key");
    assert!(fresh);
    assert_eq!(made.len(), 64);
    let (other, _) = load_or_create_key(None).expect("key");
    assert_ne!(made, other);
}

#[test]
fn no_url_means_no_webhook_and_not_an_error() {
    assert!(Webhook::from_env(None, None, None).expect("ok").is_none());
}

#[test]
fn something_that_is_not_a_url_is_refused() {
    let err = Webhook::from_env(Some("ntfy.example.org/treff".into()), None, None)
        .expect_err("must refuse");
    assert!(matches!(err, WebhookError::Address));
    assert!(err.message().contains("http(s)"), "{}", err.message());
}

#[test]
fn an_empty_token_file_is_refused_like_a_missing_one() {
    let url = || Some("https://ntfy.example.org/".to_string());
    let err = Webhook::from_env(url(), None, Some(file("/run/token", "\n\n")))
        .expect_err("must refuse");
    assert!(err.message().contains("blank token"), "{}", err.message());
    let err = Webhook::from_env(url(), None, Some(unreadable("/run/token")))
        .expect_err("must refuse");
    assert!(err.message().contains("No such file"), "{}", err.message());
}

#[test]
fn a_webhook_says_who_and_where_but_not_what() {
    let settings = Webhook::from_env(
        Some("https://ntfy.example.org/".into()),
        Some("treff".into()),
        Some(file("/run/token", " tk_1 \n")),
    )
    .expect("ok")
    .expect("some");
    assert_eq!(settings.timeout_seconds, 10);
    assert_eq!(authorization(&settings.token).as_deref(), Some("Bearer tk_1"));
    assert_eq!(authorization(&None), None);
    let body = request_body(&message(), &settings.topic);
    assert!(body.contains("\"topic\":\"treff\""), "{body}");
    assert!(body.contains("https://example.org/t/1"), "{body}");
    assert!(!body.contains("a & b"), "the post itself stays here: {body}");
    assert!(refusal("403 Forbidden", "no").contains("403 Forbidden"));
}

#[test]
fn a_password_without_tls_is_refused() {
    let err = Mail::from_env(
        Some("localhost".into()),
        None,
        Some("treff@example.org".into()),
        None,
        Some(file("/run/secret", "hunter2")),
        Some("0".into()),
    )
    .expect_err("must refuse");
    assert!(matches!(err, MailError::InTheClear));
    assert!(err.message().contains("in the clear"), "{}", err.message());
}

#[test]
fn an_empty_password_file_is_refused_like_a_missing_one() {
    let mail = |secret| {
        Mail::from_env(
            Some("localhost".into()),
            None,
            Some("treff@example.org".into()),
            None,
            Some(secret),
            None,
        )
    };
    let err = mail(file("/run/secret", "   \n")).expect_err("must refuse");
    assert!(err.message().contains("blank password"), "{}", err.message());
    let err = mail(unreadable("/run/secret")).expect_err("must refuse");
    assert!(matches!(err, MailError::Password(SecretError::Unreadable { .. })));
}

#[test]
fn no_host_means_no_mail_and_not_an_error() {
    assert!(Mail::from_env(None, None, None, None, None, None).expect("ok").is_none());
}

#[test]
fn mail_needs_a_sender_and_a_port_that_is_a_number() {
    let host = || Some("localhost".to_string());
    let sender = || Some("treff@example.org".to_string());
    let err = Mail::from_env(host(), None, None, None, None, None).expect_err("no sender");
    assert!(matches!(err, MailError::Sender));
    let err = Mail::from_env(host(), Some("many".into()), sender(), None, None, None)
        .expect_err("no number");
    assert!(matches!(err, MailError::Port));
    let plain = Mail::from_env(host(), Some("25".into()), sender(), None, None, None)
        .expect("ok")
        .expect("some");
    assert_eq!((plain.port, plain.starttls), (25, true));
    let other = Mail::from_env(host(), None, sender(), None, None, Some("0".into()))
        .expect("ok")
        .expect("some");
    assert_eq!((other.port, other.starttls), (587, false));
}

#[test]
fn a_port_is_a_number_of_sixteen_bits() {
    assert_eq!(parse_port("587"), Some(587));
    assert_eq!(parse_port("65535"), Some(65535));
    assert_eq!(parse_port("65536"), None);
    assert_eq!(parse_port("+25"), Some(25));
    for no in ["", "-1", "+", "2 5", "5a", "99999999999999999999"] {
        assert_eq!(parse_port(no), None, "{no:?}");
    }
}

#[test]
fn a_body_is_escaped_on_its_way_into_the_html_part() {
    let (plain, html) = body_parts(&message());
    assert!(html.contains("&lt;script&gt;"), "{html}");
    assert!(html.contains("a &amp; b"), "{html}");
    assert!(!html.contains("<script>"), "somebody else's text arrived as markup: {html}");
    assert!(plain.contains("<script> wrote"), "{plain}");
}

#[test]
fn the_five_characters_of_markup_are_escaped() {
    assert_eq!(escape("<a href=\"x\">'&</a>").matches('<').count(), 0);
    assert_eq!(escape("<>&"), "&lt;&gt;&amp;");
    assert_eq!(escape("plain"), "plain");
}

#[test]
fn only_a_mail_with_a_way_out_carries_the_headers() {
    assert_eq!(unsubscribe_headers(&message()), None);
    let mut with = message();
    with.unsubscribe = Some("https://example.org/unsubscribe/1?token=x".into());
    let (list, post) = unsubscribe_headers(&with).expect("headers");
    assert_eq!(list, "<https://example.org/unsubscribe/1?token=x>");
    assert_eq!(post, "List-Unsubscribe=One-Click");
    assert!(subject(&with).contains('T'));
}

const SPACES: &str = r#"
[[space]]
host = "forum.example.org"
title = "Forum"
view = "topics"
read = ["Friends"]
  [[space.category]]
  slug = "general"
  title = "General"
  post = ["Friends"]
  reply = ["Friends"]
"#;

fn owed(kanal: &str) -> Owed {
    Owed {
        id: 42,
        subject: "sub-1".into(),
        kanal: kanal.into(),
        topic_id: 7,
        post_id: 9,
        space: "forum.example.org".into(),
        attempts: 0,
    }
}

fn topic() -> Topic {
    Topic {
        id: 7,
        space: "forum.example.org".into(),
        category: "general".into(),
        title: "Hello".into(),
        author_subject: "sub-2".into(),
        author_name: "Grace".into(),
        created_at: 1,
        updated_at: 2,
        dated_by_day: false,
    }
}

fn reply() -> Post {
    Post {
        id: 9,
        topic_id: 7,
        body_markdown: "Hi **there**".into(),
        author_subject: "sub-2".into(),
        author_name: "Grace".into(),
        created_at: 2,
        updated_at: 2,
        edited: false,
    }
}

#[test]
fn a_mail_carries_a_way_out_that_works() {
    let config = Config::parse(SPACES).expect("config");
    let m = compose(
        &owed("mail"),
        Some("ada@example.org".into()),
        &config,
        &Some(topic()),
        &[reply()],
        &key(),
    )
    .expect("message");
    assert_eq!(m.to, "ada@example.org");
    assert_eq!((m.space_title.as_str(), m.topic_title.as_str()), ("Forum", "Hello"));
    assert_eq!(m.author, "Grace");
    assert_eq!(m.body, "Hi **there**");
    assert_eq!(m.link, "https://forum.example.org/t/7");
    let way_out = m.unsubscribe.expect("a way out");
    assert_eq!(way_out, format!("https://forum.example.org/u/42/{}", token(&key(), 42)));
}

#[test]
fn nothing_to_send_to_is_done_rather_than_retried_forever() {
    let config = Config::parse(SPACES).expect("config");
    let none = compose(&owed("mail"), None, &config, &Some(topic()), &[reply()], &key());
    assert!(none.is_none(), "no address");
    let none = compose(
        &owed("mail"),
        Some("ada@example.org".into()),
        &config,
        &None,
        &[],
        &key(),
    );
    assert!(none.is_none(), "no topic");
    let verdict = settle(&owed("mail"), &Attempt::Nothing, 100);
    assert!(matches!(verdict, Verdict::Done { delivered: false }));
    assert!(due(&[after(verdict)], i64::MAX, "mail", 10).is_empty(), "and it is not owed again");
}

/// The row once the verdict on it is written down.
fn after(verdict: Verdict) -> OutboxRow {
    match verdict {
        Verdict::Done { .. } => OutboxRow { owed: owed("mail"), sent: true, next_try_at: 0 },
        Verdict::Failed(failure) => OutboxRow {
            owed: Owed { attempts: failure.attempts, ..owed("mail") },
            sent: false,
            next_try_at: failure.next_try_at,
        },
    }
}

#[test]
fn a_drained_row_is_not_owed_again() {
    let row = OutboxRow { owed: owed("mail"), sent: false, next_try_at: 0 };
    let first = due(&[row], 100, "mail", 10);
    assert_eq!(first.len(), 1);
    let verdict = settle(&first[0], &Attempt::Delivered, 100);
    assert!(matches!(verdict, Verdict::Done { delivered: true }));
    assert!(due(&[after(verdict)], i64::MAX, "mail", 10).is_empty(), "nothing is sent twice");
}

#[test]
fn a_refused_row_is_kept_and_tried_again_later() {
    let verdict = settle(&owed("mail"), &Attempt::Refused("no".into()), 100);
    match &verdict {
        Verdict::Failed(failure) => {
            assert_eq!(failure.attempts, 1);
            assert!(failure.next_try_at > 100);
            assert_eq!(failure.last_error, "no");
        }
        other => panic!("{other:?}"),
    }
    let row = after(verdict);
    assert!(due(std::slice::from_ref(&row), 100, "mail", 10).is_empty(), "not right now");
    assert_eq!(due(std::slice::from_ref(&row), row.next_try_at, "mail", 10).len(), 1);
    assert_eq!(given_up(&[row]), 0);
}

#[test]
fn a_mention_is_for_whoever_may_read_now() {
    let config = Config::parse(SPACES).expect("config");
    let host = "forum.example.org";
    let friends = Some("[\"Friends\"]");
    assert!(may_be_told(Some("mention"), friends, &config, host));
    assert!(!may_be_told(Some("mention"), Some("[]"), &config, host), "no longer a reader");
    assert!(!may_be_told(Some("mention"), None, &config, host), "no account");
    assert!(!may_be_told(Some("mention"), friends, &config, "gone.example.org"));
    assert!(may_be_told(Some("reply"), None, &config, host));
    assert!(may_be_told(None, None, &config, host));
}

#[test]
fn a_secret_is_trimmed_and_must_not_be_blank() {
    assert!(matches!(read_secret(None), Ok(None)));
    match read_secret(Some(file("/run/s", " x \n"))) {
        Ok(Some(secret)) => assert_eq!(secret, "x"),
        other => panic!("{other:?}"),
    }
    assert!(matches!(read_secret(Some(file("/run/s", " \n"))), Err(SecretError::Blank { .. })));
    assert!(matches!(read_secret(Some(unreadable("/run/s"))), Err(SecretError::Unreadable { .. })));
}
