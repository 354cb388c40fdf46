//! The door, the forms, and what is answered.
use treff::auth::oidc::PendingLogin;
use treff::authz::Identity;
use treff::config::{Config, Space};
use treff::db::likes::Outcome;
use treff::db::topics::Deleted;
use treff::media::MediaType;
use treff::web::{
    after_deleting, after_liking, attach, callback, change_subscription, checked_body, checked_title,
    delete_question, edit_post, login_redirect, may_answer, not_modified, open_event, open_topic,
    parse_pending, pending_cookie, pending_value, redirect_uri_for, reply, require_session,
    safe_return_path, same_origin_enough, searchable, session_cookie, set_mention_mail,
    space_category, space_index, topic_path, unsubscribe_now, usable_cookie_key, CallbackQuery,
    Door, EditPost, Front, MentionMail, NewReply, NewTopic, Refusal, SameSite, Told, WayOut,
    MAX_BODY_BYTES, MAX_TITLE_CHARS, PENDING_COOKIE, SESSION_COOKIE,
};

#[test]
fn only_a_path_on_this_site_is_a_place_to_return_to() {
    assert_eq!(safe_return_path(Some("/t/128")), "/t/128");
    assert_eq!(
        safe_return_path(Some("/c/general?page=2")),
        "/c/general?page=2"
    );
    for wrong in [
        "https://evil.example.org/",
        "//evil.example.org/",
        "/\\evil.example.org/",
        "/auth/login",
        "/auth/callback?code=x",
        "t/128",
        "/t/1\n/x",
        "",
    ] {
        assert_eq!(safe_return_path(Some(wrong)), "/", "{wrong:?} was followed");
    }
    assert_eq!(safe_return_path(None), "/");
}

#[test]
fn a_pending_cookie_from_before_the_page_was_remembered_still_parses() {
    let (pending, return_to) = parse_pending("s\nn\nv").expect("three lines");
    assert_eq!((pending.state.as_str(), return_to.as_str()), ("s", "/"));
    let (_, return_to) = parse_pending("s\nn\nv\n/t/7").expect("four lines");
    assert_eq!(return_to, "/t/7");
    assert!(parse_pending("s\nn\nv\n/t/7\nextra").is_none());
}

#[test]
fn a_title_of_whitespace_is_no_title() {
    assert!(checked_title("   \t \n ").is_err());
    assert_eq!(checked_title("  Hello  ").as_deref(), Ok("Hello"));
}

#[test]
fn the_limits_count_what_they_say_they_count() {
    let two_hundred: String = "\u{e4}".repeat(MAX_TITLE_CHARS);
    assert!(
        checked_title(&two_hundred).is_ok(),
        "200 characters refused"
    );
    assert!(checked_title(&format!("{two_hundred}x")).is_err());

    let body = "b".repeat(MAX_BODY_BYTES);
    assert!(checked_body(&body).is_ok());
    assert!(checked_body(&format!("{body}x")).is_err());
}

#[test]
fn checking_a_checked_text_changes_nothing() {
    let once = checked_title("  Hello  ").expect("title");
    assert_eq!(checked_title(&once), Ok(once.clone()));
    let once = checked_body("\n Hello\n").expect("body");
    assert_eq!(checked_body(&once), Ok(once.clone()));
}

#[test]
fn a_sign_in_gets_back_the_page_it_began_on() {
    let pending = PendingLogin { state: "s".into(), nonce: "n".into(), pkce_verifier: "v".into() };
    let value = pending_value(&pending, "/t/7");
    let (back, page) = parse_pending(&value).expect("pending");
    assert_eq!((back.state.as_str(), back.nonce.as_str()), ("s", "n"));
    assert_eq!((back.pkce_verifier.as_str(), page.as_str()), ("v", "/t/7"));
}

#[test]
fn each_space_has_its_own_way_back() {
    assert_eq!(redirect_uri_for("forum.example.org"), "https://forum.example.org/auth/callback");
}

#[test]
fn the_door_asks_in_one_order_and_lets_two_paths_through() {
    assert_eq!(require_session(false, true, "/", true), Door::Refuse(Refusal::UnknownHost));
    assert_eq!(require_session(true, false, "/", true), Door::Refuse(Refusal::Foreign));
    assert_eq!(require_session(true, true, "/auth/login", false), Door::Pass);
    assert_eq!(require_session(true, true, "/t/1", false), Door::SignIn);
    assert_eq!(require_session(true, true, "/t/1", true), Door::Pass);
}

#[test]
fn a_write_from_another_site_is_foreign() {
    assert!(same_origin_enough("GET", None));
    assert!(same_origin_enough("GET", Some(b"cross-site")));
    assert!(same_origin_enough("POST", Some(b"same-origin")));
    assert!(!same_origin_enough("POST", Some(b"cross-site")));
    assert!(!same_origin_enough("POST", Some(b"same-site")));
}

#[test]
fn signing_in_remembers_a_page_and_not_a_form() {
    assert_eq!(login_redirect("GET", Some("/t/7")), "/auth/login?next=%2Ft%2F7");
    assert_eq!(login_redirect("POST", Some("/t/7")), "/auth/login");
}

#[test]
fn a_callback_needs_a_code_a_state_and_a_beginning() {
    let query = |code: Option<&str>, error: Option<&str>| CallbackQuery {
        code: code.map(String::from),
        state: Some("s".into()),
        error: error.map(String::from),
    };
    let done = callback(query(Some("c"), None), Some("s\nn\nv\n/t/7")).expect("returned");
    assert_eq!((done.code.as_str(), done.state.as_str()), ("c", "s"));
    assert_eq!(done.return_to, "/t/7");
    assert_eq!(
        callback(query(None, Some("denied")), Some("s\nn\nv")).expect_err("refused"),
        Refusal::ProviderRefused
    );
    assert_eq!(
        callback(query(None, None), Some("s\nn\nv")).expect_err("refused"),
        Refusal::NotACallback
    );
    assert_eq!(
        callback(query(Some("c"), None), None).expect_err("refused"),
        Refusal::NotBegun
    );
    assert_eq!(
        callback(query(Some("c"), None), Some("garbage")).expect_err("refused"),
        Refusal::NotBegun
    );
}

const SPACES: &str = r#"
[[space]]
host = "forum.example.org"
title = "Forum"
view = "topics"
read = ["Friends", "Guests"]
attachment_max_bytes = 64
  [[space.category]]
  slug = "general"
  title = "General"
  post = ["Friends"]
  reply = ["Friends"]
"#;

fn forum() -> Space {
    let mut config = Config::parse(SPACES).expect("config");
    config.spaces.remove(0)
}

fn person(group: &str) -> Identity {
    Identity {
        subject: "sub-1".into(),
        name: "Ada".into(),
        groups: vec![group.into()],
        email: None,
        handle: None,
    }
}

#[test]
fn opening_a_topic_asks_for_the_right_and_then_for_the_words() {
    let form = |title: &str, body: &str| NewTopic { title: title.into(), body: body.into() };
    let good = open_topic(&forum(), "general", &person("Friends"), &form(" T ", " B "))
        .expect("opened");
    assert_eq!((good.title.as_str(), good.body.as_str()), ("T", "B"));
    let no = |who: &str, slug: &str, f: NewTopic| {
        open_topic(&forum(), slug, &person(who), &f).expect_err("refused")
    };
    assert_eq!(no("Strangers", "general", form("T", "B")), Refusal::Forbidden);
    assert_eq!(no("Guests", "general", form("T", "B")), Refusal::Forbidden);
    assert_eq!(no("Friends", "other", form("T", "B")), Refusal::NotFound);
    assert_eq!(no("Friends", "general", form(" ", "B")), Refusal::NoTitle);
    assert_eq!(no("Friends", "general", form("T", " ")), Refusal::NoText);
    assert_eq!(
        no("Friends", "general", form(&"x".repeat(201), "B")),
        Refusal::LongTitle
    );
    assert_eq!(
        no("Friends", "general", form("T", &"x".repeat(65537))),
        Refusal::LongText
    );
}

#[test]
fn a_reply_is_for_those_who_may_reply() {
    let form = || NewReply { body: " hello ".into() };
    assert_eq!(
        reply(&forum(), Some("general"), &person("Friends"), &form()),
        Ok("hello".to_string())
    );
    assert_eq!(
        reply(&forum(), Some("general"), &person("Guests"), &form()),
        Err(Refusal::Forbidden)
    );
    assert_eq!(reply(&forum(), None, &person("Friends"), &form()), Err(Refusal::NotFound));
    assert_eq!(may_answer(&forum(), Some("general"), &person("Friends")), None);
}

#[test]
fn an_edit_is_read_like_a_reply() {
    let form = |body: &str| EditPost { body: body.into() };
    assert_eq!(edit_post(&forum(), &person("Guests"), &form(" b ")), Ok("b".to_string()));
    assert_eq!(edit_post(&forum(), &person("Guests"), &form(" ")), Err(Refusal::NoText));
    assert_eq!(
        edit_post(&forum(), &person("Strangers"), &form("b")),
        Err(Refusal::Forbidden)
    );
}

#[test]
fn after_a_deletion_the_reader_is_somewhere_that_exists() {
    assert_eq!(topic_path(Some(7)), "/t/7");
    assert_eq!(topic_path(None), "/");
    assert_eq!(after_deleting(Deleted::Post, Some(7)), Ok("/t/7".to_string()));
    assert_eq!(after_deleting(Deleted::Topic, Some(7)), Ok("/".to_string()));
    assert_eq!(after_deleting(Deleted::HasReplies, Some(7)), Err(Refusal::HasReplies));
    assert_eq!(after_deleting(Deleted::NotYours, Some(7)), Err(Refusal::Forbidden));
    assert_eq!(delete_question(&forum(), &person("Friends"), Some("sub-1")), None);
    assert_eq!(
        delete_question(&forum(), &person("Friends"), Some("sub-2")),
        Some(Refusal::Forbidden)
    );
    assert_eq!(delete_question(&forum(), &person("Friends"), None), Some(Refusal::NotFound));
}

#[test]
fn a_switch_is_on_or_off_and_nothing_else() {
    let form = |on: &str| MentionMail { on: on.into() };
    assert_eq!(set_mention_mail(&forum(), &person("Friends"), &form("1")), Ok(true));
    assert_eq!(set_mention_mail(&forum(), &person("Friends"), &form("0")), Ok(false));
    assert_eq!(
        set_mention_mail(&forum(), &person("Friends"), &form("yes")),
        Err(Refusal::NotASwitch)
    );
    assert_eq!(
        set_mention_mail(&forum(), &person("Strangers"), &form("1")),
        Err(Refusal::Forbidden)
    );
    assert_eq!(change_subscription(&forum(), &person("Friends"), true), None);
    assert_eq!(
        change_subscription(&forum(), &person("Friends"), false),
        Some(Refusal::NotFound)
    );
}

#[test]
fn an_upload_is_what_its_bytes_say() {
    let gif = b"GIF89a......";
    let up = attach(&forum(), Some("general"), &person("Friends"), Some(gif), " cat ", "ab12")
        .expect("upload");
    assert_eq!(up.media_type, MediaType::Gif);
    assert_eq!(up.bytes, gif.to_vec());
    assert!(up.body.contains("/a/ab12"), "{}", up.body);
    assert!(up.body.contains("cat"), "{}", up.body);
    let no = |bytes: Option<&[u8]>| {
        attach(&forum(), Some("general"), &person("Friends"), bytes, "", "ab12")
            .expect_err("refused")
    };
    assert_eq!(no(None), Refusal::NoFile);
    assert_eq!(no(Some(b"<svg></svg>......")), Refusal::Unsupported);
    assert_eq!(no(Some(&[0u8; 65])), Refusal::TooLarge);
}

#[test]
fn the_way_out_follows_the_row_and_not_the_visitor() {
    let row = |reason: &str| {
        Some(Told { subject: "sub-1".into(), topic_id: 7, reason: reason.into() })
    };
    assert!(matches!(unsubscribe_now(false, row("reply")), WayOut::NotFound));
    match unsubscribe_now(true, row("mention")) {
        WayOut::MentionsOff(who) => assert_eq!(who, "sub-1"),
        other => panic!("{other:?}"),
    }
    match unsubscribe_now(true, row("reply")) {
        WayOut::Unfollow(who, topic) => assert_eq!((who.as_str(), topic), ("sub-1", 7)),
        other => panic!("{other:?}"),
    }
    assert!(matches!(unsubscribe_now(true, None), WayOut::Nothing));
}

#[test]
fn nobody_without_the_group_sees_any_page() {
    let stranger = person("Strangers");
    assert!(matches!(space_index(&forum(), &stranger), Front::Refuse(Refusal::Forbidden)));
    assert!(matches!(space_index(&forum(), &person("Guests")), Front::Sections));
    assert_eq!(
        space_category(&forum(), &stranger, "general"),
        Some(Refusal::Forbidden)
    );
    assert_eq!(space_category(&forum(), &person("Guests"), "general"), None);
    assert_eq!(
        space_category(&forum(), &person("Guests"), "other"),
        Some(Refusal::NotFound)
    );
    assert_eq!(searchable(&forum(), &stranger), Err(Refusal::Forbidden));
    assert_eq!(searchable(&forum(), &person("Guests")), Ok(vec!["general".to_string()]));
}

#[test]
fn an_event_leads_where_it_says() {
    let who = person("Guests");
    assert_eq!(open_event(&forum(), &who, None), Err(Refusal::NotFound));
    assert_eq!(
        open_event(&forum(), &who, Some(None)),
        Ok("/notifications".to_string())
    );
    assert_eq!(
        open_event(&forum(), &who, Some(Some("https://films.example.org/1".into()))),
        Ok("https://films.example.org/1".to_string())
    );
}

#[test]
fn a_picture_already_held_is_not_sent_again() {
    assert!(not_modified("\"ab12\"", Some("\"ab12\"")));
    assert!(!not_modified("\"ab12\"", Some("\"ab13\"")));
    assert!(!not_modified("\"ab12\"", None));
    assert!(usable_cookie_key(&[1u8; 64]));
    assert!(!usable_cookie_key(&[1u8; 63]));
}

#[test]
fn a_cookie_is_out_of_reach_of_scripts_and_plain_connections() {
    let session = session_cookie("ab12".into());
    assert_eq!((session.name.as_str(), session.value.as_str()), (SESSION_COOKIE, "ab12"));
    assert!(session.http_only && session.secure);
    assert_eq!((session.same_site, session.path.as_str()), (SameSite::Lax, "/"));
    assert_eq!(session.minutes, None);
    let pending = pending_cookie("x".into());
    assert_eq!((pending.name.as_str(), pending.value.as_str()), (PENDING_COOKIE, "x"));
    assert!(pending.http_only && pending.secure);
    assert_eq!((pending.same_site, pending.path.as_str()), (SameSite::Lax, "/auth"));
    assert_eq!(pending.minutes, Some(10));
}

#[test]
fn a_click_on_the_heart_leads_back_to_the_post() {
    let on = Outcome::Toggled { liked: true, count: 1, topic_id: 7 };
    assert_eq!(after_liking(on, 9), Ok("/t/7#p9".to_string()));
    assert_eq!(after_liking(Outcome::OwnPost, 9), Err(Refusal::Forbidden));
    assert_eq!(after_liking(Outcome::NotFound, 9), Err(Refusal::NotFound));
}

#[test]
fn every_refusal_has_a_status_and_words() {
    for (refusal, status) in [
        (Refusal::UnknownHost, 403),
        (Refusal::Foreign, 403),
        (Refusal::Forbidden, 403),
        (Refusal::NotFound, 404),
        (Refusal::NoTitle, 400),
        (Refusal::TooLarge, 413),
        (Refusal::Unsupported, 415),
        (Refusal::HasReplies, 409),
    ] {
        assert_eq!(refusal.status(), status, "{refusal:?}");
        assert!(!refusal.as_str().is_empty(), "{refusal:?}");
    }
}
