//! Identity and session.
use base64::Engine as _;
use serde_json::Value;
use treff::auth::oidc::{payload_part, states_match, verified_payload};
use treff::auth::{
    checked_handle, claims_to_identity, id_of, random_id, signed_in, OidcSettings, SessionRow,
    Sessions, SettingsError, SESSION_SECONDS,
};
use treff::authz::Identity;
use treff::tree::{parse_json, Tree};

fn claims(text: &str) -> Tree {
    parse_json(text.as_bytes()).expect("json")
}

fn settings(
    issuer: Option<&str>,
    client_id: Option<&str>,
    file: Option<&str>,
    secret: Result<&str, &str>,
) -> Result<OidcSettings, SettingsError> {
    OidcSettings::from_env(
        issuer.map(String::from),
        client_id.map(String::from),
        file.map(String::from),
        secret.map(String::from).map_err(String::from),
        None,
    )
}

#[test]
fn an_address_is_read_when_there_is_one_and_missed_without_complaint() {
    let with = claims_to_identity(
        "sub-1",
        Some("Ada"),
        &claims(r#"{ "groups": ["Household"], "email": "ada@example.org" }"#),
        "groups",
    );
    assert_eq!(with.email.as_deref(), Some("ada@example.org"));

    let without = claims_to_identity("sub-1", Some("Ada"), &claims("{}"), "groups");
    assert_eq!(without.email, None, "no address is not an error");
    assert_eq!(without.subject, "sub-1", "and changes nothing else");

    let wrong = claims_to_identity("s", None, &claims(r#"{ "email": 42 }"#), "groups");
    assert_eq!(wrong.email, None);
}

#[test]
fn groups_come_from_the_configured_claim() {
    let claims = claims(r#"{ "groups": ["Household", "Writers"] }"#);
    let id = claims_to_identity("sub-1", Some("Ada"), &claims, "groups");
    assert_eq!(id.subject, "sub-1");
    assert_eq!(id.name, "Ada");
    assert_eq!(id.groups, vec!["Household", "Writers"]);
}

#[test]
fn a_different_claim_name_is_honoured() {
    let claims = claims(r#"{ "roles": ["Friends"] }"#);
    let id = claims_to_identity("s", None, &claims, "roles");
    assert_eq!(id.groups, vec!["Friends"]);
}

#[test]
fn a_missing_claim_means_no_groups_not_all_groups() {
    let id = claims_to_identity("s", None, &claims("{}"), "groups");
    assert!(id.groups.is_empty());
}

#[test]
fn a_claim_of_the_wrong_shape_means_no_groups() {
    let id = claims_to_identity("s", None, &claims(r#"{ "groups": "Household" }"#), "groups");
    assert!(id.groups.is_empty());
}

#[test]
fn non_string_entries_are_dropped_not_stringified() {
    let id = claims_to_identity("s", None, &claims(r#"{ "groups": ["A", 7, null] }"#), "groups");
    assert_eq!(id.groups, vec!["A"]);
}

#[test]
fn without_a_name_the_subject_stands_in() {
    let id = claims_to_identity("sub-9", None, &claims("{}"), "groups");
    assert_eq!(id.name, "sub-9");
}

#[test]
fn the_settings_refuse_to_be_empty() {
    let err = settings(None, None, None, Err("")).expect_err("must refuse");
    assert_eq!(err.message(), "TREFF_OIDC_CLIENT_SECRET_FILE is not set; treff does not start without it");
}

#[test]
fn the_settings_refuse_a_missing_secret_file() {
    let err = settings(
        Some("https://id.example.org/"),
        Some("treff"),
        Some("/nonexistent/secret"),
        Err("No such file"),
    )
    .expect_err("must refuse");
    assert!(matches!(err, SettingsError::Unreadable { .. }));
    assert!(err.message().contains("/nonexistent/secret"), "{}", err.message());
    assert!(err.message().contains("No such file"), "{}", err.message());
}

#[test]
fn an_empty_secret_file_is_refused_like_a_missing_one() {
    let err = settings(
        Some("https://id.example.org/"),
        Some("treff"),
        Some("/run/secret"),
        Ok("   \n"),
    )
    .expect_err("must refuse");
    assert!(matches!(err, SettingsError::Blank(_)));
}

#[test]
fn the_settings_read_the_secret_from_the_file_and_default_the_claim() {
    let s = settings(
        Some("https://id.example.org/"),
        Some("treff"),
        Some("/run/secret"),
        Ok("  s3cret\n"),
    )
    .expect("settings");
    assert_eq!(s.client_secret, "s3cret", "the file is read and trimmed");
    assert_eq!(s.group_claim, "groups", "the default claim name");
}

#[test]
fn the_groups_survive_the_trip_out_of_the_token() {
    let mut payload = serde_json::Map::new();
    payload.insert("sub".into(), "df55fb1b".into());
    payload.insert("name".into(), "Achim".into());
    payload.insert("groups".into(), Value::from(vec!["Haushalt", "Medien"]));
    let encoded = base64::engine::general_purpose::URL_SAFE_NO_PAD
        .encode(Value::Object(payload).to_string());
    let jwt = format!("aGVhZGVy.{encoded}.c2ln");

    let claims = match verified_payload(&jwt) {
        Ok(claims) => claims,
        Err(_) => panic!("payload"),
    };
    let identity = claims_to_identity("df55fb1b", Some("Achim"), &claims, "groups");
    assert_eq!(identity.groups, vec!["Haushalt", "Medien"]);
}

#[test]
fn something_that_is_not_a_jwt_is_an_error_not_an_empty_claim_set() {
    for wrong in ["", "one.two", "a.b.c.d", "header..sig"] {
        assert!(verified_payload(wrong).is_err(), "{wrong:?} was accepted");
    }
    assert!(payload_part("a.b.c").is_ok());
}

#[test]
fn state_comparison_rejects_near_misses() {
    assert!(states_match("abc", "abc"));
    assert!(!states_match("abc", "abd"));
    assert!(!states_match("abc", "abc "));
    assert!(!states_match("abc", "ab"));
    assert!(!states_match("", "abc"));
    assert!(!states_match("", ""));
}

#[test]
fn a_handle_is_small_letters_and_stays_itself() {
    assert_eq!(checked_handle("Konrad").as_deref(), Some("konrad"));
    assert_eq!(checked_handle("konrad").as_deref(), Some("konrad"));
    assert_eq!(checked_handle("k.m-u_9").as_deref(), Some("k.m-u_9"));
    for no in ["", "Konrad Mueller", "k\u{f6}nrad", "a@b"] {
        assert_eq!(checked_handle(no), None, "{no:?}");
    }
    assert!(checked_handle(&"x".repeat(64)).is_some());
    assert!(checked_handle(&"x".repeat(65)).is_none());
}

fn ada() -> Identity {
    Identity {
        subject: "sub-1".into(),
        name: "Ada".into(),
        groups: vec!["Household".into(), "Wr\"iters\u{e4}".into()],
        email: Some("ada@example.org".into()),
        handle: None,
    }
}

#[test]
fn a_session_carries_the_address_back_out_and_survives_without_one() {
    let now = 1_768_470_060;
    let row = Sessions::create(&ada(), now);
    assert_eq!(row.expires_at, now + SESSION_SECONDS);
    assert_eq!(row.groups_json, "[\"Household\",\"Wr\\\"iters\u{e4}\"]");
    let back = Sessions::load(row, now + SESSION_SECONDS - 1).expect("live");
    assert_eq!(back.email.as_deref(), Some("ada@example.org"));
    assert_eq!(back.groups, ada().groups);
    assert_eq!(back.subject, "sub-1");

    let mut plain = ada();
    plain.email = None;
    let row = Sessions::create(&plain, now);
    assert_eq!(Sessions::load(row, now).expect("live").email, None);
}

#[test]
fn an_expired_session_does_not_load() {
    let row = Sessions::create(&ada(), 1_000);
    assert!(Sessions::load(row, 1_000 + SESSION_SECONDS).is_none());
}

#[test]
fn a_damaged_groups_column_grants_nothing() {
    for damaged in ["not json", "{}", "[1]", "\"Household\"", ""] {
        let row = SessionRow {
            subject: "s".into(),
            name: "n".into(),
            groups_json: damaged.into(),
            email: None,
            handle: None,
            created_at: 0,
            expires_at: 10,
        };
        let id = Sessions::load(row, 5).expect("live");
        assert!(id.groups.is_empty(), "{damaged:?}");
    }
}

#[test]
fn session_ids_are_long_and_unpredictable() {
    let mut seen = std::collections::HashSet::new();
    for _ in 0..50 {
        let id = random_id().expect("id");
        assert!(id.len() >= 32, "session id is short: {id}");
        assert_eq!(id.len(), 64);
        assert!(id.chars().all(|c| c.is_ascii_hexdigit()));
        assert!(seen.insert(id), "a session id repeated");
    }
}

#[test]
fn a_sign_in_takes_the_name_or_else_the_preferred_one() {
    let extra = claims(r#"{ "groups": ["Friends"], "email": " ada@example.org " }"#);
    let who = signed_in("sub-1", Some("Ada L"), Some("Ada"), &extra, "groups");
    assert_eq!((who.subject.as_str(), who.name.as_str()), ("sub-1", "Ada L"));
    assert_eq!(who.groups, vec!["Friends"]);
    assert_eq!(who.email.as_deref(), Some("ada@example.org"));
    assert_eq!(who.handle.as_deref(), Some("ada"));
    let who = signed_in("sub-1", None, Some("Ada L"), &extra, "groups");
    assert_eq!((who.name.as_str(), who.handle), ("Ada L", None), "a space is in no handle");
    let who = signed_in("sub-1", None, None, &extra, "roles");
    assert_eq!((who.name.as_str(), who.handle, who.groups.len()), ("sub-1", None, 0));
}

#[test]
fn an_id_is_the_digits_of_what_was_drawn() {
    assert_eq!(id_of(Ok(vec![0, 171, 255])), Ok("00abff".to_string()));
    assert_eq!(id_of(Err("no entropy".into())), Err("no entropy".to_string()));
}
