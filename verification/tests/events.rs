//! Reports of what happened elsewhere.
use treff::config::Events;
use treff::db::events::{checked, Kind, Raw};

fn events() -> Events {
    Events {
        space: "forum.example.org".into(),
        link_hosts: vec!["jellyfin.example.org".into()],
    }
}

fn raw() -> Raw {
    Raw {
        handle: "Konrad".into(),
        kind: "film_available".into(),
        title: "Dune: Part Two".into(),
        link: Some("https://jellyfin.example.org/web/#/details?id=abc".into()),
        reason: None,
        source_key: "seerr:42".into(),
    }
}

#[test]
fn a_good_event_is_taken_as_it_is() {
    let c = checked(raw(), &events()).expect("fine");
    assert_eq!(c.handle, "konrad");
    assert_eq!(c.kind, Kind::FilmAvailable);
    assert_eq!(c.title, "Dune: Part Two");
    assert!(
        c.link
            .as_deref()
            .is_some_and(|l| l.starts_with("https://jellyfin.example.org/"))
    );
}

#[test]
fn what_does_not_fit_is_refused() {
    let e = events();
    let with = |f: fn(&mut Raw)| {
        let mut r = raw();
        f(&mut r);
        checked(r, &e)
    };
    assert!(
        with(|r| r.handle = "Konrad Müller".into()).is_err(),
        "not a handle"
    );
    assert!(
        with(|r| r.kind = "film_approved".into()).is_err(),
        "unknown kind"
    );
    assert!(with(|r| r.title = "  ".into()).is_err(), "empty title");
    assert!(with(|r| r.title = "x".repeat(201)).is_err(), "long title");
    assert!(
        with(|r| r.title = "two\nlines".into()).is_err(),
        "a line break"
    );
    assert!(
        with(|r| r.reason = Some("y".repeat(301))).is_err(),
        "long reason"
    );
    assert!(
        with(|r| r.link = Some("http://jellyfin.example.org/".into())).is_err(),
        "not https"
    );
    assert!(
        with(|r| r.link = Some("https://elsewhere.example/".into())).is_err(),
        "other host"
    );
    assert!(
        with(|r| r.link = Some("https://jellyfin.example.org@elsewhere.example/".into()))
            .is_err(),
        "the right words in front of another host"
    );
    assert!(
        with(|r| r.link = Some("javascript:alert(1)".into())).is_err(),
        "a script"
    );
    assert!(with(|r| r.source_key = "".into()).is_err(), "no key");
    assert!(
        with(|r| r.source_key = "a b".into()).is_err(),
        "a space in the key"
    );
    assert!(
        checked(
            raw(),
            &Events {
                space: "x".into(),
                link_hosts: vec![]
            }
        )
        .is_err(),
        "no allowed host, no link"
    );
    assert!(with(|r| r.link = None).is_ok(), "a link is optional");
}
