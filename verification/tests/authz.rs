//! Who may read, post, reply and change.
use treff::authz::{may_modify, may_post, may_read, may_reply, readable, Identity};
use treff::config::{Category, Config, Space, View};

fn who(groups: &[&str]) -> Identity {
    Identity {
        subject: "sub-1".into(),
        name: "Someone".into(),
        groups: groups.iter().map(|g| (*g).to_string()).collect(),
        email: None,
        handle: None,
    }
}

fn category_with(post: &[&str], reply: &[&str]) -> Category {
    Category {
        slug: "k".into(),
        title: "K".into(),
        post: post.iter().map(|g| (*g).to_string()).collect(),
        reply: reply.iter().map(|g| (*g).to_string()).collect(),
    }
}

fn space_read_by(read: &[&str]) -> Space {
    Space {
        host: "h".into(),
        title: "H".into(),
        view: View::Topics,
        read: read.iter().map(|g| (*g).to_string()).collect(),
        categories: vec![],
        articles: None,
        attachment_max_bytes: 8 * 1024 * 1024,
        title_key: "title".into(),
        home: None,
    }
}

#[test]
fn reading_needs_one_of_the_spaces_groups() {
    assert!(may_read(
        &who(&["Household"]),
        &space_read_by(&["Household", "Friends"])
    ));
    assert!(!may_read(
        &who(&["Strangers"]),
        &space_read_by(&["Household"])
    ));
}

#[test]
fn posting_and_replying_are_separate_rights() {
    let k = category_with(&["Writers"], &["Household"]);
    let member = who(&["Household"]);
    assert!(
        !may_post(&member, &k),
        "a mere member must not open a topic here"
    );
    assert!(may_reply(&member, &k));
}

#[test]
fn an_empty_group_list_grants_nothing() {
    let k = category_with(&[], &[]);
    assert!(!may_post(&who(&["Household"]), &k));
    assert!(!may_reply(&who(&["Household"]), &k));
    assert!(!may_read(&who(&["Household"]), &space_read_by(&[])));
}

#[test]
fn someone_with_no_groups_may_nothing() {
    let stranger = who(&[]);
    assert!(!may_read(&stranger, &space_read_by(&["Household"])));
    assert!(!may_post(
        &stranger,
        &category_with(&["Household"], &["Household"])
    ));
    assert!(!may_reply(
        &stranger,
        &category_with(&["Household"], &["Household"])
    ));
}

#[test]
fn only_the_author_may_modify() {
    let me = who(&["Household"]);
    assert!(may_modify(&me, "sub-1"));
    assert!(!may_modify(&me, "sub-2"));
}

#[test]
fn no_group_is_an_administrator() {
    let omnipotent = who(&["Household", "Friends", "Writers", "Operations"]);
    assert!(!may_modify(&omnipotent, "sub-2"));
}

#[test]
fn group_names_are_compared_exactly() {
    assert!(!may_read(
        &who(&["household"]),
        &space_read_by(&["Household"])
    ));
    assert!(!may_read(
        &who(&[" Household"]),
        &space_read_by(&["Household"])
    ));
}

#[test]
fn the_subject_decides_authorship_not_the_name() {
    let renamed = Identity {
        subject: "sub-1".into(),
        name: "A Different Name".into(),
        groups: vec![],
        email: None,
        handle: None,
    };
    assert!(may_modify(&renamed, "sub-1"));

    let namesake = Identity {
        subject: "sub-9".into(),
        name: "Someone".into(),
        groups: vec![],
        email: None,
        handle: None,
    };
    assert!(!may_modify(&namesake, "sub-1"));
}

#[test]
fn the_bell_shows_exactly_the_spaces_one_may_read() {
    let hosted = |host: &str, read: &[&str]| Space { host: host.into(), ..space_read_by(read) };
    let config = Config {
        timezone: None,
        spaces: vec![
            hosted("a", &["Friends"]),
            hosted("b", &["Household"]),
            hosted("c", &["Household", "Friends"]),
        ],
        events: None,
    };
    assert_eq!(readable(&config, &who(&["Friends"])), vec!["a", "c"]);
    assert_eq!(readable(&config, &who(&["Household"])), vec!["b", "c"]);
    assert!(readable(&config, &who(&[])).is_empty());
}
