//! People and groups, as the directory sends them.
use treff::db::directory::{Group, User};
use treff::tree::write_json;
use treff::web::scim::{
    checked_group, checked_id, checked_operation, checked_user, collected, group_resource,
    holding_id, list_resource, member_in_path, name_conflicts, patch_group, path_id,
    primary_email, refusal, service_provider_config, user_resource, EmailIn, GroupIn, MemberIn,
    OperationIn, Page, PatchIn, UserIn,
};

const ADA: &str = "5b1e0c1c-1111-4a4a-9b9b-000000000001";
const GRACE: &str = "5b1e0c1c-1111-4a4a-9b9b-000000000002";

#[test]
fn an_id_is_a_uuid_in_one_spelling() {
    assert_eq!(
        checked_id("5B1E0C1C-1111-4A4A-9B9B-000000000001").as_deref(),
        Some("5b1e0c1c-1111-4a4a-9b9b-000000000001")
    );
    for no in [
        "",
        "ada",
        "5b1e0c1c-1111-4a4a-9b9b",
        "5b1e0c1c-1111-4a4a-9b9b-0000000000012",
        "5b1e0c1c11114a4a9b9b000000000001",
        "5b1e0c1c-1111-4a4a-9b9b-00000000000g",
        "../../etc/passwd",
    ] {
        assert_eq!(checked_id(no), None, "{no:?}");
    }
}

fn address(value: Option<&str>, primary: Option<bool>) -> EmailIn {
    EmailIn { value: value.map(String::from), primary }
}

#[test]
fn the_primary_address_wins_and_an_empty_one_is_none() {
    let email = |list: Vec<EmailIn>| primary_email(&Some(list));
    assert_eq!(
        email(vec![
            address(Some("a@example.org"), None),
            address(Some("b@example.org"), Some(true)),
        ])
        .as_deref(),
        Some("b@example.org")
    );
    assert_eq!(
        email(vec![address(Some("a@example.org"), None)]).as_deref(),
        Some("a@example.org")
    );
    assert_eq!(email(vec![address(Some("  "), None), address(None, None)]), None);
    assert_eq!(email(vec![]), None);
}

#[test]
fn the_filter_is_that_one_shape_or_nothing() {
    let page = |filter: Option<&str>| Page {
        start_index: None,
        count: None,
        filter: filter.map(String::from),
    };
    assert_eq!(
        page(Some(r#"userName eq "Konrad""#))
            .equals("userName")
            .ok()
            .flatten()
            .as_deref(),
        Some("Konrad")
    );
    assert_eq!(page(None).equals("userName").ok().flatten(), None);
    for no in [
        r#"userName co "Kon""#,
        r#"displayName eq "Konrad""#,
        "userName eq Konrad",
        "nonsense",
        "",
    ] {
        assert!(page(Some(no)).equals("userName").is_err(), "{no:?}");
    }
}

#[test]
fn two_comparisons_are_not_one() {
    let page = Page {
        start_index: None,
        count: None,
        filter: Some(r#"userName eq "a" or userName eq "b""#.into()),
    };
    assert_eq!(page.equals("userName").expect_err("refused").scim_type, "invalidFilter");
}

#[test]
fn a_member_in_a_path_is_read_out_of_it() {
    assert_eq!(member_in_path(r#"members[value eq "abc"]"#).as_deref(), Some("abc"));
    for no in [
        "members",
        r#"members[displayName eq "abc"]"#,
        r#"members[value co "abc"]"#,
        r#"members[value eq "abc"#,
    ] {
        assert_eq!(member_in_path(no), None, "{no:?}");
    }
}

#[test]
fn a_page_starts_at_one_and_is_bounded() {
    let page = |start_index, count| Page { start_index, count, filter: None };
    assert_eq!((page(None, None).start(), page(None, None).count()), (1, 100));
    assert_eq!((page(Some(-3), Some(-3)).start(), page(Some(-3), Some(-3)).count()), (1, 0));
    assert_eq!((page(Some(7), Some(9000)).start(), page(Some(7), Some(9000)).count()), (7, 200));
}

fn user_in(id: Option<&str>, name: Option<&str>) -> UserIn {
    UserIn {
        id: id.map(String::from),
        external_id: None,
        user_name: name.map(String::from),
        display_name: None,
        emails: None,
        active: None,
    }
}

#[test]
fn a_person_needs_an_id_and_a_name() {
    let user = checked_user(user_in(Some(ADA), Some(" Ada ")), None).expect("user");
    assert_eq!((user.id.as_str(), user.user_name.as_str()), (ADA, "Ada"));
    assert_eq!((user.display_name.as_str(), user.active), ("Ada", true));
    let held = checked_user(user_in(None, Some("Ada")), Some(GRACE)).expect("user");
    assert_eq!(held.id, GRACE, "the address decides");
    for (id, name) in [(None, Some("Ada")), (Some("x"), Some("Ada")), (Some(ADA), None)] {
        let no = checked_user(user_in(id, name), None).expect_err("refused");
        assert_eq!(no.scim_type, "invalidValue");
    }
}

fn member(value: &str) -> MemberIn {
    MemberIn { value: Some(value.into()) }
}

#[test]
fn a_group_with_one_bad_member_is_refused_whole() {
    let group = |members: Option<Vec<MemberIn>>| GroupIn {
        id: Some(GRACE.into()),
        external_id: None,
        display_name: Some("Friends".into()),
        members,
    };
    let good = checked_group(group(Some(vec![member(ADA)])), None).expect("group");
    assert_eq!((good.id.as_str(), good.name.as_str()), (GRACE, "Friends"));
    assert_eq!(good.members, Some(vec![ADA.to_string()]));
    let none = checked_group(group(None), None).expect("group");
    assert_eq!(none.members, None, "not named is not emptied");
    assert!(checked_group(group(Some(vec![member(ADA), member("x")])), None).is_err());
    assert!(path_id("x").is_err());
    assert_eq!(path_id(ADA).expect("id"), ADA);
}

#[test]
fn a_patch_is_taken_whole_or_not_at_all() {
    let operation = |op: &str, path: Option<&str>, value: Option<Vec<MemberIn>>| OperationIn {
        op: Some(op.into()),
        path: path.map(String::from),
        value: value.map(Ok),
    };
    let good = PatchIn {
        operations: Some(vec![
            operation("Add", Some("members"), Some(vec![member(ADA)])),
            operation("remove", Some(&format!("members[value eq \"{GRACE}\"]")), None),
        ]),
    };
    let changes = patch_group(&good).expect("changes");
    assert_eq!(collected(&changes, true), vec![ADA.to_string()]);
    assert_eq!(collected(&changes, false), vec![GRACE.to_string()]);

    let bad = PatchIn {
        operations: Some(vec![
            operation("add", Some("members"), Some(vec![member(ADA)])),
            operation("replace", Some("displayName"), None),
        ]),
    };
    assert!(patch_group(&bad).is_err());
    assert!(patch_group(&PatchIn { operations: None }).is_err());
    assert!(checked_operation(&operation("add", Some("members"), None)).is_err());
}

#[test]
fn a_name_belongs_to_one_group() {
    assert_eq!(holding_id(Some(ADA.into()), GRACE.into()), ADA);
    assert_eq!(holding_id(None, GRACE.into()), GRACE);
    assert!(name_conflicts(&Some(ADA.into()), GRACE));
    assert!(!name_conflicts(&Some(ADA.into()), ADA));
    assert!(!name_conflicts(&None, ADA));
}

#[test]
fn resources_are_written_as_the_directory_reads_them() {
    let user = User {
        id: ADA.into(),
        user_name: "ada".into(),
        display_name: "Ada".into(),
        email: Some("ada@example.org".into()),
        active: true,
    };
    let text = write_json(&user_resource(&user));
    let read: serde_json::Value = serde_json::from_str(&text).expect("json");
    assert_eq!(read["id"], ADA);
    assert_eq!(read["userName"], "ada");
    assert_eq!(read["emails"][0]["value"], "ada@example.org");
    assert_eq!(read["active"], true);
    assert_eq!(read["meta"]["resourceType"], "User");

    let group = Group { id: GRACE.into(), name: "Friends".into(), members: vec![ADA.into()] };
    let text = write_json(&list_resource(1, 1, vec![group_resource(&group)]));
    let read: serde_json::Value = serde_json::from_str(&text).expect("json");
    assert_eq!(read["totalResults"], 1);
    assert_eq!(read["Resources"][0]["displayName"], "Friends");
    assert_eq!(read["Resources"][0]["members"][0]["value"], ADA);

    let text = write_json(&refusal(409, Some("uniqueness"), "taken"));
    let read: serde_json::Value = serde_json::from_str(&text).expect("json");
    assert_eq!(read["status"], "409");
    assert_eq!(read["scimType"], "uniqueness");
    assert_eq!(read["detail"], "taken");

    let text = write_json(&service_provider_config());
    let read: serde_json::Value = serde_json::from_str(&text).expect("json");
    assert_eq!(read["patch"]["supported"], false);
    assert_eq!(read["bulk"]["supported"], false);
}
