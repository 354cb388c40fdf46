//! What is kept about topics, posts and people, and what follows from it.
use treff::authz::Identity;
use treff::config::{Config, Space};
use treff::db::accounts::{by_handles, handles_of, may_read_now, wants_mention_mail, Known};
use treff::db::attachments::{load, path_of, StoredAttachment};
use treff::db::directory::{
    add_members, delete_user, list_groups, list_users, page, put_group, put_user, recompute,
    remove_members, Group, Holder, Reader, User,
};
use treff::db::events::{open as open_event, take, Checked, EventRow, Kind};
use treff::db::inbox::{
    entries, everybody_but, for_handle, mark_all_read, mark_topic_read, note_mentions_in,
    note_replies_in, unread_count, Entry, Reason, Row, Stored,
};
use treff::db::likes::{
    note, summaries, toggle, toggle_telling, Like, LikedPost, Noted, Outcome,
};
use treff::db::outbox::{
    about_mention, backoff, due, given_up, mark_failed, queue_for_followers, queue_mentions,
    queue_webhook, OutboxRow, Owed, MAX_ATTEMPTS,
};
use treff::db::search::{as_fts_query, asked, search, Found, Hit};
use treff::db::subscriptions::{follow, followers_except, is_following, unfollow};
use treff::db::topics::{
    add_reply, after_taking_back, category_counts, clamp_page, create_topic, delete_post,
    list_topics, load_topic, moment_of, now, recent_topics, rewrite, update_mentions, update_post,
    Activity, Byline, Deleted, LastPost, Opened, Replied, StoredTopic, Thread, Topic, Written,
    RECENT,
};
use treff::media::MediaType;
use treff::mentions::{highlighted, offered, readers, to_tell};

const HOST: &str = "forum.example.org";

fn forum() -> Space {
    let mut config = Config::parse(
        r#"
[[space]]
host = "forum.example.org"
title = "Forum"
view = "topics"
read = ["Friends"]
  [[space.category]]
  slug = "general"
  title = "General"
  post = ["Friends"]
  reply = ["Friends"]
"#,
    )
    .expect("config");
    config.spaces.remove(0)
}

fn list(names: &[&str]) -> Vec<String> {
    names.iter().map(|n| n.to_string()).collect()
}

fn person(subject: &str) -> Identity {
    Identity {
        subject: subject.into(),
        name: subject.to_uppercase(),
        groups: list(&["Friends"]),
        email: None,
        handle: None,
    }
}

fn known(subject: &str, handle: &str, groups: &[&str]) -> Known {
    Known { subject: subject.into(), handle: handle.into(), groups: list(groups) }
}

#[test]
fn following_twice_is_following_once() {
    let once = follow(&[], "ada");
    assert_eq!(once, list(&["ada"]));
    assert_eq!(follow(&once, "ada"), once);
    assert!(is_following(&once, "ada"));
    assert!(!is_following(&once, "grace"));
}

#[test]
fn unfollowing_twice_is_not_an_error() {
    let both = list(&["ada", "ben"]);
    let one = unfollow(&both, "ben");
    assert_eq!(one, list(&["ada"]));
    assert_eq!(unfollow(&one, "ben"), one);
    assert!(!is_following(&one, "ben"));
    assert!(followers_except(&one, "ada").is_empty());
}

#[test]
fn the_writer_is_not_told_about_their_own_post() {
    assert_eq!(
        followers_except(&list(&["ada", "grace"]), "grace"),
        list(&["ada"])
    );
}

fn open(author: &str) -> Opened {
    create_topic(HOST, "general", "T", "B", &person(author), 100, &[], &[])
}

fn answer(followers: &[String], body: &str, author: &str) -> Replied {
    add_reply(followers, body, &person(author), 200, &[], &[])
}

#[test]
fn writing_subscribes_you_and_replying_does_too() {
    let opened = open("ada");
    assert_eq!(opened.effects.followers, list(&["ada"]), "opening a topic follows it");
    let answered = answer(&opened.effects.followers, "Yes", "ben");
    assert!(is_following(&answered.effects.followers, "ben"), "replying follows it");
    assert_eq!(answered.effects.replied, list(&["ada"]));
    let again = answer(&answered.effects.followers, "Also this", "ben");
    assert_eq!(
        followers_except(&again.effects.followers, "nobody"),
        list(&["ada", "ben"]),
        "a second reply is still one subscription"
    );
}

#[test]
fn a_reply_owes_one_notification_per_follower() {
    let owed = answer(&open("ada").effects.followers, "First", "ben").effects.owed;
    let per_mail: Vec<&str> =
        owed.iter().filter(|q| q.kanal == "mail").map(|q| q.subject.as_str()).collect();
    assert_eq!(per_mail, vec!["ada"], "ben wrote it, so only ada is owed a mail");
    assert_eq!(owed.iter().filter(|q| q.kanal == "webhook").count(), 1);
    let owed = queue_for_followers(&list(&["ada", "grace", "lin"]), "grace");
    let told: Vec<&str> = owed.iter().map(|q| q.subject.as_str()).collect();
    assert_eq!(told, vec!["ada", "lin", "grace"]);
    let ways: Vec<&str> = owed.iter().map(|q| q.kanal.as_str()).collect();
    assert_eq!(ways, vec!["mail", "mail", "webhook"], "one call, however many followers");
    let hook = queue_webhook("grace");
    assert_eq!((hook.subject.as_str(), hook.kanal.as_str()), ("grace", "webhook"));
}

#[test]
fn a_mention_rings_once_however_often_it_is_written() {
    let effects = add_reply(
        &list(&["ada"]),
        "Hi",
        &person("grace"),
        200,
        &list(&["ada", "lin"]),
        &list(&["lin"]),
    )
    .effects;
    assert_eq!(effects.mentioned, list(&["ada", "lin"]));
    assert!(effects.replied.is_empty(), "ada is told of the mention already");
    assert!(effects.owed.iter().any(|q| q.subject == "lin" && q.reason == "mention"));
    let (fresh, mails) =
        update_mentions(&list(&["ada"]), &list(&["ada", "lin"]), &list(&["ada", "lin"]));
    assert_eq!(fresh, list(&["lin"]));
    assert_eq!(mails.len(), 1);
    assert_eq!(mails[0].subject, "lin");
    assert_eq!(note_mentions_in(&list(&["ada"]), &list(&["ada", "lin"])), list(&["lin"]));
    assert_eq!(queue_mentions(&list(&["lin"]))[0].reason, "mention");
    assert!(about_mention(Some("mention")));
    assert!(!about_mention(Some("reply")));
    assert!(!about_mention(None));
}

#[test]
fn everybody_is_told_of_a_reply_but_its_writer_and_those_told_already() {
    assert_eq!(everybody_but(&list(&["ada", "grace"]), "ada"), list(&["grace"]));
    assert_eq!(
        note_replies_in(&list(&["lin"]), &list(&["ada", "grace", "lin"]), "ada"),
        list(&["grace"])
    );
}

fn owed(id: i64, attempts: i64) -> Owed {
    Owed {
        id,
        subject: "ada".into(),
        kanal: "mail".into(),
        topic_id: 1,
        post_id: 2,
        space: HOST.into(),
        attempts,
    }
}

#[test]
fn waits_grow_up_to_an_hour() {
    let waits: Vec<i64> = (0..6).map(backoff).collect();
    assert_eq!(waits, vec![0, 60, 300, 900, 3600, 3600]);
    for attempts in 1..100 {
        assert!(backoff(attempts) <= backoff(attempts + 1));
        assert!(backoff(attempts) <= 3600);
    }
}

#[test]
fn a_failure_backs_off_and_eventually_gives_up_visibly() {
    let failure = mark_failed(0, 1_000, &"x".repeat(900));
    assert_eq!(failure.attempts, 1);
    assert_eq!(failure.next_try_at, 1_000 + backoff(1));
    assert_eq!(failure.last_error.len(), 500);

    let row = |id, attempts, sent, next_try_at| OutboxRow {
        owed: owed(id, attempts),
        sent,
        next_try_at,
    };
    let waiting = vec![row(1, failure.attempts, false, failure.next_try_at)];
    assert!(due(&waiting, 1_000, "mail", 100).is_empty(), "a failed row waits");
    assert_eq!(due(&waiting, failure.next_try_at, "mail", 100).len(), 1);
    let mut attempts = failure.attempts;
    for attempt in 1..MAX_ATTEMPTS {
        attempts = mark_failed(attempt, 1_000, "connection refused").attempts;
    }
    let given = vec![row(1, attempts, false, 500)];
    assert!(due(&given, i64::MAX, "mail", 100).is_empty());
    assert_eq!(given_up(&given), 1);

    let rows = vec![
        row(1, 0, false, 500),
        row(2, 1, false, 2_000),
        row(3, 0, true, 500),
        row(4, MAX_ATTEMPTS, false, 500),
    ];
    let ids: Vec<i64> = due(&rows, 1_000, "mail", 25).iter().map(|o| o.id).collect();
    assert_eq!(ids, vec![1]);
    assert_eq!(given_up(&rows), 1);
}

#[test]
fn what_went_out_is_not_owed_again() {
    let hook = Owed { kanal: "webhook".into(), ..owed(2, 0) };
    let rows = |sent| {
        vec![
            OutboxRow { owed: owed(1, 0), sent, next_try_at: 0 },
            OutboxRow { owed: hook.clone(), sent, next_try_at: 0 },
        ]
    };
    for kanal in ["mail", "webhook"] {
        assert_eq!(due(&rows(false), i64::MAX, kanal, 100).len(), 1);
        assert!(due(&rows(true), i64::MAX, kanal, 100).is_empty());
    }
}

#[test]
fn a_full_channel_does_not_hold_up_the_other() {
    let hook = Owed { kanal: "webhook".into(), ..owed(1, 0) };
    let rows = vec![
        OutboxRow { owed: hook, sent: false, next_try_at: 0 },
        OutboxRow { owed: owed(2, 0), sent: false, next_try_at: 0 },
        OutboxRow { owed: owed(3, 0), sent: false, next_try_at: 0 },
    ];
    let ids = |kanal: &str, limit| -> Vec<i64> {
        due(&rows, 1_000, kanal, limit).iter().map(|o| o.id).collect()
    };
    assert_eq!(ids("mail", 1), vec![2]);
    assert_eq!(ids("mail", 25), vec![2, 3]);
    assert_eq!(ids("webhook", 1), vec![1]);
    assert_eq!(ids("pigeon", 25), Vec::<i64>::new());
}

fn post_by(author: &str) -> Option<LikedPost> {
    Some(LikedPost {
        author_subject: author.into(),
        topic_id: 7,
        space: HOST.into(),
        mirrored: false,
        opens: false,
    })
}

#[test]
fn a_like_is_counted_and_a_second_click_takes_it_back() {
    let first = toggle(&post_by("ada"), HOST, &person("grace"), &[]);
    assert_eq!(first.outcome, Outcome::Toggled { liked: true, count: 1, topic_id: 7 });
    assert_eq!(first.tell.as_deref(), Some("ada"));
    let second = toggle(&post_by("ada"), HOST, &person("grace"), &list(&["grace"]));
    assert_eq!(second.outcome, Outcome::Toggled { liked: false, count: 0, topic_id: 7 });
    assert_eq!(second.tell, None);
    assert!(second.forget, "nobody likes it any more");
}

fn noted(subject: &str, reason: Reason, at: i64, unread: bool) -> Noted {
    Noted { subject: subject.into(), reason, at, unread }
}

fn shown(rows: &[Noted]) -> Vec<(&str, Reason, i64, bool)> {
    rows.iter().map(|r| (r.subject.as_str(), r.reason, r.at, r.unread)).collect()
}

#[test]
fn a_post_has_one_entry_for_its_likes_and_a_new_one_makes_it_news_again() {
    let click = |who: &str, likers: &[&str]| {
        toggle(&post_by("ada"), HOST, &person(who), &list(likers))
    };
    let start = vec![noted("lin", Reason::Mention, 5, false)];
    let rows = note(start, &click("grace", &[]), 10);
    assert_eq!(
        shown(&rows),
        vec![("lin", Reason::Mention, 5, false), ("ada", Reason::Like, 10, true)]
    );
    let mut rows = rows;
    rows[1].unread = false;
    let rows = note(rows, &click("lin", &["grace"]), 20);
    assert_eq!(
        shown(&rows),
        vec![("lin", Reason::Mention, 5, false), ("ada", Reason::Like, 20, true)]
    );
    let rows = note(rows, &click("lin", &["grace", "lin"]), 30);
    assert_eq!(rows.len(), 2, "somebody still likes it");
    assert_eq!(rows[1].at, 20);
    let rows = note(rows, &click("grace", &["grace"]), 40);
    assert_eq!(shown(&rows), vec![("lin", Reason::Mention, 5, false)]);
    let told = vec![noted("ada", Reason::Mention, 1, false)];
    let rows = note(told, &click("grace", &[]), 50);
    assert_eq!(shown(&rows), vec![("ada", Reason::Mention, 1, false)]);
}

#[test]
fn your_own_post_is_refused_and_the_other_space_is_not_there() {
    let own = toggle(&post_by("ada"), HOST, &person("ada"), &[]);
    assert_eq!(own.outcome, Outcome::OwnPost);
    let other = toggle(&post_by("ada"), "blog.example.org", &person("grace"), &[]);
    assert_eq!(other.outcome, Outcome::NotFound);
    assert_eq!(toggle(&None, HOST, &person("grace"), &[]).outcome, Outcome::NotFound);
}

#[test]
fn the_owner_of_an_article_is_told_of_a_like_of_it() {
    let mut article = post_by("treff:article").expect("post");
    article.mirrored = true;
    article.opens = true;
    let told = toggle_telling(&Some(article), HOST, &person("grace"), Some("ada"), &[]);
    assert_eq!(told.tell.as_deref(), Some("ada"));
}

#[test]
fn a_summary_says_how_many_who_and_whether_you() {
    let like = |post_id, subject: &str, name: &str| Like {
        post_id,
        subject: subject.into(),
        name: name.into(),
    };
    let (p, q) = (1, 2);
    let rows = vec![like(p, "cem", "cem N."), like(p, "ben", "ben N.")];
    let all = summaries(&rows, "ben");
    let s = all.get(&p).expect("p");
    assert_eq!(s.count, 2);
    assert!(s.liked);
    assert_eq!(s.names, list(&["cem N.", "ben N."]));
    assert!(!all.contains_key(&q), "a post nobody liked has no entry");
    assert!(!summaries(&rows, "dora")[&p].liked);
    let many: Vec<Like> = (0..9).map(|i| like(1, &format!("s{i}"), &format!("N{i}"))).collect();
    let sums = summaries(&many, "nobody");
    assert_eq!((sums[&1].count, sums[&1].names.len()), (9, 5));
}

fn thread(posts: &[(i64, &str)]) -> Option<Thread> {
    Some(Thread {
        space: HOST.into(),
        hidden: false,
        posts: posts
            .iter()
            .map(|(id, author)| Written { id: *id, author_subject: author.to_string() })
            .collect(),
    })
}

#[test]
fn only_your_own_post_can_be_changed_and_only_here() {
    let t = thread(&[(1, "ada"), (2, "grace")]);
    assert!(update_post(&t, HOST, 2, &person("grace")));
    assert!(!update_post(&t, HOST, 1, &person("grace")));
    assert!(!update_post(&t, "blog.example.org", 2, &person("grace")));
    assert!(!update_post(&t, HOST, 3, &person("grace")));
    assert!(!update_post(&None, HOST, 2, &person("grace")));
}

#[test]
fn an_opening_post_takes_its_topic_along_unless_somebody_answered() {
    let t = thread(&[(1, "ada"), (2, "grace")]);
    assert_eq!(delete_post(&t, HOST, 2, &person("grace")), Deleted::Post);
    assert_eq!(delete_post(&t, HOST, 1, &person("ada")), Deleted::HasReplies);
    assert_eq!(delete_post(&t, HOST, 1, &person("grace")), Deleted::NotYours);
    assert_eq!(delete_post(&thread(&[(1, "ada")]), HOST, 1, &person("ada")), Deleted::Topic);
    assert_eq!(delete_post(&None, HOST, 1, &person("ada")), Deleted::NotYours);
}

#[test]
fn paging_numbers_are_clamped_not_trusted() {
    assert_eq!(clamp_page(50, 0), (50, 0));
    assert_eq!(clamp_page(-1, -7), (1, 0));
    assert_eq!(clamp_page(i64::MAX, 3), (200, 3));
    assert_eq!(page(1, 100), (0, 100));
    assert_eq!(page(11, 9000), (10, 200));
    assert_eq!(page(-5, -5), (0, 0));
}

#[test]
fn time_starts_at_zero() {
    assert_eq!(moment_of(Some(1_768_470_060)), 1_768_470_060);
    assert_eq!(moment_of(None), 0);
    assert!(now() > 1_700_000_000);
}

#[test]
fn a_topic_belongs_to_its_space_only() {
    let opened = create_topic("blog.example.org", "notes", "T", "b", &person("s1"), 7, &[], &[]);
    let post = opened.post.stored(11, 3);
    let stored = opened.topic.stored(3);
    let (topic, posts) =
        load_topic(Some(stored), vec![post], "blog.example.org").expect("its own address");
    assert_eq!((topic.id, topic.space.as_str()), (3, "blog.example.org"));
    assert_eq!((topic.category.as_str(), topic.title.as_str()), ("notes", "T"));
    assert_eq!((topic.author_subject.as_str(), topic.updated_at), ("s1", 7));
    assert_eq!(posts.len(), 1);
    assert_eq!((posts[0].id, posts[0].topic_id, posts[0].edited), (11, 3, false));
    assert_eq!((posts[0].body_markdown.as_str(), posts[0].author_subject.as_str()), ("b", "s1"));
    let again = || open("s1").topic.stored(3);
    assert!(load_topic(Some(again()), vec![], "blog.example.org").is_none());
    let mut hidden = again();
    hidden.hidden = true;
    assert!(load_topic(Some(hidden), vec![], HOST).is_none());
    assert!(load_topic(None, vec![], HOST).is_none());
}

#[test]
fn a_rewritten_post_is_read_with_its_new_text() {
    let post = |id| answer(&[], "x", "ada").post.stored(id, 3);
    let rewritten = rewrite(post(7), "better", 900);
    assert!(!post(7).edited);
    let (_, posts) =
        load_topic(Some(open("ada").topic.stored(3)), vec![post(5), rewritten, post(9)], HOST)
            .expect("topic");
    let read: Vec<(i64, &str, bool)> =
        posts.iter().map(|p| (p.id, p.body_markdown.as_str(), p.edited)).collect();
    assert_eq!(read, vec![(5, "x", false), (7, "better", true), (9, "x", false)]);
    assert_eq!((posts[1].created_at, posts[1].updated_at), (post(7).created_at, 900));
    assert_eq!((posts[1].author_subject.as_str(), posts[1].topic_id), ("ada", 3));
}

#[test]
fn a_reply_that_goes_moves_its_topic_to_now() {
    let stored = || stored_topic(3, "general", 50, false);
    let moved = after_taking_back(stored(), Deleted::Post, 80).expect("the topic stands");
    assert_eq!((moved.topic.id, moved.topic.created_at, moved.topic.updated_at), (3, 1, 80));
    assert!(after_taking_back(stored(), Deleted::Topic, 80).is_none());
    for refused in [Deleted::HasReplies, Deleted::NotYours] {
        let same = after_taking_back(stored(), refused, 80).expect("the topic stands");
        assert_eq!(same.topic.updated_at, 50);
    }
}

#[test]
fn posts_are_read_in_the_order_in_which_they_were_written() {
    let post = |id, topic_id| answer(&[], "x", "ada").post.stored(id, topic_id);
    let (_, posts) = load_topic(
        Some(open("ada").topic.stored(3)),
        vec![post(9, 3), post(5, 3), post(6, 4), post(7, 3)],
        HOST,
    )
    .expect("topic");
    let ids: Vec<i64> = posts.iter().map(|p| p.id).collect();
    assert_eq!(ids, vec![5, 7, 9]);
    assert_eq!(answer(&[], "x", "ada").moved_at, 200);
}

#[test]
fn the_front_page_shows_what_moved_last() {
    let found: Vec<(Topic, Option<LastPost>)> =
        (1..15).map(|id| (stored_topic(id, "general", 100 - id, false).topic, None)).collect();
    let ids: Vec<i64> = recent_topics(found).iter().map(|(topic, _)| topic.id).collect();
    assert_eq!(ids, (1..=RECENT).collect::<Vec<i64>>());
}

#[test]
fn sections_are_counted_each_for_itself() {
    let activity = |category: &str, hidden, updated_at| Activity {
        space: HOST.into(),
        category: category.into(),
        hidden,
        updated_at,
    };
    let stored =
        vec![activity("general", false, 5), activity("general", true, 9), activity("general", false, 7)];
    let counts = category_counts(&stored, HOST, &list(&["general", "quiet"]));
    assert_eq!((counts[0].1.topics, counts[0].1.last_activity), (2, Some(7)));
    assert_eq!((counts[1].1.topics, counts[1].1.last_activity), (0, None));
}

#[test]
fn a_query_that_is_punctuation_finds_nothing_rather_than_failing() {
    for typed in ["", "   ", "\"", "*", "AND", "NEAR(", "^"] {
        let query = as_fts_query(typed);
        assert!(query.iter().all(|q| q.starts_with('"') && q.ends_with('"')), "{typed:?}");
    }
    assert_eq!(as_fts_query("AND").as_deref(), Some("\"AND\""));
    assert_eq!(as_fts_query("   "), None);
    assert_eq!(as_fts_query("\"*()"), None);
    assert_eq!(as_fts_query("hello world").as_deref(), Some("\"hello\" AND \"world\""));
    assert!(asked(&[], "hello").is_none(), "no section, nothing to find");
    assert!(asked(&list(&["general"]), "hello").is_some());
}

fn found_row(topic_id: i64, snippet: &str, updated_at: i64) -> Found {
    Found {
        hit: Hit {
            topic_id,
            title: "T".into(),
            category: "general".into(),
            snippet: snippet.into(),
            updated_at,
        },
        space: HOST.into(),
        hidden: false,
    }
}

#[test]
fn nothing_is_found_outside_the_space_the_sections_and_what_is_shown() {
    let rows = || {
        let mut elsewhere = found_row(1, "", 1);
        elsewhere.space = "blog.example.org".into();
        let mut withdrawn = found_row(2, "", 2);
        withdrawn.hidden = true;
        let mut other = found_row(3, "", 3);
        other.hit.category = "private".into();
        vec![elsewhere, withdrawn, other, found_row(4, "", 4)]
    };
    let found = search(rows(), rows(), HOST, &list(&["general"]), 10);
    let ids: Vec<i64> = found.iter().map(|h| h.topic_id).collect();
    assert_eq!(ids, vec![4]);
    assert!(search(rows(), rows(), HOST, &[], 10).is_empty());
}

#[test]
fn hits_come_newest_first_and_a_topic_once() {
    let hit = |topic_id, snippet: &str, updated_at| found_row(topic_id, snippet, updated_at);
    let found = search(
        vec![hit(1, "body", 5), hit(2, "body", 9)],
        vec![hit(1, "", 5), hit(3, "", 7)],
        HOST,
        &list(&["general"]),
        10,
    );
    let ids: Vec<i64> = found.iter().map(|h| h.topic_id).collect();
    assert_eq!(ids, vec![2, 3, 1]);
    assert_eq!(found[2].snippet, "body", "a body says more than a title");
}

fn row(reason: Reason, topic_id: i64, post_id: i64, at: i64, unread: bool) -> Row {
    Row {
        reason,
        space: HOST.into(),
        topic_id,
        topic_title: "T".into(),
        post_id,
        author: "Grace".into(),
        at,
        unread,
        hidden: false,
        likes: 2,
        latest_like: Some("Lin".into()),
    }
}

#[test]
fn replies_in_one_topic_are_one_bundle() {
    let by = |author: &str, post_id, at| Row {
        author: author.into(),
        topic_title: "Holiday".into(),
        ..row(Reason::Reply, 1, post_id, at, true)
    };
    let rows = vec![by("ben N.", 11, 5), by("cem N.", 12, 6), by("ben N.", 13, 7)];
    let spaces = list(&[HOST]);
    assert_eq!(unread_count(&rows, &[], &spaces), 1);
    let shown = entries(&rows, &[], &spaces, 50);
    assert_eq!(shown.len(), 1, "{shown:?}");
    match &shown[0] {
        Entry::Replies {
            topic_id,
            topic_title,
            count,
            latest_author,
            latest_at,
            first_post_id,
            unread,
            ..
        } => {
            assert_eq!(*topic_id, 1);
            assert_eq!(topic_title, "Holiday");
            assert_eq!(*count, 3);
            assert_eq!((latest_author.as_str(), *latest_at), ("ben N.", 7));
            assert_eq!(*first_post_id, 11);
            assert!(*unread);
        }
        other => panic!("not a bundle: {other:?}"),
    }
}

#[test]
fn another_space_is_neither_counted_nor_listed() {
    let rows = vec![row(Reason::Reply, 1, 11, 5, true)];
    let spaces = list(&["blog.example.org"]);
    assert!(entries(&rows, &[], &spaces, 50).is_empty());
    assert_eq!(unread_count(&rows, &[], &spaces), 0);
    let mut hidden = row(Reason::Like, 1, 11, 5, true);
    hidden.hidden = true;
    assert_eq!(unread_count(&[hidden], &[], &list(&[HOST])), 0, "a hidden topic rings no bell");
}

#[test]
fn an_event_is_an_entry_like_any_other() {
    let event = |id, kind: &str, at| Stored {
        id,
        kind: kind.into(),
        title: "Film".into(),
        reason: None,
        at,
        unread: true,
        space: HOST.into(),
    };
    let events = vec![event(1, Kind::FilmAvailable.as_str(), 9)];
    let (unread, shown) = for_handle(None, &events, HOST, 20);
    assert_eq!((unread, shown.len()), (1, 1));
    assert!(matches!(&shown[0], Entry::Event { id: 1, kind: Kind::FilmAvailable, .. }));
    let row = |handle: &str| {
        Some(EventRow {
            id: 1,
            handle: handle.into(),
            space: HOST.into(),
            link: Some("https://films.example.org/1".into()),
        })
    };
    assert_eq!(
        open_event(row("ada"), &Some("ada".into()), HOST),
        Some(Some("https://films.example.org/1".to_string()))
    );
    assert_eq!(open_event(row("ada"), &Some("grace".into()), HOST), None);
    assert_eq!(open_event(row("ada"), &None, HOST), None);
    assert_eq!(open_event(row("ada"), &Some("ada".into()), "blog.example.org"), None);
}

const KONRAD: &str = "5b1e0c1c-1111-4a4a-9b9b-000000000001";
const ADA: &str = "5b1e0c1c-1111-4a4a-9b9b-000000000002";

fn konrad() -> User {
    User {
        id: KONRAD.into(),
        user_name: "Konrad".into(),
        display_name: "Konrad Müller".into(),
        email: Some("konrad@example.org".into()),
        active: true,
    }
}

fn reader(subject: &str, active: bool) -> Reader {
    Reader { subject: subject.into(), active, groups: vec![] }
}

/// What somebody reads through, by the groups as they stand.
fn reads(subject: &str, groups: &[Group]) -> Vec<String> {
    recompute(&[reader(subject, true)], groups, &list(&[subject])).remove(0).groups
}

#[test]
fn a_person_from_scim_becomes_a_reader_through_their_group() {
    let account = put_user(&konrad(), &[], &[]);
    assert_eq!(account.handle.as_deref(), Some("konrad"));
    assert_eq!(account.email.as_deref(), Some("konrad@example.org"));
    assert!(account.groups.is_empty(), "no group yet");
    assert_eq!((account.name.as_str(), account.subject.as_str()), ("Konrad Müller", KONRAD));

    let mut group = put_group(None, "g-1", "Freunde", None).group;
    group.members = add_members(&group.members, &list(&[KONRAD]));
    assert_eq!(group.members, list(&[KONRAD]));
    assert_eq!((group.id.as_str(), group.name.as_str()), ("g-1", "Freunde"));
    let mut groups = vec![group];
    assert_eq!(reads(KONRAD, &groups), list(&["Freunde"]));
    assert_eq!(put_user(&konrad(), &[], &list(&["Freunde"])).groups, list(&["Freunde"]));
    groups[0].members = remove_members(&groups[0].members, &list(&[KONRAD]));
    assert!(reads(KONRAD, &groups).is_empty());
}

#[test]
fn a_taken_handle_is_not_given_twice() {
    let holders = vec![Holder { subject: KONRAD.into(), handle: "konrad".into() }];
    let ada = User { id: ADA.into(), ..konrad() };
    assert_eq!(put_user(&ada, &holders, &[]).handle, None);
    assert_eq!(put_user(&konrad(), &holders, &[]).handle.as_deref(), Some("konrad"));
}

#[test]
fn inactive_and_deleted_strip_the_row_and_keep_it() {
    let group = put_group(None, "g-1", "Freunde", Some(&list(&[KONRAD]))).group;
    let off = put_user(&User { active: false, ..konrad() }, &[], &list(&["Freunde"]));
    assert_eq!((off.handle, off.email), (None, None));
    assert!(off.groups.is_empty());
    assert_eq!(off.name, "Konrad Müller");
    let rows =
        recompute(&[reader(KONRAD, false)], &[group.clone()], &list(&[KONRAD]));
    assert!(rows[0].groups.is_empty(), "the inactive read nothing");

    let back = put_user(&konrad(), &[], &list(&["Freunde"]));
    assert_eq!(back.groups, list(&["Freunde"]), "back in the group it never left");

    let left = delete_user(konrad(), vec![group]);
    assert!(!left.user.active);
    assert_eq!(left.user.id, KONRAD);
    assert_eq!(put_user(&left.user, &[], &list(&["Freunde"])).handle, None);
    assert!(left.groups[0].members.is_empty());
}

#[test]
fn whoever_left_is_a_member_nowhere_and_the_others_stay() {
    let friends = put_group(None, "g-1", "Freunde", Some(&list(&[KONRAD, ADA]))).group;
    let family = put_group(None, "g-2", "Familie", Some(&list(&[ADA]))).group;
    let left = delete_user(konrad(), vec![friends, family]);
    let names: Vec<&str> = left.groups.iter().map(|g| g.name.as_str()).collect();
    assert_eq!(names, vec!["Freunde", "Familie"]);
    assert_eq!(left.groups[0].members, list(&[ADA]));
    assert_eq!(left.groups[1].members, list(&[ADA]));
    assert!(reads(KONRAD, &left.groups).is_empty());
    assert_eq!(reads(ADA, &left.groups), list(&["Familie", "Freunde"]));
}

#[test]
fn a_put_with_members_replaces_them_and_moves_everybody_touched() {
    let one = put_group(None, "g-1", "Freunde", Some(&list(&[KONRAD]))).group;
    let other = put_group(Some(&one), "g-1", "Freunde", Some(&list(&[ADA])));
    assert_eq!(other.touched, list(&[KONRAD, ADA]));
    assert_eq!(other.group.members, list(&[ADA]));
    let people = || vec![reader(KONRAD, true), reader(ADA, true), reader("x", true)];
    let rows = recompute(&people(), &[other.group.clone()], &other.touched);
    assert_eq!(rows.len(), 2, "nobody else is written for");
    assert_eq!((rows[0].subject.as_str(), rows[0].groups.len()), (KONRAD, 0), "who was replaced");
    assert_eq!((rows[1].subject.as_str(), &rows[1].groups), (ADA, &list(&["Freunde"])));

    let renamed = put_group(Some(&other.group), "g-1", "Bekannte", None);
    assert_eq!((renamed.group.members.clone(), renamed.touched.clone()), (list(&[ADA]), list(&[ADA])));
    let rows = recompute(&people(), &[renamed.group], &renamed.touched);
    assert_eq!(rows[0].groups, list(&["Bekannte"]), "a rename moves everybody in it");

    let twice = put_group(None, "g-2", "A", Some(&list(&["b", "a", "b"]))).group;
    assert_eq!(twice.members, list(&["a", "b"]));
    assert_eq!(add_members(&list(&["a"]), &list(&["a", "b"])), list(&["a", "b"]));
    assert_eq!(remove_members(&list(&["a", "b"]), &list(&["a", "x"])), list(&["b"]));
}

#[test]
fn a_picture_lies_under_its_own_id_and_is_seen_in_its_own_space() {
    assert!(path_of("ab12", MediaType::Png).ends_with("ab12.png"));
    let stored = |hidden| {
        Some(StoredAttachment {
            id: "ab12".into(),
            post_id: 3,
            media_type: "image/png".into(),
            byte_size: 9,
            space: HOST.into(),
            hidden,
        })
    };
    let found = load(stored(false), HOST).expect("attachment");
    assert_eq!((found.media_type, found.byte_size), (MediaType::Png, 9));
    assert!(load(stored(true), HOST).is_none());
    assert!(load(stored(false), "blog.example.org").is_none());
    let mut svg = stored(false).expect("row");
    svg.media_type = "image/svg+xml".into();
    assert!(load(Some(svg), HOST).is_none());
}

#[test]
fn a_mention_reaches_only_those_who_may_read() {
    let accounts = vec![
        known("s-ada", "ada", &["Friends"]),
        known("s-eve", "eve", &["Strangers"]),
        known("s-lin", "lin", &["Friends"]),
    ];
    let space = forum();
    assert_eq!(
        to_tell(&accounts, &space, "s-lin", "Hi @ada, @eve and @lin"),
        list(&["s-ada"])
    );
    assert_eq!(
        highlighted(&accounts, &space, &list(&["Hi @ada", "and @eve, @lin"])),
        list(&["ada", "lin"])
    );
    assert_eq!(readers(&accounts, &space, &list(&["eve", "ada"])).len(), 1);
    assert_eq!(by_handles(&accounts, &list(&["eve", "ada"])).len(), 2);
    let named: Vec<(String, Known)> =
        accounts.into_iter().map(|k| (k.handle.to_uppercase(), k)).collect();
    let offers = offered(&named, &space, "s-ada");
    assert_eq!(offers.len(), 1);
    assert_eq!((offers[0].name.as_str(), offers[0].handle.as_str()), ("LIN", "lin"));
}

#[test]
fn a_right_is_asked_again_when_the_mail_goes_out() {
    assert!(may_read_now(Some("[\"Friends\"]"), &forum()));
    assert!(!may_read_now(Some("[]"), &forum()));
    assert!(!may_read_now(Some("damaged"), &forum()));
    assert!(!may_read_now(None, &forum()));
    assert!(!wants_mention_mail(None), "nobody here wants anything");
    assert!(wants_mention_mail(Some(1)));
    assert!(!wants_mention_mail(Some(0)));
    let read = Known::from_row("s".into(), "h".into(), "[\"Friends\"]");
    assert_eq!(read.groups, list(&["Friends"]));
}

fn stored_topic(id: i64, category: &str, updated_at: i64, hidden: bool) -> StoredTopic {
    StoredTopic {
        topic: Topic {
            id,
            space: HOST.into(),
            category: category.into(),
            title: format!("T{id}"),
            author_subject: "ada".into(),
            author_name: "Ada".into(),
            created_at: 1,
            updated_at,
            dated_by_day: false,
        },
        hidden,
    }
}

fn byline(post_id: i64, topic_id: i64, author: &str, created_at: i64) -> Byline {
    Byline { post_id, topic_id, author_name: author.into(), created_at }
}

#[test]
fn the_list_is_newest_activity_first_and_pages() {
    let stored = || {
        vec![
            stored_topic(1, "general", 5, false),
            stored_topic(2, "general", 9, false),
            stored_topic(3, "general", 9, false),
            stored_topic(4, "films", 99, false),
            stored_topic(5, "general", 99, true),
        ]
    };
    let ids = |limit, offset| -> Vec<i64> {
        list_topics(stored(), &[], HOST, "general", limit, offset)
            .iter()
            .map(|(topic, _)| topic.id)
            .collect()
    };
    assert_eq!(ids(50, 0), vec![3, 2, 1]);
    assert_eq!(ids(2, 0), vec![3, 2]);
    assert_eq!(ids(2, 2), vec![1]);
    assert_eq!(ids(2, 9), Vec::<i64>::new());
    assert_eq!(ids(-1, -1), vec![3]);
    assert!(list_topics(stored(), &[], "blog.example.org", "general", 50, 0).is_empty());
}

#[test]
fn the_list_reports_the_latest_post_of_each_topic() {
    let posts = vec![byline(1, 1, "Ada", 9), byline(2, 2, "Grace", 3), byline(3, 1, "Lin", 4)];
    let stored = vec![
        stored_topic(1, "general", 9, false),
        stored_topic(2, "general", 8, false),
        stored_topic(3, "general", 7, false),
    ];
    let listed = list_topics(stored, &posts, HOST, "general", 50, 0);
    let last = listed[0].1.as_ref().expect("byline");
    assert_eq!((last.author_name.as_str(), last.created_at), ("Lin", 4));
    assert!(!last.opens_the_topic);
    let last = listed[1].1.as_ref().expect("byline");
    assert_eq!(last.author_name, "Grace");
    assert!(last.opens_the_topic, "nobody has answered");
    assert!(listed[2].1.is_none(), "a topic without a post stays in the list");
}

#[test]
fn lists_find_by_name_and_page() {
    let person = |id: &str, name: &str| User {
        id: id.into(),
        user_name: name.into(),
        display_name: name.into(),
        email: None,
        active: true,
    };
    let people = || vec![person("c", "Lin"), person("a", "Ada"), person("b", "Grace")];
    let (total, page) = list_users(people(), None, 1, 2);
    let ids: Vec<&str> = page.iter().map(|u| u.id.as_str()).collect();
    assert_eq!((total, ids), (3, vec!["a", "b"]));
    let (total, page) = list_users(people(), None, 3, 2);
    assert_eq!((total, page.len()), (3, 1));
    let (total, page) = list_users(people(), Some("Grace"), 1, 100);
    assert_eq!((total, page[0].id.as_str()), (1, "b"));
    let (total, page) = list_users(people(), Some("grace"), 1, 100);
    assert_eq!((total, page.len()), (0, 0));
    let group = |id: &str, name: &str| Group { id: id.into(), name: name.into(), members: vec![] };
    let (total, page) = list_groups(vec![group("1", "B"), group("2", "A")], None, 1, 100);
    assert_eq!((total, page[0].name.as_str()), (2, "A"));
    let (total, page) = list_groups(vec![group("g-1", "Freunde")], Some("Freunde"), 1, 10);
    assert_eq!((total, page[0].id.as_str()), (1, "g-1"));
}

#[test]
fn the_same_event_twice_is_one_entry() {
    let event = |key: &str, kind| Checked {
        handle: "ada".into(),
        kind,
        title: "Film".into(),
        link: None,
        reason: None,
        source_key: key.into(),
    };
    let taken = vec![("k-1".to_string(), Kind::FilmAvailable)];
    assert!(!take(&taken, &event("k-1", Kind::FilmAvailable)));
    assert!(take(&taken, &event("k-1", Kind::FilmFailed)));
    assert!(take(&taken, &event("k-2", Kind::FilmAvailable)));
}

#[test]
fn two_topics_are_two_bundles_and_reading_one_leaves_the_other() {
    let (a, b) = (1, 2);
    let rows = vec![row(Reason::Reply, a, 11, 5, true), row(Reason::Reply, b, 21, 6, true)];
    let spaces = list(&[HOST]);
    assert_eq!(unread_count(&rows, &[], &spaces), 2);

    let mut rows = mark_topic_read(rows, a);
    assert_eq!(unread_count(&rows, &[], &spaces), 1);
    let shown = entries(&rows, &[], &spaces, 50);
    assert_eq!(shown.len(), 2, "the read one stays, below: {shown:?}");
    assert!(shown[0].unread(), "unread first: {shown:?}");
    assert!(!shown[1].unread());

    rows.push(row(Reason::Reply, a, 12, 9, true));
    let shown = entries(&rows, &[], &spaces, 50);
    let unread_a: Vec<&Entry> = shown
        .iter()
        .filter(|e| e.unread() && matches!(e, Entry::Replies { topic_id, .. } if *topic_id == a))
        .collect();
    assert_eq!(unread_a.len(), 1);
    assert!(matches!(unread_a[0], Entry::Replies { count: 1, .. }), "a new bundle");
}

#[test]
fn mark_all_read_empties_the_bell_of_this_space_only() {
    let mut elsewhere = row(Reason::Mention, 3, 31, 7, true);
    elsewhere.space = "blog.example.org".into();
    let rows = vec![row(Reason::Reply, 1, 11, 5, true), elsewhere];
    let events = vec![Stored {
        id: 1,
        kind: "film_failed".into(),
        title: "Film".into(),
        reason: None,
        at: 9,
        unread: true,
        space: HOST.into(),
    }];
    let (rows, events) = mark_all_read(rows, events, HOST);
    assert_eq!(unread_count(&rows, &events, &list(&[HOST])), 0);
    assert_eq!(unread_count(&rows, &events, &list(&["blog.example.org"])), 1);
}

#[test]
fn a_handle_stands_next_to_a_name() {
    let accounts = vec![known("s-ada", "ada", &[]), known("s-lin", "lin", &[])];
    assert_eq!(
        handles_of(&accounts, &list(&["s-lin", "s-eve"])),
        vec![("s-lin".to_string(), "lin".to_string())]
    );
}
