//! What a notification says, and where it leads.
use crate::config::{ConfigView, SpaceView};
use crate::db::inbox::EntryView;
use crate::db::outbox::OwedView;
use crate::db::topics::{Post, Topic};
use crate::laws::config::found;
use crate::laws::text::{
    blank, solid, trimming_leaves_nothing_of_nothing, trimming_leaves_the_middle,
};
use crate::live::{base_of, bell_tree, entry_facts, entry_path, entry_tree, heard};
use crate::notify::mail::{html_of, plain_of, port_in, subject_of, tls_on};
use crate::notify::unsubscribe::{message_for, short_tag, token_of};
use crate::notify::webhook::{payload, web_address};
use crate::notify::{
    composed, post_called, secret_in, still_told, MessageView, SecretFault, SecretFile,
};
use crate::text::{ascii_lower, decimal_text, html_text, number_in};
use crate::tree::{entry, TreeView};
use vstd::prelude::*;
use vstd::string::*;
use vstd::utf8::*;

verus! {

/// The first post with a number is the one that is meant by it, and where there
/// is none, none is.
pub proof fn a_number_finds_its_post(front: Seq<Post>, post: Post, back: Seq<Post>, id: i64)
    requires
        forall|i: int| 0 <= i < front.len() ==> (#[trigger] front[i]).id != id,
    ensures
        post.id == id ==> post_called(front.push(post) + back, id) == Some(post),
        post_called(front, id) is None,
    decreases front.len(),
{
    let all = front.push(post) + back;
    if front.len() > 0 {
        let rest = front.skip(1);
        assert forall|i: int| 0 <= i < rest.len() implies (#[trigger] rest[i]).id != id by {
            assert(rest[i] == front[i + 1]);
        }
        a_number_finds_its_post(rest, post, back, id);
        assert(all.skip(1) == rest.push(post) + back);
        assert(all[0] == front[0]);
    } else {
        assert(all[0] == post);
    }
}

/// A mention is told to whoever may read the space now; anything else that is
/// owed is told.
pub proof fn who_is_still_told(
    reason: Seq<char>,
    groups: Seq<Seq<char>>,
    space: SpaceView,
    i: int,
    j: int,
)
    ensures
        reason != "mention"@ ==> still_told(Some(reason), Some(groups), Some(space))
            && still_told(Some(reason), None, None),
        still_told(None, Some(groups), Some(space)),
        !still_told(Some("mention"@), None, Some(space)),
        !still_told(Some("mention"@), Some(groups), None),
        0 <= i < groups.len() && 0 <= j < space.read.len() && groups[i] == space.read[j]
            ==> still_told(Some("mention"@), Some(groups), Some(space)),
        still_told(Some("mention"@), Some(groups), Some(space)) ==> exists|g: Seq<char>| #[trigger]
            groups.contains(g) && space.read.contains(g),
{
    if still_told(Some("mention"@), Some(groups), Some(space)) {
        let (a, b) = choose|a: int, b: int|
            0 <= a < groups.len() && 0 <= b < space.read.len() && #[trigger] groups[a]
                == #[trigger] space.read[b];
        assert(groups.contains(groups[a]));
        assert(space.read.contains(space.read[b]));
    }
}

/// A message says who wrote what in which topic of which space, leads to the
/// topic on that space's host, and carries the way out of its own row. A mail
/// goes to the person's address.
pub proof fn a_message_says_what_was_written(
    row: OwedView,
    address: Seq<char>,
    config: ConfigView,
    space: SpaceView,
    topic: Topic,
    posts: Seq<Post>,
    post: Post,
    key: Seq<u8>,
)
    requires
        crate::config::space_hosted(config.spaces, crate::config::normalised(row.space)) == Some(
            space,
        ),
        post_called(posts, row.post_id) == Some(post),
    ensures
        composed(row, Some(address), config, Some(topic), posts, key) matches Some(message) && {
            &&& message.to == if row.kanal == seq!['m', 'a', 'i', 'l'] {
                address
            } else {
                Seq::empty()
            }
            &&& message.space_title == space.title
            &&& message.topic_title == topic.title@
            &&& message.author == post.author_name@
            &&& message.body == post.body_markdown@
            &&& message.link == seq!['h', 't', 't', 'p', 's', ':', '/', '/'] + row.space + seq![
                '/',
                't',
                '/',
            ] + decimal_text(row.topic_id as int)
            &&& message.unsubscribe == Some(
                seq!['h', 't', 't', 'p', 's', ':', '/', '/'] + row.space + seq!['/', 'u', '/']
                    + decimal_text(row.id as int) + seq!['/'] + token_of(key, row.id),
            )
        },
        composed(row, Some(address), config, None, posts, key) is None,
        composed(row, None, config, Some(topic), posts, key) is None <==> row.kanal == seq![
            'm',
            'a',
            'i',
            'l',
        ],
{
    reveal_strlit("mail");
    reveal_strlit("https://");
    reveal_strlit("/t/");
    reveal_strlit("/u/");
    reveal_strlit("/");
    assert("mail"@ == seq!['m', 'a', 'i', 'l']);
    assert("https://"@ == seq!['h', 't', 't', 'p', 's', ':', '/', '/']);
    assert("/t/"@ == seq!['/', 't', '/']);
    assert("/u/"@ == seq!['/', 'u', '/']);
    assert("/"@ == seq!['/']);
}

/// There is nothing to say of a post that is gone, nor in a space that is.
pub proof fn nothing_to_say(
    row: OwedView,
    address: Option<Seq<char>>,
    config: ConfigView,
    topic: Option<Topic>,
    posts: Seq<Post>,
    key: Seq<u8>,
)
    ensures
        post_called(posts, row.post_id) is None ==> composed(
            row,
            address,
            config,
            topic,
            posts,
            key,
        ) is None,
        crate::config::space_hosted(config.spaces, crate::config::normalised(row.space)) is None
            ==> composed(row, address, config, topic, posts, key) is None,
{
}

/// The way out is sixteen bytes of the tag over the purpose and the number of
/// the row.
pub proof fn the_way_out_is_the_rows_own(key: Seq<u8>, id: i64)
    ensures
        short_tag(key, id).len() == 16,
        forall|i: int|
            0 <= i < 16 ==> #[trigger] short_tag(key, id)[i] == crate::codec::hmac_sha256(
                key,
                encode_utf8("treff-unsubscribe-v1:"@ + decimal_text(id as int)),
            )[i],
        token_of(key, id) == crate::codec::base64url_encoded(short_tag(key, id)),
        message_for(id) == encode_utf8("treff-unsubscribe-v1:"@ + decimal_text(id as int)),
{
}

/// A mail in plain text begins with who wrote it and ends with where to read
/// it; in between stand the topic and, as it was typed, the post.
pub proof fn a_plain_mail(message: MessageView)
    ensures
        ({
            let text = plain_of(message);
            let n = message.author.len() as int;
            let m = message.topic_title.len() as int;
            let b = message.body.len() as int;
            let l = message.link.len() as int;
            &&& text.take(n) == message.author
            &&& text.subrange(n + 11, n + 11 + m) == message.topic_title
            &&& text.subrange(n + m + 15, n + m + 15 + b) == message.body
            &&& text.subrange(n + m + b + 17, n + m + b + 17 + l) == message.link
            &&& text.len() == n + m + b + l + 18
        }),
        subject_of(message) == message.space_title + seq![':', ' '] + message.topic_title,
{
    reveal_strlit(" wrote in \"");
    reveal_strlit("\":\n\n");
    reveal_strlit("\n\n");
    reveal_strlit("\n");
    reveal_strlit(": ");
    assert(": "@ == seq![':', ' ']);
    let text = plain_of(message);
    let n = message.author.len() as int;
    let m = message.topic_title.len() as int;
    let b = message.body.len() as int;
    let l = message.link.len() as int;
    assert(text.take(n) == message.author);
    assert(text.subrange(n + 11, n + 11 + m) == message.topic_title);
    assert(text.subrange(n + m + 15, n + m + 15 + b) == message.body);
    assert(text.subrange(n + m + b + 17, n + m + b + 17 + l) == message.link);
}

/// A mail in HTML says the same, each part written so that it means itself.
pub proof fn an_html_mail(message: MessageView)
    ensures
        ({
            let text = html_of(message);
            let (a, t, b, l) = (
                html_text(message.author),
                html_text(message.topic_title),
                html_text(message.body),
                html_text(message.link),
            );
            let n = a.len() as int;
            let m = t.len() as int;
            let k = b.len() as int;
            let e = l.len() as int;
            &&& text.subrange(6, 6 + n) == a
            &&& text.subrange(n + 21, n + 21 + m) == t
            &&& text.subrange(n + m + 39, n + m + 39 + k) == b
            &&& text.subrange(n + m + k + 64, n + m + k + 64 + e) == l
            &&& text.subrange(n + m + k + e + 66, n + m + k + e + 66 + e) == l
        }),
{
    reveal_strlit("<p><b>");
    reveal_strlit("</b> wrote in \u{201c}");
    reveal_strlit("\u{201d}:</p><blockquote>");
    reveal_strlit("</blockquote><p><a href=\"");
    reveal_strlit("\">");
    reveal_strlit("</a></p>");
    let text = html_of(message);
    let (a, t, b, l) = (
        html_text(message.author),
        html_text(message.topic_title),
        html_text(message.body),
        html_text(message.link),
    );
    let n = a.len() as int;
    let m = t.len() as int;
    let k = b.len() as int;
    let e = l.len() as int;
    assert(text.subrange(6, 6 + n) == a);
    assert(text.subrange(n + 21, n + 21 + m) == t);
    assert(text.subrange(n + m + 39, n + m + 39 + k) == b);
    assert(text.subrange(n + m + k + 64, n + m + k + 64 + e) == l);
    assert(text.subrange(n + m + k + e + 66, n + m + k + e + 66 + e) == l);
}

/// A port is a number of up to sixteen bits, with or without a plus in front.
pub proof fn what_a_port_is(digits: Seq<char>, n: nat)
    requires
        digits.len() > 0,
        number_in(digits) == Some(n),
    ensures
        port_in(digits) is Some <==> n < 65536,
        port_in(digits) matches Some(port) ==> port == n,
        port_in(seq!['+'] + digits) is Some <==> n < 65536,
        port_in(seq!['+'] + digits) matches Some(port) ==> port == n,
        port_in(Seq::empty()) is None,
        port_in(seq!['-'] + digits) is None,
{
    first_is_a_digit(digits);
    assert((seq!['+'] + digits).skip(1) == digits);
    let minus = seq!['-'] + digits;
    if number_in(minus) is Some {
        first_is_a_digit(minus);
    }
}

proof fn first_is_a_digit(s: Seq<char>)
    requires
        s.len() > 0,
        number_in(s) is Some,
    ensures
        '0' <= s[0] <= '9',
    decreases s.len(),
{
    if s.len() > 1 {
        first_is_a_digit(s.drop_last());
        assert(s.drop_last()[0] == s[0]);
    } else {
        assert(s.last() == s[0]);
    }
}

/// A connection is encrypted unless the setting is a nought or says false.
pub proof fn when_mail_is_encrypted(setting: Seq<char>)
    ensures
        tls_on(None),
        tls_on(Some(setting)) <==> setting != seq!['0'] && ascii_lower(setting) != seq![
            'f',
            'a',
            'l',
            's',
            'e',
        ],
{
    reveal_strlit("0");
    reveal_strlit("false");
    assert("0"@ == seq!['0']);
    assert("false"@ == seq!['f', 'a', 'l', 's', 'e']);
}

/// A secret is what stands in its file, without the space around it; a blank
/// file holds none, and neither does one that cannot be read.
pub proof fn a_secret_in_a_file(
    file: SecretFile,
    text: String,
    reason: String,
    front: Seq<char>,
    secret: Seq<char>,
    back: Seq<char>,
)
    requires
        blank(front),
        blank(back),
        solid(secret),
    ensures
        file.contents == Ok::<_, String>(text) && text@ == front + secret + back ==> secret_in(
            Some(file),
        ) == Ok::<_, SecretFault>(Some(secret)),
        file.contents == Ok::<_, String>(text) && text@ == front ==> secret_in(Some(file)) == Err::<
            Option<Seq<char>>,
            _,
        >(SecretFault::Blank { path: file.path@ }),
        file.contents == Err::<String, _>(reason) ==> secret_in(Some(file)) == Err::<
            Option<Seq<char>>,
            _,
        >(SecretFault::Unreadable { path: file.path@, reason: reason@ }),
        secret_in(None) == Ok::<Option<Seq<char>>, SecretFault>(None),
{
    trimming_leaves_the_middle(front, secret, back);
    trimming_leaves_nothing_of_nothing(front);
}

/// A signal names the space, says who wrote in which topic, and leads there; the
/// topic of the receiver is in it where there is one. The post is not.
pub proof fn what_a_signal_says(message: MessageView, topic: Seq<char>)
    ensures
        ({
            let t = payload(message, Some(topic));
            let said = message.author + seq![' ', 'h', 'a', 't', ' ', 'i', 'n', ' ', '"']
                + message.topic_title + seq!['"'] + " geschrieben"@;
            &&& t is Table
            &&& t->Table_0.len() == 4
            &&& entry(t->Table_0, "title"@) == Some(TreeView::Text(message.space_title))
            &&& entry(t->Table_0, "message"@) == Some(TreeView::Text(said))
            &&& entry(t->Table_0, "click"@) == Some(TreeView::Text(message.link))
            &&& entry(t->Table_0, "topic"@) == Some(TreeView::Text(topic))
            &&& payload(message, None) == TreeView::Table(t->Table_0.take(3))
        }),
{
    reveal_strlit("title");
    reveal_strlit("message");
    reveal_strlit("click");
    reveal_strlit("topic");
    reveal_strlit(" hat in \"");
    reveal_strlit("\" geschrieben");
    reveal_strlit(" geschrieben");
    assert("title"@[1] != "topic"@[1] && "title"@[0] != "click"@[0] && "click"@[0] != "topic"@[0]);
    assert("title"@.len() == 5 && "message"@.len() == 7 && "click"@.len() == 5 && "topic"@.len()
        == 5);
    assert(" hat in \""@ == seq![' ', 'h', 'a', 't', ' ', 'i', 'n', ' ', '"']);
    assert("\" geschrieben"@ == seq!['"'] + " geschrieben"@);
    let said = message.author + seq![' ', 'h', 'a', 't', ' ', 'i', 'n', ' ', '"']
        + message.topic_title + seq!['"'] + " geschrieben"@;
    assert(message.author + " hat in \""@ + message.topic_title + "\" geschrieben"@ == said);
    let t = payload(message, Some(topic))->Table_0;
    found(t, 0);
    found(t, 1);
    found(t, 2);
    found(t, 3);
    assert(t.take(3) == payload(message, None)->Table_0);
}

/// A signal goes to an address of the web.
pub proof fn what_an_address_of_the_web_is(rest: Seq<char>, url: Seq<char>)
    ensures
        web_address(seq!['h', 't', 't', 'p', 's', ':', '/', '/'] + rest),
        web_address(seq!['h', 't', 't', 'p', ':', '/', '/'] + rest),
        web_address(url) ==> url.len() >= 7 && url[0] == 'h' && url[1] == 't' && url[2] == 't'
            && url[3] == 'p' && (url[4] == ':' || url[4] == 's'),
{
    reveal_strlit("https://");
    reveal_strlit("http://");
    let (a, b) = (
        seq!['h', 't', 't', 'p', 's', ':', '/', '/'],
        seq!['h', 't', 't', 'p', ':', '/', '/'],
    );
    assert("https://"@ == a);
    assert("http://"@ == b);
    assert((a + rest).take(8) == a);
    assert((b + rest).take(7) == b);
    if crate::text::starts_with(url, a) {
        assert(forall|i: int| 0 <= i < 8 ==> url[i] == url.take(8)[i]);
        assert(url[0] == a[0] && url[1] == a[1] && url[2] == a[2] && url[3] == a[3] && url[4]
            == a[4]);
    }
    if crate::text::starts_with(url, b) {
        assert(forall|i: int| 0 <= i < 7 ==> url[i] == url.take(7)[i]);
        assert(url[0] == b[0] && url[1] == b[1] && url[2] == b[2] && url[3] == b[3] && url[4]
            == b[4]);
    }
}

/// An answer is passed on if it is another than the last one, and then it is
/// the last one.
pub proof fn an_answer_is_passed_on(last: Option<Seq<char>>, answer: Seq<char>)
    ensures
        last != Some(answer) ==> heard(last, Some(answer)) == (Some(answer), Some(answer)),
        heard(Some(answer), Some(answer)) == (Some(answer), None::<Seq<char>>),
        heard(last, None) == (last, None::<Seq<char>>),
{
}

/// An entry leads to its post in its topic, replies to the first that is new,
/// and a report to its own page; on another host it names its own.
pub proof fn where_an_entry_leads(entry: EntryView, host: Seq<char>)
    ensures
        match entry {
            EntryView::Replies { topic_id, first_post_id, .. } => entry_path(entry) == seq![
                '/',
                't',
                '/',
            ] + decimal_text(topic_id as int) + seq!['#', 'p'] + decimal_text(first_post_id as int),
            EntryView::Mention { topic_id, post_id, .. } => entry_path(entry) == seq!['/', 't', '/']
                + decimal_text(topic_id as int) + seq!['#', 'p'] + decimal_text(post_id as int),
            EntryView::Likes { topic_id, post_id, .. } => entry_path(entry) == seq!['/', 't', '/']
                + decimal_text(topic_id as int) + seq!['#', 'p'] + decimal_text(post_id as int),
            EntryView::Event { id, .. } => entry_path(entry) == "/notifications/e/"@ + decimal_text(
                id as int,
            ),
        },
        match entry {
            EntryView::Replies { space, .. } => entry.place() == space,
            EntryView::Mention { space, .. } => entry.place() == space,
            EntryView::Likes { space, .. } => entry.place() == space,
            EntryView::Event { space, .. } => entry.place() == space,
        },
        base_of(host, host) == Seq::<char>::empty(),
        entry.place() != host ==> base_of(entry.place(), host) == seq![
            'h',
            't',
            't',
            'p',
            's',
            ':',
            '/',
            '/',
        ] + entry.place(),
        entry_tree(entry, host) == entry_facts(
            entry,
            base_of(entry.place(), host) + entry_path(entry),
        ),
{
    reveal_strlit("https://");
    reveal_strlit("/t/");
    reveal_strlit("#p");
    assert("https://"@ == seq!['h', 't', 't', 'p', 's', ':', '/', '/']);
    assert("/t/"@ == seq!['/', 't', '/']);
    assert("#p"@ == seq!['#', 'p']);
}

proof fn names_differ()
    ensures
        "kind"@ != "title"@ && "kind"@ != "count"@ && "kind"@ != "author"@ && "kind"@ != "at"@
            && "kind"@ != "unread"@ && "kind"@ != "link"@ && "kind"@ != "reason"@,
        "title"@ != "count"@ && "title"@ != "author"@ && "title"@ != "at"@ && "title"@ != "unread"@
            && "title"@ != "link"@ && "title"@ != "reason"@,
        "count"@ != "author"@ && "count"@ != "at"@ && "count"@ != "unread"@ && "count"@ != "link"@,
        "author"@ != "at"@ && "author"@ != "unread"@ && "author"@ != "link"@,
        "reason"@ != "at"@ && "reason"@ != "unread"@ && "reason"@ != "link"@,
        "at"@ != "unread"@ && "at"@ != "link"@,
        "unread"@ != "link"@,
        "unread"@ != "entries"@,
{
    reveal_strlit("kind");
    reveal_strlit("title");
    reveal_strlit("count");
    reveal_strlit("author");
    reveal_strlit("at");
    reveal_strlit("unread");
    reveal_strlit("link");
    reveal_strlit("reason");
    reveal_strlit("entries");
    assert("kind"@.len() == 4 && "title"@.len() == 5 && "count"@.len() == 5 && "author"@.len() == 6
        && "at"@.len() == 2 && "unread"@.len() == 6 && "link"@.len() == 4 && "reason"@.len() == 6
        && "entries"@.len() == 7);
    assert("kind"@[0] != "link"@[0]);
    assert("title"@[0] != "count"@[0]);
    assert("author"@[0] != "unread"@[0]);
    assert("reason"@[0] != "unread"@[0]);
}

/// What the bell is told of an entry is what the entry says.
pub proof fn what_the_bell_is_told(one: EntryView, link: Seq<char>)
    ensures
        ({
            let t = entry_facts(one, link);
            &&& t is Table
            &&& entry(t->Table_0, "link"@) == Some(TreeView::Text(link))
            &&& match one {
                EntryView::Replies { topic_title, count, latest_author, latest_at, unread, .. } => {
                    &&& t->Table_0.len() == 7
                    &&& entry(t->Table_0, "kind"@) == Some(TreeView::Text("replies"@))
                    &&& entry(t->Table_0, "title"@) == Some(TreeView::Text(topic_title))
                    &&& entry(t->Table_0, "count"@) == Some(TreeView::Integer(count as i64))
                    &&& entry(t->Table_0, "author"@) == Some(TreeView::Text(latest_author))
                    &&& entry(t->Table_0, "at"@) == Some(TreeView::Integer(latest_at))
                    &&& entry(t->Table_0, "unread"@) == Some(TreeView::Bool(unread))
                },
                EntryView::Mention { topic_title, author, at, unread, .. } => {
                    &&& t->Table_0.len() == 6
                    &&& entry(t->Table_0, "kind"@) == Some(TreeView::Text("mention"@))
                    &&& entry(t->Table_0, "title"@) == Some(TreeView::Text(topic_title))
                    &&& entry(t->Table_0, "author"@) == Some(TreeView::Text(author))
                    &&& entry(t->Table_0, "at"@) == Some(TreeView::Integer(at))
                    &&& entry(t->Table_0, "unread"@) == Some(TreeView::Bool(unread))
                },
                EntryView::Likes { topic_title, count, latest_name, at, unread, .. } => {
                    &&& t->Table_0.len() == 7
                    &&& entry(t->Table_0, "kind"@) == Some(TreeView::Text("likes"@))
                    &&& entry(t->Table_0, "title"@) == Some(TreeView::Text(topic_title))
                    &&& entry(t->Table_0, "count"@) == Some(TreeView::Integer(count as i64))
                    &&& entry(t->Table_0, "author"@) == Some(TreeView::Text(latest_name))
                    &&& entry(t->Table_0, "at"@) == Some(TreeView::Integer(at))
                    &&& entry(t->Table_0, "unread"@) == Some(TreeView::Bool(unread))
                },
                EntryView::Event { kind, title, reason, at, unread, .. } => {
                    &&& t->Table_0.len() == 6
                    &&& entry(t->Table_0, "kind"@) == Some(TreeView::Text(kind.word()))
                    &&& entry(t->Table_0, "title"@) == Some(TreeView::Text(title))
                    &&& reason is None ==> entry(t->Table_0, "reason"@) == Some(TreeView::Null)
                    &&& reason is Some ==> entry(t->Table_0, "reason"@) == Some(
                        TreeView::Text(reason->0),
                    )
                    &&& entry(t->Table_0, "at"@) == Some(TreeView::Integer(at))
                    &&& entry(t->Table_0, "unread"@) == Some(TreeView::Bool(unread))
                },
            }
        }),
{
    names_differ();
    let t = entry_facts(one, link)->Table_0;
    found(t, 0);
    found(t, 1);
    found(t, 2);
    found(t, 3);
    found(t, 4);
    found(t, 5);
    if t.len() == 7 {
        found(t, 6);
    }
}

/// The bell is told how much is new, and of each entry in its order.
pub proof fn what_the_bell_holds(unread: i64, entries: Seq<EntryView>, host: Seq<char>, i: int)
    ensures
        ({
            let t = bell_tree(unread, entries, host);
            &&& t is Table
            &&& entry(t->Table_0, "unread"@) == Some(TreeView::Integer(unread))
            &&& entry(t->Table_0, "entries"@) matches Some(TreeView::List(items)) && {
                &&& items.len() == entries.len()
                &&& 0 <= i < items.len() ==> items[i] == entry_tree(entries[i], host)
            }
        }),
{
    names_differ();
    let t = bell_tree(unread, entries, host)->Table_0;
    found(t, 0);
    found(t, 1);
}

} // verus!
