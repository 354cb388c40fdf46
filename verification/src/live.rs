//! The bell, live: one stream per open page.
//!
//! A stream sends the bell once on connect, and again whenever something
//! changed anywhere, but only if the answer is different from the last one it
//! sent. A change for somebody else therefore costs one query and sends
//! nothing: not even "still 0", which would tell a watcher that something
//! happened to someone.
use crate::db::inbox::{self, Entry, EntryView};
use crate::text::{decimal, decimal_text, same, text_of};
use crate::tree::{entries_view, items_view, list_view, table_view, Tree, TreeView};
use vstd::prelude::*;
use vstd::string::*;

verus! {

/// Every so many seconds a comment, so that no proxy between here and the
/// browser takes a quiet connection for a dead one.
pub const KEEP_ALIVE_SECONDS: u64 = 25;

/// What wakes a stream.
#[derive(Debug, Clone, Copy, PartialEq, Eq, Structural)]
pub enum Wake {
    /// The page has just been opened.
    Connected,
    /// Something changed. Whatever space it was in: the bell shows them all,
    /// and the question decides whether this person's answer moved.
    Changed,
    /// Something changed, and what exactly is lost. Asking again is the whole
    /// answer.
    FellBehind,
    /// Nothing will change any more.
    Closed,
}

/// Does a stream ask for the bell, being woken like this? If not, it ends.
pub fn asks(wake: Wake) -> (r: bool)
    ensures
        r == (wake != Wake::Closed),
{
    wake != Wake::Closed
}

/// What a stream remembers to have sent after an answer, and what it sends. A
/// question that could not be answered is not the end of the stream: the next
/// change asks again.
pub open spec fn heard(last: Option<Seq<char>>, answer: Option<Seq<char>>) -> (
    Option<Seq<char>>,
    Option<Seq<char>>,
) {
    if answer is None || answer == last {
        (last, None)
    } else {
        (answer, answer)
    }
}

/// An open stream: what it sent last.
#[derive(Debug)]
pub struct BellStream {
    pub last: Option<String>,
}

impl BellStream {
    pub fn new() -> (r: BellStream)
        ensures
            r.last is None,
    {
        BellStream { last: None }
    }

    /// Takes an answer to the question for the bell, and says what to send.
    pub fn hear(&mut self, answer: Option<String>) -> (r: Option<String>)
        ensures
            (text_of(final(self).last), text_of(r)) == heard(
                text_of(old(self).last),
                text_of(answer),
            ),
    {
        let answer = match answer {
            Some(answer) => answer,
            None => {
                return None;
            },
        };
        let known = match &self.last {
            Some(last) => same(last, &answer),
            None => false,
        };
        if known {
            return None;
        }
        self.last = Some(answer.clone());
        Some(answer)
    }
}

/// A stream sends its first answer, sends no answer twice in a row, and
/// forgets nothing over a question that failed: what somebody else's change
/// leaves as it was is not sent.
pub proof fn only_news_is_sent(last: Option<Seq<char>>, answer: Seq<char>)
    ensures
        heard(None, Some(answer)).1 == Some(answer),
        heard(heard(last, Some(answer)).0, Some(answer)).1 is None,
        heard(heard(heard(last, Some(answer)).0, None).0, Some(answer)).1 is None,
        heard(last, Some(answer)).0 == Some(answer),
{
}

/// Where an entry's link starts.
pub open spec fn base_of(entry_space: Seq<char>, current_host: Seq<char>) -> Seq<char> {
    if entry_space == current_host {
        Seq::empty()
    } else {
        "https://"@ + entry_space
    }
}

/// Where an entry's link starts: nothing on the host the entry belongs to,
/// `https://<its host>` everywhere else. The start page (`current_host` empty)
/// gets every link absolute.
pub fn link_base(entry_space: &str, current_host: &str) -> (r: String)
    ensures
        r@ == base_of(entry_space@, current_host@),
{
    if same(entry_space, current_host) {
        String::new()
    } else {
        "https://".to_owned().concat(entry_space)
    }
}

/// The place of a post below a host.
pub open spec fn post_path(topic_id: i64, post_id: i64) -> Seq<char> {
    "/t/"@ + decimal_text(topic_id as int) + "#p"@ + decimal_text(post_id as int)
}

/// The place of a post below a host.
pub fn path_to_post(topic_id: i64, post_id: i64) -> (r: String)
    ensures
        r@ == post_path(topic_id, post_id),
{
    "/t/".to_owned().concat(&decimal(topic_id)).concat("#p").concat(&decimal(post_id))
}

/// Where an entry leads, below its host.
pub open spec fn entry_path(entry: EntryView) -> Seq<char> {
    match entry {
        EntryView::Replies { topic_id, first_post_id, .. } => post_path(topic_id, first_post_id),
        EntryView::Mention { topic_id, post_id, .. } => post_path(topic_id, post_id),
        EntryView::Likes { topic_id, post_id, .. } => post_path(topic_id, post_id),
        EntryView::Event { id, .. } => "/notifications/e/"@ + decimal_text(id as int),
    }
}

/// Where an entry leads, below its host. It leads through the forum, where
/// reading marks things read.
pub fn path_of_entry(entry: &Entry) -> (r: String)
    ensures
        r@ == entry_path(entry@),
{
    match entry {
        Entry::Replies { topic_id, first_post_id, .. } => path_to_post(*topic_id, *first_post_id),
        Entry::Mention { topic_id, post_id, .. } => path_to_post(*topic_id, *post_id),
        Entry::Likes { topic_id, post_id, .. } => path_to_post(*topic_id, *post_id),
        Entry::Event { id, .. } => "/notifications/e/".to_owned().concat(&decimal(*id)),
    }
}

/// The facts of an entry.
pub open spec fn entry_facts(entry: EntryView, link: Seq<char>) -> TreeView {
    match entry {
        EntryView::Replies { topic_title, count, latest_author, latest_at, unread, .. } =>
            TreeView::Table(
            seq![
                ("kind"@, TreeView::Text("replies"@)),
                ("title"@, TreeView::Text(topic_title)),
                ("count"@, TreeView::Integer(count as i64)),
                ("author"@, TreeView::Text(latest_author)),
                ("at"@, TreeView::Integer(latest_at)),
                ("unread"@, TreeView::Bool(unread)),
                ("link"@, TreeView::Text(link)),
            ],
        ),
        EntryView::Mention { topic_title, author, at, unread, .. } => TreeView::Table(
            seq![
                ("kind"@, TreeView::Text("mention"@)),
                ("title"@, TreeView::Text(topic_title)),
                ("author"@, TreeView::Text(author)),
                ("at"@, TreeView::Integer(at)),
                ("unread"@, TreeView::Bool(unread)),
                ("link"@, TreeView::Text(link)),
            ],
        ),
        EntryView::Likes { topic_title, count, latest_name, at, unread, .. } => TreeView::Table(
            seq![
                ("kind"@, TreeView::Text("likes"@)),
                ("title"@, TreeView::Text(topic_title)),
                ("count"@, TreeView::Integer(count as i64)),
                ("author"@, TreeView::Text(latest_name)),
                ("at"@, TreeView::Integer(at)),
                ("unread"@, TreeView::Bool(unread)),
                ("link"@, TreeView::Text(link)),
            ],
        ),
        EntryView::Event { kind, title, reason, at, unread, .. } => TreeView::Table(
            seq![
                ("kind"@, TreeView::Text(kind.word())),
                ("title"@, TreeView::Text(title)),
                (
                    "reason"@,
                    match reason {
                        Some(reason) => TreeView::Text(reason),
                        None => TreeView::Null,
                    },
                ),
                ("at"@, TreeView::Integer(at)),
                ("unread"@, TreeView::Bool(unread)),
                ("link"@, TreeView::Text(link)),
            ],
        ),
    }
}

/// An entry as a page on `current_host` gets it.
pub open spec fn entry_tree(entry: EntryView, current_host: Seq<char>) -> TreeView {
    entry_facts(entry, base_of(entry.place(), current_host) + entry_path(entry))
}

fn text_field(key: &str, value: &str) -> (r: (String, Tree))
    ensures
        r.0@ == key@,
        r.1@ == TreeView::Text(value@),
{
    (key.to_owned(), Tree::Text(value.to_owned()))
}

fn number_field(key: &str, value: i64) -> (r: (String, Tree))
    ensures
        r.0@ == key@,
        r.1@ == TreeView::Integer(value),
{
    (key.to_owned(), Tree::Integer(value))
}

fn flag_field(key: &str, value: bool) -> (r: (String, Tree))
    ensures
        r.0@ == key@,
        r.1@ == TreeView::Bool(value),
{
    (key.to_owned(), Tree::Bool(value))
}

/// One entry as a page outside the list draws it: the start page, and the
/// overlay under the bell. Words are the page's business; this carries the
/// facts and a link that leads through the forum, where reading marks things
/// read. `current_host` is the host the page is shown on.
pub fn entry_json(entry: &Entry, current_host: &str) -> (r: Tree)
    ensures
        r@ == entry_tree(entry@, current_host@),
{
    let link = link_base(entry.space(), current_host).concat(&path_of_entry(entry));
    let fields: Vec<(String, Tree)> = match entry {
        Entry::Replies { topic_title, count, latest_author, latest_at, unread, .. } => vec![
            text_field("kind", "replies"),
            text_field("title", topic_title),
            number_field("count", *count),
            text_field("author", latest_author),
            number_field("at", *latest_at),
            flag_field("unread", *unread),
            text_field("link", &link),
        ],
        Entry::Mention { topic_title, author, at, unread, .. } => vec![
            text_field("kind", "mention"),
            text_field("title", topic_title),
            text_field("author", author),
            number_field("at", *at),
            flag_field("unread", *unread),
            text_field("link", &link),
        ],
        Entry::Likes { topic_title, count, latest_name, at, unread, .. } => vec![
            text_field("kind", "likes"),
            text_field("title", topic_title),
            number_field("count", *count),
            text_field("author", latest_name),
            number_field("at", *at),
            flag_field("unread", *unread),
            text_field("link", &link),
        ],
        Entry::Event { kind, title, reason, at, unread, .. } => {
            let reason: Tree = match reason {
                Some(reason) => Tree::Text(reason.clone()),
                None => Tree::Null,
            };
            vec![
                text_field("kind", kind.as_str()),
                text_field("title", title),
                ("reason".to_owned(), reason),
                number_field("at", *at),
                flag_field("unread", *unread),
                text_field("link", &link),
            ]
        },
    };
    proof {
        table_view(fields);
        let made = entries_view(fields@);
        let wanted = entry_tree(entry@, current_host@)->Table_0;
        assert(made =~= wanted);
    }
    Tree::Table(fields)
}

/// The bell of an account: the number and the entries.
pub open spec fn bell_tree(
    unread: i64,
    entries: Seq<EntryView>,
    current_host: Seq<char>,
) -> TreeView {
    TreeView::Table(
        seq![
            ("unread"@, TreeView::Integer(unread)),
            (
                "entries"@,
                TreeView::List(
                    Seq::new(entries.len(), |i: int| entry_tree(entries[i], current_host)),
                ),
            ),
        ],
    )
}

/// The bell of an account, with links relative on `current_host` and absolute
/// everywhere else. `entries` are those over the spaces this person may read.
pub fn bell_json(unread: i64, entries: &[Entry], current_host: &str) -> (r: Tree)
    ensures
        r@ == bell_tree(unread, inbox::entries_view(entries@), current_host@),
{
    let ghost seen = inbox::entries_view(entries@);
    let mut list: Vec<Tree> = Vec::new();
    let mut i: usize = 0;
    while i < entries.len()
        invariant
            i <= entries@.len(),
            seen == inbox::entries_view(entries@),
            list@.len() == i,
            forall|k: int|
                0 <= k < i ==> (#[trigger] list@[k])@ == entry_tree(seen[k], current_host@),
        decreases entries@.len() - i,
    {
        let one = entry_json(&entries[i], current_host);
        assert(one@ == entry_tree(seen[i as int], current_host@));
        list.push(one);
        i += 1;
    }
    proof {
        list_view(list);
        assert(items_view(list@) =~= Seq::new(
            seen.len(),
            |i: int| entry_tree(seen[i], current_host@),
        ));
    }
    let fields: Vec<(String, Tree)> = vec![
        number_field("unread", unread),
        ("entries".to_owned(), Tree::List(list)),
    ];
    proof {
        table_view(fields);
        assert(entries_view(fields@) =~= bell_tree(unread, seen, current_host@)->Table_0);
    }
    Tree::Table(fields)
}

/// A link is relative exactly on the host its entry belongs to: on every other
/// page, and on the start page, it names its host.
pub proof fn a_link_leads_to_its_own_host(entry_space: Seq<char>, current_host: Seq<char>)
    requires
        entry_space.len() > 0,
    ensures
        base_of(entry_space, current_host).len() == 0 <==> entry_space == current_host,
        base_of(entry_space, Seq::empty()) == "https://"@ + entry_space,
{
    reveal_strlit("https://");
}

} // verus!
