//! What a person has not seen yet: the bell.
//!
//! **Replies are bundled per topic, mentions stand alone.** Three answers in
//! one lively thread are one line, because a list that grows by one line per
//! answer stops being "everything at a glance". A mention is addressed to one
//! person; bundling it with other people's replies would hide exactly the line
//! that was meant for them.
use crate::authz::listed;
use crate::db::events::{kind_called, Kind};
use crate::order::{
    arrange, arranged, arranging_orders, arranging_views, in_order, is_order, spot, spot_bounds,
};
use crate::text::{same, text_of, texts};
use vstd::prelude::*;

verus! {

/// One line of the notifications.
#[derive(Debug, Clone, PartialEq, Eq)]
pub enum Entry {
    /// New posts in a topic this person follows.
    Replies {
        topic_id: i64,
        topic_title: String,
        space: String,
        count: i64,
        latest_author: String,
        latest_at: i64,
        /// Where the link goes: the first post of the bundle, so reading
        /// starts where the person left off rather than at the end.
        first_post_id: i64,
        unread: bool,
    },
    /// Something happened elsewhere for this person.
    Event {
        id: i64,
        kind: Kind,
        title: String,
        reason: Option<String>,
        at: i64,
        unread: bool,
        space: String,
    },
    /// Somebody wrote `@handle` for this person.
    Mention {
        topic_id: i64,
        topic_title: String,
        post_id: i64,
        author: String,
        space: String,
        at: i64,
        unread: bool,
    },
    /// People like this person's post: one line per post.
    Likes {
        topic_id: i64,
        topic_title: String,
        post_id: i64,
        count: i64,
        space: String,
        latest_name: String,
        at: i64,
        unread: bool,
    },
}

pub enum EntryView {
    Replies {
        topic_id: i64,
        topic_title: Seq<char>,
        space: Seq<char>,
        count: int,
        latest_author: Seq<char>,
        latest_at: i64,
        first_post_id: i64,
        unread: bool,
    },
    Event {
        id: i64,
        kind: Kind,
        title: Seq<char>,
        reason: Option<Seq<char>>,
        at: i64,
        unread: bool,
        space: Seq<char>,
    },
    Mention {
        topic_id: i64,
        topic_title: Seq<char>,
        post_id: i64,
        author: Seq<char>,
        space: Seq<char>,
        at: i64,
        unread: bool,
    },
    Likes {
        topic_id: i64,
        topic_title: Seq<char>,
        post_id: i64,
        count: int,
        space: Seq<char>,
        latest_name: Seq<char>,
        at: i64,
        unread: bool,
    },
}

impl View for Entry {
    type V = EntryView;

    open spec fn view(&self) -> EntryView {
        match *self {
            Entry::Replies {
                topic_id,
                topic_title,
                space,
                count,
                latest_author,
                latest_at,
                first_post_id,
                unread,
            } => EntryView::Replies {
                topic_id,
                topic_title: topic_title@,
                space: space@,
                count: count as int,
                latest_author: latest_author@,
                latest_at,
                first_post_id,
                unread,
            },
            Entry::Event { id, kind, title, reason, at, unread, space } => EntryView::Event {
                id,
                kind,
                title: title@,
                reason: text_of(reason),
                at,
                unread,
                space: space@,
            },
            Entry::Mention { topic_id, topic_title, post_id, author, space, at, unread } => {
                EntryView::Mention {
                    topic_id,
                    topic_title: topic_title@,
                    post_id,
                    author: author@,
                    space: space@,
                    at,
                    unread,
                }
            },
            Entry::Likes {
                topic_id,
                topic_title,
                post_id,
                count,
                space,
                latest_name,
                at,
                unread,
            } => EntryView::Likes {
                topic_id,
                topic_title: topic_title@,
                post_id,
                count: count as int,
                space: space@,
                latest_name: latest_name@,
                at,
                unread,
            },
        }
    }
}

impl EntryView {
    pub open spec fn is_unread(self) -> bool {
        match self {
            EntryView::Replies { unread, .. } => unread,
            EntryView::Mention { unread, .. } => unread,
            EntryView::Likes { unread, .. } => unread,
            EntryView::Event { unread, .. } => unread,
        }
    }

    pub open spec fn moment(self) -> i64 {
        match self {
            EntryView::Replies { latest_at, .. } => latest_at,
            EntryView::Mention { at, .. } => at,
            EntryView::Likes { at, .. } => at,
            EntryView::Event { at, .. } => at,
        }
    }

    pub open spec fn place(self) -> Seq<char> {
        match self {
            EntryView::Replies { space, .. } => space,
            EntryView::Mention { space, .. } => space,
            EntryView::Likes { space, .. } => space,
            EntryView::Event { space, .. } => space,
        }
    }
}

impl Entry {
    pub fn unread(&self) -> (r: bool)
        ensures
            r == self@.is_unread(),
    {
        match self {
            Entry::Replies { unread, .. } => *unread,
            Entry::Mention { unread, .. } => *unread,
            Entry::Likes { unread, .. } => *unread,
            Entry::Event { unread, .. } => *unread,
        }
    }

    pub fn at(&self) -> (r: i64)
        ensures
            r == self@.moment(),
    {
        match self {
            Entry::Replies { latest_at, .. } => *latest_at,
            Entry::Mention { at, .. } => *at,
            Entry::Likes { at, .. } => *at,
            Entry::Event { at, .. } => *at,
        }
    }

    /// The host of the space the entry belongs to.
    pub fn space(&self) -> (r: &str)
        ensures
            r@ == self@.place(),
    {
        match self {
            Entry::Replies { space, .. } => space.as_str(),
            Entry::Mention { space, .. } => space.as_str(),
            Entry::Likes { space, .. } => space.as_str(),
            Entry::Event { space, .. } => space.as_str(),
        }
    }
}

/// Why a row is in somebody's inbox.
#[derive(Debug, Clone, Copy, PartialEq, Eq, Structural)]
pub enum Reason {
    Reply,
    Mention,
    Like,
}

/// A row of somebody's inbox, with what there is to know about the topic and
/// the post it is about.
#[derive(Debug)]
pub struct Row {
    pub reason: Reason,
    pub space: String,
    pub topic_id: i64,
    pub topic_title: String,
    pub post_id: i64,
    /// Who wrote the post.
    pub author: String,
    pub at: i64,
    pub unread: bool,
    /// Is the topic withdrawn?
    pub hidden: bool,
    /// How many people like the post now.
    pub likes: i64,
    /// Who of them did so last.
    pub latest_like: Option<String>,
}

pub struct RowView {
    pub reason: Reason,
    pub space: Seq<char>,
    pub topic_id: i64,
    pub topic_title: Seq<char>,
    pub post_id: i64,
    pub author: Seq<char>,
    pub at: i64,
    pub unread: bool,
    pub hidden: bool,
    pub likes: i64,
    pub latest_like: Option<Seq<char>>,
}

impl View for Row {
    type V = RowView;

    open spec fn view(&self) -> RowView {
        RowView {
            reason: self.reason,
            space: self.space@,
            topic_id: self.topic_id,
            topic_title: self.topic_title@,
            post_id: self.post_id,
            author: self.author@,
            at: self.at,
            unread: self.unread,
            hidden: self.hidden,
            likes: self.likes,
            latest_like: text_of(self.latest_like),
        }
    }
}

pub open spec fn rows_view(rows: Seq<Row>) -> Seq<RowView> {
    Seq::new(rows.len(), |i: int| rows[i]@)
}

/// An event stored for somebody's handle.
#[derive(Debug)]
pub struct Stored {
    pub id: i64,
    pub kind: String,
    pub title: String,
    pub reason: Option<String>,
    pub at: i64,
    pub unread: bool,
    pub space: String,
}

pub struct StoredView {
    pub id: i64,
    pub kind: Seq<char>,
    pub title: Seq<char>,
    pub reason: Option<Seq<char>>,
    pub at: i64,
    pub unread: bool,
    pub space: Seq<char>,
}

impl View for Stored {
    type V = StoredView;

    open spec fn view(&self) -> StoredView {
        StoredView {
            id: self.id,
            kind: self.kind@,
            title: self.title@,
            reason: text_of(self.reason),
            at: self.at,
            unread: self.unread,
            space: self.space@,
        }
    }
}

pub open spec fn stored_view(events: Seq<Stored>) -> Seq<StoredView> {
    Seq::new(events.len(), |i: int| events[i]@)
}

/// What may become a line: how it is ordered, and what it says, unless there
/// is nothing true to say.
#[derive(Debug)]
pub struct Line {
    pub unread: bool,
    pub at: i64,
    pub entry: Option<Entry>,
}

pub struct LineView {
    pub unread: bool,
    pub at: i64,
    pub entry: Option<EntryView>,
}

impl View for Line {
    type V = LineView;

    open spec fn view(&self) -> LineView {
        LineView {
            unread: self.unread,
            at: self.at,
            entry: match self.entry {
                Some(e) => Some(e@),
                None => None,
            },
        }
    }
}

pub open spec fn lines_view(lines: Seq<Line>) -> Seq<LineView> {
    lines.map_values(|line: Line| line@)
}

pub open spec fn entries_view(entries: Seq<Entry>) -> Seq<EntryView> {
    entries.map_values(|entry: Entry| entry@)
}

/// Unread first, then newest first.
pub open spec fn line_before(a: LineView, b: LineView) -> bool {
    (a.unread && !b.unread) || (a.unread == b.unread && a.at > b.at)
}

/// Does the row count at all: in one of these spaces, in a topic that has not
/// been withdrawn?
pub open spec fn counts(row: RowView, spaces: Seq<Seq<char>>, reason: Reason) -> bool {
    row.reason == reason && !row.hidden && spaces.contains(row.space)
}

/// The rows that count, in order.
pub open spec fn counted(rows: Seq<RowView>, spaces: Seq<Seq<char>>, reason: Reason) -> Seq<RowView>
    decreases rows.len(),
{
    if rows.len() == 0 {
        Seq::empty()
    } else {
        let before = counted(rows.drop_last(), spaces, reason);
        if counts(rows.last(), spaces, reason) {
            before.push(rows.last())
        } else {
            before
        }
    }
}

/// The replies of one bundle: one topic, and one state of being read. Read and
/// unread replies of the same topic are two lines: after reading, "1 new
/// reply" is the truth, and "2 replies, one of which you saw" is not a
/// notification.
pub open spec fn bundled(replies: Seq<RowView>, topic_id: i64, unread: bool) -> Seq<RowView>
    decreases replies.len(),
{
    if replies.len() == 0 {
        Seq::empty()
    } else {
        let before = bundled(replies.drop_last(), topic_id, unread);
        let last = replies.last();
        if last.topic_id == topic_id && last.unread == unread {
            before.push(last)
        } else {
            before
        }
    }
}

/// The bundles there are, in the order in which they begin.
pub open spec fn bundle_keys(replies: Seq<RowView>) -> Seq<(i64, bool)>
    decreases replies.len(),
{
    if replies.len() == 0 {
        Seq::empty()
    } else {
        let before = bundle_keys(replies.drop_last());
        let key = (replies.last().topic_id, replies.last().unread);
        if before.contains(key) {
            before
        } else {
            before.push(key)
        }
    }
}

/// The smallest post number among these.
pub open spec fn first_post(rows: Seq<RowView>) -> i64
    decreases rows.len(),
{
    if rows.len() <= 1 {
        rows[0].post_id
    } else {
        let before = first_post(rows.drop_last());
        if rows.last().post_id < before {
            rows.last().post_id
        } else {
            before
        }
    }
}

/// The row of the latest post among these.
pub open spec fn last_row(rows: Seq<RowView>) -> RowView
    decreases rows.len(),
{
    if rows.len() <= 1 {
        rows[0]
    } else {
        let before = last_row(rows.drop_last());
        if rows.last().post_id > before.post_id {
            rows.last()
        } else {
            before
        }
    }
}

/// The latest moment among these.
pub open spec fn last_moment(rows: Seq<RowView>) -> i64
    decreases rows.len(),
{
    if rows.len() <= 1 {
        rows[0].at
    } else {
        let before = last_moment(rows.drop_last());
        if rows.last().at > before {
            rows.last().at
        } else {
            before
        }
    }
}

/// The line for one bundle of replies.
pub open spec fn bundle_line(rows: Seq<RowView>, unread: bool) -> LineView {
    LineView {
        unread,
        at: last_moment(rows),
        entry: Some(
            EntryView::Replies {
                topic_id: last_row(rows).topic_id,
                topic_title: last_row(rows).topic_title,
                space: last_row(rows).space,
                count: rows.len() as int,
                latest_author: last_row(rows).author,
                latest_at: last_moment(rows),
                first_post_id: first_post(rows),
                unread,
            },
        ),
    }
}

pub open spec fn reply_lines(replies: Seq<RowView>) -> Seq<LineView> {
    Seq::new(
        bundle_keys(replies).len(),
        |i: int|
            {
                let key = bundle_keys(replies)[i];
                bundle_line(bundled(replies, key.0, key.1), key.1)
            },
    )
}

pub open spec fn mention_line(row: RowView) -> LineView {
    LineView {
        unread: row.unread,
        at: row.at,
        entry: Some(
            EntryView::Mention {
                topic_id: row.topic_id,
                topic_title: row.topic_title,
                post_id: row.post_id,
                author: row.author,
                space: row.space,
                at: row.at,
                unread: row.unread,
            },
        ),
    }
}

/// The count and the latest name are read now, not when the row was written:
/// the line is then as true as the number under the post. A line about a post
/// that nobody likes is left out, not shown as "nobody likes your post".
pub open spec fn like_line(row: RowView) -> LineView {
    LineView {
        unread: row.unread,
        at: row.at,
        entry: if row.likes > 0 && row.latest_like is Some {
            Some(
                EntryView::Likes {
                    topic_id: row.topic_id,
                    topic_title: row.topic_title,
                    post_id: row.post_id,
                    count: row.likes as int,
                    space: row.space,
                    latest_name: row.latest_like->0,
                    at: row.at,
                    unread: row.unread,
                },
            )
        } else {
            None
        },
    }
}

/// An event of a kind that is not known is left out rather than shown as
/// something it is not.
pub open spec fn event_line(event: StoredView) -> LineView {
    LineView {
        unread: event.unread,
        at: event.at,
        entry: match kind_called(event.kind) {
            Some(kind) => Some(
                EntryView::Event {
                    id: event.id,
                    kind,
                    title: event.title,
                    reason: event.reason,
                    at: event.at,
                    unread: event.unread,
                    space: event.space,
                },
            ),
            None => None,
        },
    }
}

/// The events that count, in order.
pub open spec fn events_in(events: Seq<StoredView>, spaces: Seq<Seq<char>>) -> Seq<StoredView>
    decreases events.len(),
{
    if events.len() == 0 {
        Seq::empty()
    } else {
        let before = events_in(events.drop_last(), spaces);
        if spaces.contains(events.last().space) {
            before.push(events.last())
        } else {
            before
        }
    }
}

/// The lines of each kind, before any of them is left out.
pub open spec fn lines_for(
    rows: Seq<RowView>,
    events: Seq<StoredView>,
    spaces: Seq<Seq<char>>,
) -> (Seq<LineView>, Seq<LineView>, Seq<LineView>, Seq<LineView>) {
    (
        reply_lines(counted(rows, spaces, Reason::Reply)),
        counted(rows, spaces, Reason::Mention).map_values(|row: RowView| mention_line(row)),
        counted(rows, spaces, Reason::Like).map_values(|row: RowView| like_line(row)),
        events_in(events, spaces).map_values(|event: StoredView| event_line(event)),
    )
}

/// The first lines in order.
pub open spec fn top(lines: Seq<LineView>, limit: int) -> Seq<LineView> {
    let all = arranged(lines, |a: LineView, b: LineView| line_before(a, b));
    if limit < all.len() {
        all.take(limit)
    } else {
        all
    }
}

/// The lines that have something to say.
pub open spec fn speaking(lines: Seq<LineView>) -> Seq<LineView>
    decreases lines.len(),
{
    if lines.len() == 0 {
        Seq::empty()
    } else {
        let before = speaking(lines.drop_last());
        if lines.last().entry is Some {
            before.push(lines.last())
        } else {
            before
        }
    }
}

/// At most two hundred lines, and at least one.
pub open spec fn clamped(limit: i64) -> int {
    if limit < 1 {
        1
    } else if limit > 200 {
        200
    } else {
        limit as int
    }
}

/// The page: unread first, then newest first, at most `limit` lines of each
/// kind and of all.
pub open spec fn page_lines(
    rows: Seq<RowView>,
    events: Seq<StoredView>,
    spaces: Seq<Seq<char>>,
    limit: i64,
) -> Seq<LineView> {
    let n = clamped(limit);
    let (replies, mentions, likes, elsewhere) = lines_for(rows, events, spaces);
    top(
        speaking(top(replies, n)) + speaking(top(mentions, n)) + speaking(top(likes, n)) + speaking(
            top(elsewhere, n),
        ),
        n,
    )
}

pub open spec fn page_entries(
    rows: Seq<RowView>,
    events: Seq<StoredView>,
    spaces: Seq<Seq<char>>,
    limit: i64,
) -> Seq<EntryView> {
    page_lines(rows, events, spaces, limit).map_values(|line: LineView| line.entry->0)
}

/// How many of the lines are unread.
pub open spec fn unread_in(lines: Seq<LineView>) -> int
    decreases lines.len(),
{
    if lines.len() == 0 {
        0
    } else {
        unread_in(lines.drop_last()) + if lines.last().unread {
            1int
        } else {
            0int
        }
    }
}

/// What the bell shows: topics with unread replies, unread mentions, posts
/// with unread likes, and unread events.
pub open spec fn unread_total(
    rows: Seq<RowView>,
    events: Seq<StoredView>,
    spaces: Seq<Seq<char>>,
) -> int {
    let (replies, mentions, likes, elsewhere) = lines_for(rows, events, spaces);
    unread_in(replies) + unread_in(mentions) + unread_in(likes) + unread_in(elsewhere)
}

fn row_counts(row: &Row, spaces: &[String], reason: Reason) -> (r: bool)
    ensures
        r == counts(row@, texts(spaces@), reason),
{
    row.reason == reason && !row.hidden && listed(spaces, &row.space)
}

/// The rows that count.
fn select<'a>(rows: &'a [Row], spaces: &[String], reason: Reason) -> (r: Vec<&'a Row>)
    ensures
        r@.map_values(|row: &Row| row@) == counted(rows_view(rows@), texts(spaces@), reason),
        r@.len() <= rows@.len(),
{
    let ghost all = rows_view(rows@);
    let mut out: Vec<&'a Row> = Vec::new();
    let mut i: usize = 0;
    assert(out@.map_values(|row: &Row| row@) == counted(all.take(0), texts(spaces@), reason));
    while i < rows.len()
        invariant
            i <= rows@.len(),
            all == rows_view(rows@),
            out@.map_values(|row: &Row| row@) == counted(
                all.take(i as int),
                texts(spaces@),
                reason,
            ),
            out@.len() <= i,
        decreases rows@.len() - i,
    {
        assert(all.take(i + 1).drop_last() == all.take(i as int));
        assert(all.take(i + 1).last() == rows@[i as int]@);
        if row_counts(&rows[i], spaces, reason) {
            let ghost before = out@.map_values(|row: &Row| row@);
            out.push(&rows[i]);
            assert(out@.map_values(|row: &Row| row@) == before.push(rows@[i as int]@));
        }
        i += 1;
    }
    assert(all.take(i as int) == all);
    out
}

/// The bundles there are.
fn keys(replies: &Vec<&Row>) -> (r: Vec<(i64, bool)>)
    ensures
        r@ == bundle_keys(replies@.map_values(|row: &Row| row@)),
{
    let ghost all = replies@.map_values(|row: &Row| row@);
    let mut out: Vec<(i64, bool)> = Vec::new();
    let mut i: usize = 0;
    assert(out@ == bundle_keys(all.take(0)));
    while i < replies.len()
        invariant
            i <= replies@.len(),
            all == replies@.map_values(|row: &Row| row@),
            out@ == bundle_keys(all.take(i as int)),
        decreases replies@.len() - i,
    {
        assert(all.take(i + 1).drop_last() == all.take(i as int));
        assert(all.take(i + 1).last() == replies@[i as int]@);
        let key = (replies[i].topic_id, replies[i].unread);
        let mut found = false;
        let mut k: usize = 0;
        while k < out.len()
            invariant
                k <= out@.len(),
                found == exists|j: int| 0 <= j < k && #[trigger] out@[j] == key,
            decreases out@.len() - k,
        {
            if out[k].0 == key.0 && out[k].1 == key.1 {
                assert(out@[k as int] == key);
                found = true;
            }
            k += 1;
        }
        if !found {
            out.push(key);
        }
        i += 1;
    }
    assert(all.take(i as int) == all);
    out
}

proof fn bundled_not_empty(replies: Seq<RowView>, key: (i64, bool))
    requires
        bundle_keys(replies).contains(key),
    ensures
        bundled(replies, key.0, key.1).len() > 0,
        bundled(replies, key.0, key.1).len() <= replies.len(),
    decreases replies.len(),
{
    if replies.len() > 0 {
        let front = replies.drop_last();
        bundled_bound(front, key.0, key.1);
        if bundle_keys(front).contains(key) {
            bundled_not_empty(front, key);
        } else {
            let own = (replies.last().topic_id, replies.last().unread);
            assert(own == key);
        }
    }
}

proof fn bundled_bound(replies: Seq<RowView>, topic_id: i64, unread: bool)
    ensures
        bundled(replies, topic_id, unread).len() <= replies.len(),
    decreases replies.len(),
{
    if replies.len() > 0 {
        bundled_bound(replies.drop_last(), topic_id, unread);
    }
}

fn bundle(replies: &Vec<&Row>, topic_id: i64, unread: bool) -> (r: Line)
    requires
        bundle_keys(replies@.map_values(|row: &Row| row@)).contains((topic_id, unread)),
        replies@.len() <= i64::MAX,
    ensures
        r@ == bundle_line(
            bundled(replies@.map_values(|row: &Row| row@), topic_id, unread),
            unread,
        ),
{
    let ghost all = replies@.map_values(|row: &Row| row@);
    proof {
        bundled_not_empty(all, (topic_id, unread));
    }
    let mut count: i64 = 0;
    let mut first: i64 = 0;
    let mut moment: i64 = 0;
    let mut latest: usize = 0;
    let mut i: usize = 0;
    assert(bundled(all.take(0), topic_id, unread).len() == 0);
    while i < replies.len()
        invariant
            i <= replies@.len() <= i64::MAX,
            all == replies@.map_values(|row: &Row| row@),
            count == bundled(all.take(i as int), topic_id, unread).len(),
            count <= i,
            count > 0 ==> {
                let mine = bundled(all.take(i as int), topic_id, unread);
                &&& first == first_post(mine)
                &&& moment == last_moment(mine)
                &&& latest < i
                &&& all[latest as int] == last_row(mine)
            },
        decreases replies@.len() - i,
    {
        let row = replies[i];
        let ghost so_far = bundled(all.take(i as int), topic_id, unread);
        assert(all.take(i + 1).drop_last() == all.take(i as int));
        assert(all.take(i + 1).last() == row@);
        if row.topic_id == topic_id && row.unread == unread {
            assert(so_far.push(row@).drop_last() == so_far);
            assert(count > 0 ==> all[latest as int] == replies@[latest as int]@);
            if count == 0 || row.post_id < first {
                first = row.post_id;
            }
            if count == 0 || row.at > moment {
                moment = row.at;
            }
            if count == 0 || row.post_id > replies[latest].post_id {
                latest = i;
            }
            count += 1;
        }
        i += 1;
    }
    assert(all.take(i as int) == all);
    let row = replies[latest];
    assert(row@ == all[latest as int]);
    Line {
        unread,
        at: moment,
        entry: Some(
            Entry::Replies {
                topic_id: row.topic_id,
                topic_title: row.topic_title.clone(),
                space: row.space.clone(),
                count,
                latest_author: row.author.clone(),
                latest_at: moment,
                first_post_id: first,
                unread,
            },
        ),
    }
}

fn lines_of_replies(replies: &Vec<&Row>) -> (r: Vec<Line>)
    requires
        replies@.len() <= i64::MAX,
    ensures
        lines_view(r@) == reply_lines(replies@.map_values(|row: &Row| row@)),
{
    let ghost all = replies@.map_values(|row: &Row| row@);
    let keys = keys(replies);
    let mut out: Vec<Line> = Vec::new();
    let mut i: usize = 0;
    while i < keys.len()
        invariant
            i <= keys@.len(),
            replies@.len() <= i64::MAX,
            all == replies@.map_values(|row: &Row| row@),
            keys@ == bundle_keys(all),
            lines_view(out@) == reply_lines(all).take(i as int),
        decreases keys@.len() - i,
    {
        let (topic_id, unread) = keys[i];
        assert(bundle_keys(all)[i as int] == (topic_id, unread));
        let line = bundle(replies, topic_id, unread);
        let ghost before = lines_view(out@);
        out.push(line);
        assert(lines_view(out@) == before.push(line@));
        assert(reply_lines(all).take(i + 1) == reply_lines(all).take(i as int).push(line@));
        i += 1;
    }
    assert(reply_lines(all).take(i as int) == reply_lines(all));
    out
}

fn line_of_mention(row: &Row) -> (r: Line)
    ensures
        r@ == mention_line(row@),
{
    Line {
        unread: row.unread,
        at: row.at,
        entry: Some(
            Entry::Mention {
                topic_id: row.topic_id,
                topic_title: row.topic_title.clone(),
                post_id: row.post_id,
                author: row.author.clone(),
                space: row.space.clone(),
                at: row.at,
                unread: row.unread,
            },
        ),
    }
}

fn line_of_likes(row: &Row) -> (r: Line)
    ensures
        r@ == like_line(row@),
{
    let entry = match &row.latest_like {
        Some(name) => {
            if row.likes > 0 {
                Some(
                    Entry::Likes {
                        topic_id: row.topic_id,
                        topic_title: row.topic_title.clone(),
                        post_id: row.post_id,
                        count: row.likes,
                        space: row.space.clone(),
                        latest_name: name.clone(),
                        at: row.at,
                        unread: row.unread,
                    },
                )
            } else {
                None
            }
        },
        None => None,
    };
    Line { unread: row.unread, at: row.at, entry }
}

fn line_of_event(event: &Stored) -> (r: Line)
    ensures
        r@ == event_line(event@),
{
    let entry = match Kind::parse(&event.kind) {
        Some(kind) => {
            let reason = match &event.reason {
                Some(reason) => Some(reason.clone()),
                None => None,
            };
            Some(
                Entry::Event {
                    id: event.id,
                    kind,
                    title: event.title.clone(),
                    reason,
                    at: event.at,
                    unread: event.unread,
                    space: event.space.clone(),
                },
            )
        },
        None => None,
    };
    Line { unread: event.unread, at: event.at, entry }
}

fn lines_of_rows(rows: &Vec<&Row>, likes: bool) -> (r: Vec<Line>)
    ensures
        lines_view(r@) == rows@.map_values(|row: &Row| row@).map_values(
            |row: RowView|
                if likes {
                    like_line(row)
                } else {
                    mention_line(row)
                },
        ),
{
    let ghost line = |row: RowView|
        if likes {
            like_line(row)
        } else {
            mention_line(row)
        };
    let ghost wanted = rows@.map_values(|row: &Row| row@).map_values(line);
    let mut out: Vec<Line> = Vec::new();
    let mut i: usize = 0;
    while i < rows.len()
        invariant
            i <= rows@.len(),
            line == (|row: RowView|
                if likes {
                    like_line(row)
                } else {
                    mention_line(row)
                }),
            wanted == rows@.map_values(|row: &Row| row@).map_values(line),
            lines_view(out@) == wanted.take(i as int),
        decreases rows@.len() - i,
    {
        let made = if likes {
            line_of_likes(rows[i])
        } else {
            line_of_mention(rows[i])
        };
        let ghost before = lines_view(out@);
        out.push(made);
        assert(lines_view(out@) == before.push(made@));
        assert(wanted.take(i + 1) == wanted.take(i as int).push(made@));
        i += 1;
    }
    assert(wanted.take(i as int) == wanted);
    out
}

fn lines_of_events(events: &[Stored], spaces: &[String]) -> (r: Vec<Line>)
    ensures
        lines_view(r@) == events_in(stored_view(events@), texts(spaces@)).map_values(
            |event: StoredView| event_line(event),
        ),
        r@.len() <= events@.len(),
{
    let ghost all = stored_view(events@);
    let ghost line = |event: StoredView| event_line(event);
    let mut out: Vec<Line> = Vec::new();
    let mut i: usize = 0;
    assert(lines_view(out@) == events_in(all.take(0), texts(spaces@)).map_values(line));
    while i < events.len()
        invariant
            i <= events@.len(),
            all == stored_view(events@),
            line == (|event: StoredView| event_line(event)),
            lines_view(out@) == events_in(all.take(i as int), texts(spaces@)).map_values(line),
            out@.len() <= i,
        decreases events@.len() - i,
    {
        assert(all.take(i + 1).drop_last() == all.take(i as int));
        assert(all.take(i + 1).last() == events@[i as int]@);
        let ghost so_far = events_in(all.take(i as int), texts(spaces@));
        if listed(spaces, &events[i].space) {
            let made = line_of_event(&events[i]);
            let ghost before = lines_view(out@);
            out.push(made);
            assert(lines_view(out@) == before.push(made@));
            assert(so_far.push(all[i as int]).map_values(line) == so_far.map_values(line).push(
                line(all[i as int]),
            ));
        }
        i += 1;
    }
    assert(all.take(i as int) == all);
    out
}

fn top_lines(lines: Vec<Line>, limit: usize) -> (r: Vec<Line>)
    ensures
        lines_view(r@) == top(lines_view(lines@), limit as int),
{
    let ghost before = |a: Line, b: Line| line_before(a@, b@);
    let ghost seen_before = |a: LineView, b: LineView| line_before(a, b);
    let ghost given = lines@;
    let earlier = |a: &Line, b: &Line| -> (r: bool)
        ensures
            r == line_before(a@, b@),
        { (a.unread && !b.unread) || (a.unread == b.unread && a.at > b.at) };
    let mut out = arrange(lines, earlier, Ghost(before));
    proof {
        arranging_views(given, |line: Line| line@, before, seen_before);
        assert(lines_view(out@) == arranged(lines_view(given), seen_before));
    }
    let ghost all = lines_view(out@);
    if limit < out.len() {
        out.truncate(limit);
        assert(lines_view(out@) == all.take(limit as int));
    }
    out
}

fn speaking_lines(lines: Vec<Line>) -> (r: Vec<Line>)
    ensures
        lines_view(r@) == speaking(lines_view(lines@)),
{
    let ghost given = lines@;
    let ghost all = lines_view(given);
    let mut rest = lines;
    let mut out: Vec<Line> = Vec::new();
    assert(lines_view(out@) == speaking(all.take(0)));
    assert(given.skip(0) == given);
    while rest.len() > 0
        invariant
            rest@.len() <= given.len(),
            all == lines_view(given),
            rest@ == given.skip(given.len() - rest@.len()),
            lines_view(out@) == speaking(all.take(given.len() - rest@.len())),
        decreases rest@.len(),
    {
        let ghost done = given.len() - rest@.len();
        let line = rest.remove(0);
        assert(line == given[done]);
        assert(rest@ == given.skip(done + 1));
        assert(all.take(done + 1).drop_last() == all.take(done));
        assert(all.take(done + 1).last() == line@);
        if line.entry.is_some() {
            let ghost before = lines_view(out@);
            let ghost seen = line@;
            out.push(line);
            assert(lines_view(out@) == before.push(seen));
        }
    }
    assert(all.take(given.len() as int) == all);
    out
}

proof fn speaking_has_entries(lines: Seq<LineView>)
    ensures
        forall|i: int| 0 <= i < speaking(lines).len() ==> (#[trigger] speaking(lines)[i]).entry
            is Some,
        speaking(lines).len() <= lines.len(),
    decreases lines.len(),
{
    if lines.len() > 0 {
        speaking_has_entries(lines.drop_last());
    }
}

fn join(mut front: Vec<Line>, mut back: Vec<Line>) -> (r: Vec<Line>)
    ensures
        lines_view(r@) == lines_view(front@) + lines_view(back@),
{
    let ghost (a, b) = (front@, back@);
    front.append(&mut back);
    assert(lines_view(front@) == lines_view(a) + lines_view(b));
    front
}

/// Every line of an ordered selection comes from the selection.
proof fn top_among(lines: Seq<LineView>, limit: int)
    requires
        limit >= 0,
        forall|i: int| 0 <= i < lines.len() ==> (#[trigger] lines[i]).entry is Some,
    ensures
        forall|i: int| 0 <= i < top(lines, limit).len() ==> (#[trigger] top(lines, limit)[i]).entry
            is Some,
{
    arranged_among(lines);
    let before = |a: LineView, b: LineView| line_before(a, b);
    assert forall|i: int| 0 <= i < top(lines, limit).len() implies (#[trigger] top(
        lines,
        limit,
    )[i]).entry is Some by {
        assert(top(lines, limit)[i] == arranged(lines, before)[i]);
    }
}

proof fn arranged_among(lines: Seq<LineView>)
    requires
        forall|i: int| 0 <= i < lines.len() ==> (#[trigger] lines[i]).entry is Some,
    ensures
        ({
            let all = arranged(lines, |a: LineView, b: LineView| line_before(a, b));
            forall|i: int| 0 <= i < all.len() ==> (#[trigger] all[i]).entry is Some
        }),
    decreases lines.len(),
{
    let before = |a: LineView, b: LineView| line_before(a, b);
    if lines.len() > 0 {
        let rest = lines.drop_last();
        assert forall|i: int| 0 <= i < rest.len() implies (#[trigger] rest[i]).entry is Some by {
            assert(rest[i] == lines[i]);
        }
        arranged_among(rest);
        let front = arranged(rest, before);
        spot_bounds(front, lines.last(), before);
        assert(lines[lines.len() - 1] == lines.last());
    }
}

/// The page, from the rows of somebody's inbox and the events stored for their
/// handle, over the spaces they may read: unread first, then newest first, at
/// most `limit` lines.
pub fn entries(rows: &[Row], events: &[Stored], spaces: &[String], limit: i64) -> (r: Vec<Entry>)
    requires
        rows@.len() <= i64::MAX,
    ensures
        entries_view(r@) == page_entries(
            rows_view(rows@),
            stored_view(events@),
            texts(spaces@),
            limit,
        ),
{
    let n: usize = if limit < 1 {
        1
    } else if limit > 200 {
        200
    } else {
        limit as usize
    };
    let replies = select(rows, spaces, Reason::Reply);
    let bundles = speaking_lines(top_lines(lines_of_replies(&replies), n));
    let mentioned = select(rows, spaces, Reason::Mention);
    let mention_rows = lines_of_rows(&mentioned, false);
    assert(lines_view(mention_rows@) == counted(
        rows_view(rows@),
        texts(spaces@),
        Reason::Mention,
    ).map_values(|row: RowView| mention_line(row)));
    let mentions = speaking_lines(top_lines(mention_rows, n));
    let liked = select(rows, spaces, Reason::Like);
    let like_rows = lines_of_rows(&liked, true);
    assert(lines_view(like_rows@) == counted(
        rows_view(rows@),
        texts(spaces@),
        Reason::Like,
    ).map_values(|row: RowView| like_line(row)));
    let likes = speaking_lines(top_lines(like_rows, n));
    let elsewhere = speaking_lines(top_lines(lines_of_events(events, spaces), n));
    proof {
        let (a, b, c, d) = lines_for(rows_view(rows@), stored_view(events@), texts(spaces@));
        speaking_has_entries(top(a, n as int));
        speaking_has_entries(top(b, n as int));
        speaking_has_entries(top(c, n as int));
        speaking_has_entries(top(d, n as int));
    }
    let together = join(join(join(bundles, mentions), likes), elsewhere);
    let ghost all = lines_view(together@);
    proof {
        top_among(all, n as int);
    }
    let lines = top_lines(together, n);
    said(lines)
}

fn said(lines: Vec<Line>) -> (r: Vec<Entry>)
    requires
        forall|i: int| 0 <= i < lines@.len() ==> (#[trigger] lines_view(lines@)[i]).entry is Some,
    ensures
        entries_view(r@) == lines_view(lines@).map_values(|line: LineView| line.entry->0),
{
    let ghost given = lines@;
    let ghost all = lines_view(given);
    let ghost wanted = all.map_values(|line: LineView| line.entry->0);
    let mut rest = lines;
    let mut out: Vec<Entry> = Vec::new();
    assert(given.skip(0) == given);
    while rest.len() > 0
        invariant
            rest@.len() <= given.len(),
            all == lines_view(given),
            wanted == all.map_values(|line: LineView| line.entry->0),
            forall|i: int| 0 <= i < given.len() ==> (#[trigger] all[i]).entry is Some,
            rest@ == given.skip(given.len() - rest@.len()),
            entries_view(out@) == wanted.take(given.len() - rest@.len()),
        decreases rest@.len(),
    {
        let ghost done = given.len() - rest@.len();
        let line = rest.remove(0);
        assert(line == given[done]);
        assert(all[done] == line@);
        assert(rest@ == given.skip(done + 1));
        if let Some(entry) = line.entry {
            let ghost before = entries_view(out@);
            let ghost seen = entry@;
            out.push(entry);
            assert(entries_view(out@) == before.push(seen));
            assert(wanted.take(done + 1) == wanted.take(done).push(seen));
        }
    }
    assert(wanted.take(given.len() as int) == wanted);
    out
}

proof fn unread_in_bound(lines: Seq<LineView>)
    ensures
        0 <= unread_in(lines) <= lines.len(),
    decreases lines.len(),
{
    if lines.len() > 0 {
        unread_in_bound(lines.drop_last());
    }
}

fn count_unread(lines: &Vec<Line>) -> (r: usize)
    ensures
        r == unread_in(lines_view(lines@)),
        r <= lines@.len(),
{
    let ghost all = lines_view(lines@);
    let mut n: usize = 0;
    let mut i: usize = 0;
    assert(unread_in(all.take(0)) == 0);
    while i < lines.len()
        invariant
            i <= lines@.len(),
            all == lines_view(lines@),
            n == unread_in(all.take(i as int)),
            n <= i,
        decreases lines@.len() - i,
    {
        assert(all.take(i + 1).drop_last() == all.take(i as int));
        assert(all.take(i + 1).last() == lines@[i as int]@);
        if lines[i].unread {
            n += 1;
        }
        i += 1;
    }
    assert(all.take(i as int) == all);
    n
}

/// What the bell shows: topics with unread replies, unread mentions, posts with
/// unread likes, and unread events, in the same units the page lists.
pub fn unread_count(rows: &[Row], events: &[Stored], spaces: &[String]) -> (r: i64)
    requires
        rows@.len() <= 0x1000000000000000,
        events@.len() <= 0x1000000000000000,
    ensures
        r == unread_total(rows_view(rows@), stored_view(events@), texts(spaces@)),
{
    let replies = select(rows, spaces, Reason::Reply);
    let reply_rows = lines_of_replies(&replies);
    proof {
        bundle_keys_bound(replies@.map_values(|row: &Row| row@));
        assert(lines_view(reply_rows@).len() == reply_rows@.len());
    }
    let mentioned = select(rows, spaces, Reason::Mention);
    let mention_rows = lines_of_rows(&mentioned, false);
    assert(lines_view(mention_rows@) == counted(
        rows_view(rows@),
        texts(spaces@),
        Reason::Mention,
    ).map_values(|row: RowView| mention_line(row)));
    let liked = select(rows, spaces, Reason::Like);
    let like_rows = lines_of_rows(&liked, true);
    assert(lines_view(like_rows@) == counted(
        rows_view(rows@),
        texts(spaces@),
        Reason::Like,
    ).map_values(|row: RowView| like_line(row)));
    let event_rows = lines_of_events(events, spaces);
    assert(lines_view(mention_rows@).len() == mention_rows@.len());
    assert(lines_view(like_rows@).len() == like_rows@.len());
    count_unread(&reply_rows) as i64 + count_unread(&mention_rows) as i64 + count_unread(&like_rows)
        as i64 + count_unread(&event_rows) as i64
}

proof fn bundle_keys_bound(replies: Seq<RowView>)
    ensures
        bundle_keys(replies).len() <= replies.len(),
    decreases replies.len(),
{
    if replies.len() > 0 {
        bundle_keys_bound(replies.drop_last());
    }
}

/// The bell for a handle, as a page outside the forum asks for it: number and
/// entries.
///
/// With an account behind the handle it is exactly what that account's bell
/// shows. Without one, it is their events alone, which is also all there is.
pub fn for_handle(account: Option<&[Row]>, events: &[Stored], space: &str, limit: i64) -> (r: (
    i64,
    Vec<Entry>,
))
    requires
        account is Some ==> account->0@.len() <= 0x1000000000000000,
        events@.len() <= 0x1000000000000000,
    ensures
        ({
            let rows = match account {
                Some(rows) => rows_view(rows@),
                None => Seq::empty(),
            };
            &&& r.0 == unread_total(rows, stored_view(events@), seq![space@])
            &&& entries_view(r.1@) == page_entries(
                rows,
                stored_view(events@),
                seq![space@],
                limit,
            )
        }),
{
    let mut spaces: Vec<String> = Vec::new();
    spaces.push(space.to_owned());
    assert(texts(spaces@) == seq![space@]);
    let none: Vec<Row> = Vec::new();
    assert(rows_view(none@) == Seq::<RowView>::empty());
    match account {
        Some(rows) => (
            unread_count(rows, events, &spaces),
            entries(rows, events, &spaces, limit),
        ),
        None => (unread_count(&none, events, &spaces), entries(&none, events, &spaces, limit)),
    }
}

/// The subjects for whom an entry is written, given who already has one for
/// this post: nobody gets a second one.
pub open spec fn newly_told(existing: Seq<Seq<char>>, subjects: Seq<Seq<char>>) -> Seq<Seq<char>>
    decreases subjects.len(),
{
    if subjects.len() == 0 {
        Seq::empty()
    } else {
        let before = newly_told(existing, subjects.drop_last());
        let subject = subjects.last();
        if existing.contains(subject) || before.contains(subject) {
            before
        } else {
            before.push(subject)
        }
    }
}

/// One mention entry per subject who has none for this post yet.
///
/// This is how an edit tells a NEW mention from an old one: a person who
/// already has an entry for this post gets no second one and is not in the
/// list, so a mail is queued only for the people who have just been told.
pub fn note_mentions_in(existing: &[String], subjects: &[String]) -> (r: Vec<String>)
    ensures
        texts(r@) == newly_told(texts(existing@), texts(subjects@)),
{
    let ghost all = texts(subjects@);
    let mut out: Vec<String> = Vec::new();
    let mut i: usize = 0;
    assert(texts(out@) == newly_told(texts(existing@), all.take(0)));
    while i < subjects.len()
        invariant
            i <= subjects@.len(),
            all == texts(subjects@),
            texts(out@) == newly_told(texts(existing@), all.take(i as int)),
        decreases subjects@.len() - i,
    {
        assert(all.take(i + 1).drop_last() == all.take(i as int));
        assert(all.take(i + 1).last() == subjects@[i as int]@);
        if !listed(existing, &subjects[i]) && !listed(&out, &subjects[i]) {
            let ghost before = texts(out@);
            out.push(subjects[i].clone());
            assert(texts(out@) == before.push(subjects@[i as int]@));
        }
        i += 1;
    }
    assert(all.take(i as int) == all);
    out
}

/// Everybody in the list but one.
pub open spec fn all_but(list: Seq<Seq<char>>, one: Seq<char>) -> Seq<Seq<char>>
    decreases list.len(),
{
    if list.len() == 0 {
        Seq::empty()
    } else {
        let before = all_but(list.drop_last(), one);
        if list.last() == one {
            before
        } else {
            before.push(list.last())
        }
    }
}

/// Everybody in the list but one.
pub fn everybody_but(list: &[String], one: &str) -> (r: Vec<String>)
    ensures
        texts(r@) == all_but(texts(list@), one@),
        r@.len() <= list@.len(),
{
    let ghost all = texts(list@);
    let mut out: Vec<String> = Vec::new();
    let mut i: usize = 0;
    assert(texts(out@) == all_but(all.take(0), one@));
    while i < list.len()
        invariant
            i <= list@.len(),
            all == texts(list@),
            texts(out@) == all_but(all.take(i as int), one@),
            out@.len() <= i,
        decreases list@.len() - i,
    {
        assert(all.take(i + 1).drop_last() == all.take(i as int));
        assert(all.take(i + 1).last() == list@[i as int]@);
        if !crate::text::same(&list[i], one) {
            let ghost before = texts(out@);
            out.push(list[i].clone());
            assert(texts(out@) == before.push(list@[i as int]@));
        }
        i += 1;
    }
    assert(all.take(i as int) == all);
    out
}

/// One reply entry per follower of the topic except the writer, and except
/// whoever has an entry for this post already: a follower who was mentioned in
/// the same post keeps that one.
pub fn note_replies_in(existing: &[String], followers: &[String], writer: &str) -> (r: Vec<String>)
    ensures
        texts(r@) == newly_told(texts(existing@), all_but(texts(followers@), writer@)),
{
    let others = everybody_but(followers, writer);
    note_mentions_in(existing, &others)
}

/// Whoever is told is in the list, had no entry yet, and is told once.
pub proof fn told_once(existing: Seq<Seq<char>>, subjects: Seq<Seq<char>>)
    ensures
        newly_told(existing, subjects).no_duplicates(),
        forall|x: Seq<char>| #[trigger]
            newly_told(existing, subjects).contains(x) <==> subjects.contains(x)
                && !existing.contains(x),
    decreases subjects.len(),
{
    if subjects.len() > 0 {
        let front = subjects.drop_last();
        let last = subjects.last();
        told_once(existing, front);
        let before = newly_told(existing, front);
        let after = newly_told(existing, subjects);
        assert forall|x: Seq<char>| #[trigger] after.contains(x) <==> subjects.contains(x)
            && !existing.contains(x) by {
            assert(before.contains(x) <==> front.contains(x) && !existing.contains(x));
            if front.contains(x) {
                let j = choose|j: int| 0 <= j < front.len() && front[j] == x;
                assert(subjects[j] == x);
            }
            if subjects.contains(x) && !front.contains(x) {
                let j = choose|j: int| 0 <= j < subjects.len() && subjects[j] == x;
                if j < front.len() {
                    assert(front[j] == x);
                }
                assert(x == last);
            }
            assert(subjects[subjects.len() - 1] == last);
            if after != before {
                assert(after[before.len() as int] == last);
                if before.contains(x) {
                    let j = choose|j: int| 0 <= j < before.len() && before[j] == x;
                    assert(after[j] == x);
                }
                if after.contains(x) {
                    let j = choose|j: int| 0 <= j < after.len() && after[j] == x;
                    if j < before.len() {
                        assert(before[j] == x);
                    }
                }
            }
        }
    }
}

/// The one who is left out is not in what is left, and nobody else is missing.
pub proof fn all_but_one(list: Seq<Seq<char>>, one: Seq<char>)
    ensures
        forall|x: Seq<char>| #[trigger]
            all_but(list, one).contains(x) <==> list.contains(x) && x != one,
    decreases list.len(),
{
    if list.len() > 0 {
        let front = list.drop_last();
        all_but_one(front, one);
        let before = all_but(front, one);
        let after = all_but(list, one);
        assert forall|x: Seq<char>| #[trigger] after.contains(x) <==> list.contains(x) && x
            != one by {
            assert(before.contains(x) <==> front.contains(x) && x != one);
            if front.contains(x) {
                let j = choose|j: int| 0 <= j < front.len() && front[j] == x;
                assert(list[j] == x);
            }
            if list.contains(x) && !front.contains(x) {
                let j = choose|j: int| 0 <= j < list.len() && list[j] == x;
                if j < front.len() {
                    assert(front[j] == x);
                }
            }
            assert(list[list.len() - 1] == list.last());
            if list.last() != one {
                assert(after[before.len() as int] == list.last());
                if before.contains(x) {
                    let j = choose|j: int| 0 <= j < before.len() && before[j] == x;
                    assert(after[j] == x);
                }
                if after.contains(x) {
                    let j = choose|j: int| 0 <= j < after.len() && after[j] == x;
                    if j < before.len() {
                        assert(before[j] == x);
                    }
                }
            }
        }
    }
}

/// A post tells nobody twice, and never the one who wrote it: who is mentioned
/// has the mention, every other follower the reply.
pub proof fn a_post_tells_each_once(
    mentioned: Seq<Seq<char>>,
    followers: Seq<Seq<char>>,
    writer: Seq<char>,
)
    requires
        !mentioned.contains(writer),
    ensures
        ({
            let mentions = newly_told(Seq::empty(), mentioned);
            let replies = newly_told(mentions, all_but(followers, writer));
            &&& !mentions.contains(writer) && !replies.contains(writer)
            &&& forall|x: Seq<char>|
                !(#[trigger] mentions.contains(x) && #[trigger] replies.contains(x))
            &&& forall|x: Seq<char>|
                #![trigger mentions.contains(x)]
                followers.contains(x) && x != writer ==> mentions.contains(x) || replies.contains(x)
        }),
{
    let mentions = newly_told(Seq::empty(), mentioned);
    told_once(Seq::empty(), mentioned);
    told_once(mentions, all_but(followers, writer));
    all_but_one(followers, writer);
}

proof fn line_order()
    ensures
        is_order(|a: LineView, b: LineView| line_before(a, b)),
{
}

/// The page is in order: unread first, then newest first. It is never longer
/// than asked for.
pub proof fn the_page_is_in_order(
    rows: Seq<RowView>,
    events: Seq<StoredView>,
    spaces: Seq<Seq<char>>,
    limit: i64,
)
    ensures
        in_order(
            page_lines(rows, events, spaces, limit),
            |a: LineView, b: LineView| line_before(a, b),
        ),
        page_lines(rows, events, spaces, limit).len() <= clamped(limit),
{
    let before = |a: LineView, b: LineView| line_before(a, b);
    line_order();
    let n = clamped(limit);
    let (replies, mentions, likes, elsewhere) = lines_for(rows, events, spaces);
    let all = speaking(top(replies, n)) + speaking(top(mentions, n)) + speaking(top(likes, n))
        + speaking(top(elsewhere, n));
    arranging_orders(all, before);
    let page = page_lines(rows, events, spaces, limit);
    let sorted = arranged(all, before);
    assert forall|i: int, j: int| 0 <= i < j < page.len() implies !before(
        #[trigger] page[j],
        #[trigger] page[i],
    ) by {
        assert(page[i] == sorted[i] && page[j] == sorted[j]);
    }
}

proof fn unread_of_insert(lines: Seq<LineView>, at: int, x: LineView)
    requires
        0 <= at <= lines.len(),
    ensures
        unread_in(lines.insert(at, x)) == unread_in(lines) + if x.unread {
            1int
        } else {
            0int
        },
    decreases lines.len() - at,
{
    let all = lines.insert(at, x);
    if at == lines.len() {
        assert(all.drop_last() == lines);
    } else {
        unread_of_insert(lines.drop_last(), at, x);
        assert(all.drop_last() == lines.drop_last().insert(at, x));
        assert(all.last() == lines.last());
    }
}

proof fn unread_of_arranged(lines: Seq<LineView>)
    ensures
        unread_in(arranged(lines, |a: LineView, b: LineView| line_before(a, b))) == unread_in(
            lines,
        ),
        arranged(lines, |a: LineView, b: LineView| line_before(a, b)).len() == lines.len(),
    decreases lines.len(),
{
    let before = |a: LineView, b: LineView| line_before(a, b);
    if lines.len() > 0 {
        unread_of_arranged(lines.drop_last());
        let front = arranged(lines.drop_last(), before);
        spot_bounds(front, lines.last(), before);
        unread_of_insert(front, spot(front, lines.last(), before), lines.last());
    }
}

proof fn unread_of_sum(a: Seq<LineView>, b: Seq<LineView>)
    ensures
        unread_in(a + b) == unread_in(a) + unread_in(b),
    decreases b.len(),
{
    if b.len() == 0 {
        assert(a + b == a);
    } else {
        unread_of_sum(a, b.drop_last());
        assert((a + b).drop_last() == a + b.drop_last());
        assert((a + b).last() == b.last());
    }
}

proof fn speaking_all(lines: Seq<LineView>)
    requires
        forall|i: int| 0 <= i < lines.len() ==> (#[trigger] lines[i]).entry is Some,
    ensures
        speaking(lines) == lines,
    decreases lines.len(),
{
    if lines.len() > 0 {
        assert(lines[lines.len() - 1] == lines.last());
        assert forall|i: int| 0 <= i < lines.drop_last().len() implies (
        #[trigger] lines.drop_last()[i]).entry is Some by {
            assert(lines.drop_last()[i] == lines[i]);
        }
        speaking_all(lines.drop_last());
        assert(lines.drop_last().push(lines.last()) == lines);
    }
}

proof fn top_of_few(lines: Seq<LineView>, n: int)
    requires
        lines.len() <= n,
        forall|i: int| 0 <= i < lines.len() ==> (#[trigger] lines[i]).entry is Some,
    ensures
        unread_in(speaking(top(lines, n))) == unread_in(lines),
        speaking(top(lines, n)).len() == lines.len(),
{
    unread_of_arranged(lines);
    arranged_among(lines);
    speaking_all(top(lines, n));
}

/// Has every line something to say?
pub open spec fn all_speak(lines: Seq<LineView>) -> bool {
    forall|i: int| 0 <= i < lines.len() ==> (#[trigger] lines[i]).entry is Some
}

/// THE NUMBER AND THE LIST AGREE: where there is a line for everything and the
/// page is long enough for all of them, the number in the bell is the number
/// of unread lines on the page.
pub proof fn the_number_and_the_list_agree(
    rows: Seq<RowView>,
    events: Seq<StoredView>,
    spaces: Seq<Seq<char>>,
    limit: i64,
)
    requires
        ({
            let (replies, mentions, likes, elsewhere) = lines_for(rows, events, spaces);
            &&& all_speak(likes) && all_speak(elsewhere)
            &&& replies.len() + mentions.len() + likes.len() + elsewhere.len() <= clamped(limit)
        }),
    ensures
        unread_in(page_lines(rows, events, spaces, limit)) == unread_total(rows, events, spaces),
{
    let n = clamped(limit);
    let (replies, mentions, likes, elsewhere) = lines_for(rows, events, spaces);
    top_of_few(replies, n);
    top_of_few(mentions, n);
    top_of_few(likes, n);
    top_of_few(elsewhere, n);
    let (a, b, c, d) = (
        speaking(top(replies, n)),
        speaking(top(mentions, n)),
        speaking(top(likes, n)),
        speaking(top(elsewhere, n)),
    );
    unread_of_sum(a, b);
    unread_of_sum(a + b, c);
    unread_of_sum(a + b + c, d);
    unread_of_arranged(a + b + c + d);
}

/// Is there a line's entry that belongs to one of these spaces?
pub open spec fn belongs(line: LineView, spaces: Seq<Seq<char>>) -> bool {
    line.entry is Some ==> spaces.contains(line.entry->0.place()) && line.entry->0.is_unread()
        == line.unread && line.entry->0.moment() == line.at
}

proof fn counted_belong(rows: Seq<RowView>, spaces: Seq<Seq<char>>, reason: Reason)
    ensures
        forall|i: int|
            0 <= i < counted(rows, spaces, reason).len() ==> counts(
                #[trigger] counted(rows, spaces, reason)[i],
                spaces,
                reason,
            ),
    decreases rows.len(),
{
    if rows.len() > 0 {
        counted_belong(rows.drop_last(), spaces, reason);
        let before = counted(rows.drop_last(), spaces, reason);
        let after = counted(rows, spaces, reason);
        assert forall|i: int| 0 <= i < after.len() implies counts(
            #[trigger] after[i],
            spaces,
            reason,
        ) by {
            if i < before.len() {
                assert(after[i] == before[i]);
            }
        }
    }
}

proof fn bundled_belong(replies: Seq<RowView>, topic_id: i64, unread: bool, spaces: Seq<Seq<char>>)
    requires
        forall|i: int|
            0 <= i < replies.len() ==> spaces.contains((#[trigger] replies[i]).space),
    ensures
        ({
            let mine = bundled(replies, topic_id, unread);
            forall|i: int| 0 <= i < mine.len() ==> spaces.contains((#[trigger] mine[i]).space)
        }),
    decreases replies.len(),
{
    if replies.len() > 0 {
        let front = replies.drop_last();
        assert forall|i: int| 0 <= i < front.len() implies spaces.contains(
            (#[trigger] front[i]).space,
        ) by {
            assert(front[i] == replies[i]);
        }
        bundled_belong(front, topic_id, unread, spaces);
        assert(replies[replies.len() - 1] == replies.last());
    }
}

proof fn last_row_among(rows: Seq<RowView>)
    requires
        rows.len() > 0,
    ensures
        rows.contains(last_row(rows)),
    decreases rows.len(),
{
    if rows.len() > 1 {
        let front = rows.drop_last();
        last_row_among(front);
        let j = choose|j: int| 0 <= j < front.len() && front[j] == last_row(front);
        assert(rows[j] == last_row(front));
        assert(rows[rows.len() - 1] == rows.last());
    } else {
        assert(rows[0] == last_row(rows));
    }
}

proof fn events_in_belong(events: Seq<StoredView>, spaces: Seq<Seq<char>>)
    ensures
        forall|i: int|
            0 <= i < events_in(events, spaces).len() ==> spaces.contains(
                (#[trigger] events_in(events, spaces)[i]).space,
            ),
    decreases events.len(),
{
    if events.len() > 0 {
        events_in_belong(events.drop_last(), spaces);
    }
}

proof fn top_belongs(lines: Seq<LineView>, n: int, spaces: Seq<Seq<char>>)
    requires
        n >= 0,
        forall|i: int| 0 <= i < lines.len() ==> belongs(#[trigger] lines[i], spaces),
    ensures
        forall|i: int| 0 <= i < top(lines, n).len() ==> belongs(#[trigger] top(lines, n)[i], spaces),
{
    arranged_belongs(lines, spaces);
    let before = |a: LineView, b: LineView| line_before(a, b);
    assert forall|i: int| 0 <= i < top(lines, n).len() implies belongs(
        #[trigger] top(lines, n)[i],
        spaces,
    ) by {
        assert(top(lines, n)[i] == arranged(lines, before)[i]);
    }
}

proof fn arranged_belongs(lines: Seq<LineView>, spaces: Seq<Seq<char>>)
    requires
        forall|i: int| 0 <= i < lines.len() ==> belongs(#[trigger] lines[i], spaces),
    ensures
        ({
            let all = arranged(lines, |a: LineView, b: LineView| line_before(a, b));
            forall|i: int| 0 <= i < all.len() ==> belongs(#[trigger] all[i], spaces)
        }),
    decreases lines.len(),
{
    let before = |a: LineView, b: LineView| line_before(a, b);
    if lines.len() > 0 {
        let rest = lines.drop_last();
        assert forall|i: int| 0 <= i < rest.len() implies belongs(#[trigger] rest[i], spaces) by {
            assert(rest[i] == lines[i]);
        }
        arranged_belongs(rest, spaces);
        let front = arranged(rest, before);
        spot_bounds(front, lines.last(), before);
        assert(lines[lines.len() - 1] == lines.last());
    }
}

proof fn speaking_belongs(lines: Seq<LineView>, spaces: Seq<Seq<char>>)
    requires
        forall|i: int| 0 <= i < lines.len() ==> belongs(#[trigger] lines[i], spaces),
    ensures
        forall|i: int|
            0 <= i < speaking(lines).len() ==> belongs(#[trigger] speaking(lines)[i], spaces)
                && speaking(lines)[i].entry is Some,
    decreases lines.len(),
{
    if lines.len() > 0 {
        let front = lines.drop_last();
        assert forall|i: int| 0 <= i < front.len() implies belongs(#[trigger] front[i], spaces) by {
            assert(front[i] == lines[i]);
        }
        speaking_belongs(front, spaces);
        assert(lines[lines.len() - 1] == lines.last());
    }
}

/// Nothing is shown from a space that was not asked for, and a line is ordered
/// by what it says.
pub proof fn only_the_spaces_asked_for(
    rows: Seq<RowView>,
    events: Seq<StoredView>,
    spaces: Seq<Seq<char>>,
    limit: i64,
)
    ensures
        forall|i: int|
            0 <= i < page_lines(rows, events, spaces, limit).len() ==> belongs(
                #[trigger] page_lines(rows, events, spaces, limit)[i],
                spaces,
            ) && page_lines(rows, events, spaces, limit)[i].entry is Some,
{
    let n = clamped(limit);
    let (replies, mentions, likes, elsewhere) = lines_for(rows, events, spaces);
    counted_belong(rows, spaces, Reason::Reply);
    counted_belong(rows, spaces, Reason::Mention);
    counted_belong(rows, spaces, Reason::Like);
    events_in_belong(events, spaces);
    let all = counted(rows, spaces, Reason::Reply);
    assert forall|i: int| 0 <= i < replies.len() implies belongs(#[trigger] replies[i], spaces) by {
        let key = bundle_keys(all)[i];
        bundled_belong(all, key.0, key.1, spaces);
        bundled_not_empty(all, key);
        let mine = bundled(all, key.0, key.1);
        last_row_among(mine);
        let j = choose|j: int| 0 <= j < mine.len() && mine[j] == last_row(mine);
        assert(spaces.contains(mine[j].space));
    }
    top_belongs(replies, n, spaces);
    top_belongs(mentions, n, spaces);
    top_belongs(likes, n, spaces);
    top_belongs(elsewhere, n, spaces);
    speaking_belongs(top(replies, n), spaces);
    speaking_belongs(top(mentions, n), spaces);
    speaking_belongs(top(likes, n), spaces);
    speaking_belongs(top(elsewhere, n), spaces);
    let joined = speaking(top(replies, n)) + speaking(top(mentions, n)) + speaking(top(likes, n))
        + speaking(top(elsewhere, n));
    assert forall|i: int| 0 <= i < joined.len() implies belongs(#[trigger] joined[i], spaces)
        && joined[i].entry is Some by {
        let a = speaking(top(replies, n));
        let b = speaking(top(mentions, n));
        let c = speaking(top(likes, n));
        let d = speaking(top(elsewhere, n));
        if i < a.len() {
            assert(joined[i] == a[i]);
        } else if i < a.len() + b.len() {
            assert(joined[i] == b[i - a.len()]);
        } else if i < a.len() + b.len() + c.len() {
            assert(joined[i] == c[i - a.len() - b.len()]);
        } else {
            assert(joined[i] == d[i - a.len() - b.len() - c.len()]);
        }
    }
    top_belongs(joined, n, spaces);
    top_among(joined, n);
}

/// Replies are bundled: one line per topic and state of being read, and every
/// reply that counts is in one of them.
pub proof fn replies_are_bundled(replies: Seq<RowView>)
    ensures
        bundle_keys(replies).no_duplicates(),
        forall|i: int|
            0 <= i < replies.len() ==> bundle_keys(replies).contains(
                ((#[trigger] replies[i]).topic_id, replies[i].unread),
            ),
    decreases replies.len(),
{
    if replies.len() > 0 {
        let front = replies.drop_last();
        replies_are_bundled(front);
        let before = bundle_keys(front);
        let after = bundle_keys(replies);
        let key = (replies.last().topic_id, replies.last().unread);
        assert(after.contains(key)) by {
            if !before.contains(key) {
                assert(after[before.len() as int] == key);
            }
        }
        assert forall|i: int| 0 <= i < replies.len() implies after.contains(
            ((#[trigger] replies[i]).topic_id, replies[i].unread),
        ) by {
            if i < front.len() {
                assert(front[i] == replies[i]);
                let own = (front[i].topic_id, front[i].unread);
                let j = choose|j: int| 0 <= j < before.len() && before[j] == own;
                assert(after[j] == own);
            }
        }
    }
}

/// The rows once everything in one topic was read.
pub open spec fn topic_read(rows: Seq<RowView>, topic_id: i64) -> Seq<RowView> {
    rows.map_values(
        |row: RowView|
            RowView { unread: row.unread && row.topic_id != topic_id, ..row },
    )
}

/// The rows once everything in one space was read.
pub open spec fn space_read(rows: Seq<RowView>, space: Seq<char>) -> Seq<RowView> {
    rows.map_values(
        |row: RowView| RowView { unread: row.unread && row.space != space, ..row },
    )
}

/// The events once everything in one space was read.
pub open spec fn events_read(events: Seq<StoredView>, space: Seq<char>) -> Seq<StoredView> {
    events.map_values(
        |event: StoredView| StoredView { unread: event.unread && event.space != space, ..event },
    )
}

/// Opening a topic reads everything in it, replies and mentions alike.
pub fn mark_topic_read(rows: Vec<Row>, topic_id: i64) -> (r: Vec<Row>)
    ensures
        rows_view(r@) == topic_read(rows_view(rows@), topic_id),
{
    let ghost given = rows@;
    let ghost wanted = topic_read(rows_view(given), topic_id);
    let mut rest = rows;
    let mut out: Vec<Row> = Vec::new();
    assert(given.skip(0) == given);
    assert(rows_view(out@) == wanted.take(0));
    while rest.len() > 0
        invariant
            rest@.len() <= given.len(),
            wanted == topic_read(rows_view(given), topic_id),
            rest@ == given.skip(given.len() - rest@.len()),
            rows_view(out@) == wanted.take(given.len() - rest@.len()),
        decreases rest@.len(),
    {
        let ghost done = given.len() - rest@.len();
        let row = rest.remove(0);
        assert(row == given[done]);
        assert(rest@ == given.skip(done + 1));
        let ghost before = rows_view(out@);
        let unread = row.unread && row.topic_id != topic_id;
        out.push(Row { unread, ..row });
        assert(rows_view(out@) =~= before.push(wanted[done]));
        assert(wanted.take(done + 1) =~= wanted.take(done).push(wanted[done]));
    }
    assert(wanted.take(given.len() as int) == wanted);
    out
}

fn rows_of_space_read(rows: Vec<Row>, space: &str) -> (r: Vec<Row>)
    ensures
        rows_view(r@) == space_read(rows_view(rows@), space@),
{
    let ghost given = rows@;
    let ghost wanted = space_read(rows_view(given), space@);
    let mut rest = rows;
    let mut out: Vec<Row> = Vec::new();
    assert(given.skip(0) == given);
    assert(rows_view(out@) == wanted.take(0));
    while rest.len() > 0
        invariant
            rest@.len() <= given.len(),
            wanted == space_read(rows_view(given), space@),
            rest@ == given.skip(given.len() - rest@.len()),
            rows_view(out@) == wanted.take(given.len() - rest@.len()),
        decreases rest@.len(),
    {
        let ghost done = given.len() - rest@.len();
        let row = rest.remove(0);
        assert(row == given[done]);
        assert(rest@ == given.skip(done + 1));
        let ghost before = rows_view(out@);
        let unread = row.unread && !same(&row.space, space);
        out.push(Row { unread, ..row });
        assert(rows_view(out@) =~= before.push(wanted[done]));
        assert(wanted.take(done + 1) =~= wanted.take(done).push(wanted[done]));
    }
    assert(wanted.take(given.len() as int) == wanted);
    out
}

fn events_of_space_read(events: Vec<Stored>, space: &str) -> (r: Vec<Stored>)
    ensures
        stored_view(r@) == events_read(stored_view(events@), space@),
{
    let ghost given = events@;
    let ghost wanted = events_read(stored_view(given), space@);
    let mut rest = events;
    let mut out: Vec<Stored> = Vec::new();
    assert(given.skip(0) == given);
    assert(stored_view(out@) == wanted.take(0));
    while rest.len() > 0
        invariant
            rest@.len() <= given.len(),
            wanted == events_read(stored_view(given), space@),
            rest@ == given.skip(given.len() - rest@.len()),
            stored_view(out@) == wanted.take(given.len() - rest@.len()),
        decreases rest@.len(),
    {
        let ghost done = given.len() - rest@.len();
        let event = rest.remove(0);
        assert(event == given[done]);
        assert(rest@ == given.skip(done + 1));
        let ghost before = stored_view(out@);
        let unread = event.unread && !same(&event.space, space);
        out.push(Stored { unread, ..event });
        assert(stored_view(out@) =~= before.push(wanted[done]));
        assert(wanted.take(done + 1) =~= wanted.take(done).push(wanted[done]));
    }
    assert(wanted.take(given.len() as int) == wanted);
    out
}

/// Reads everything of one space: its rows, and its events.
pub fn mark_all_read(rows: Vec<Row>, events: Vec<Stored>, space: &str) -> (r: (
    Vec<Row>,
    Vec<Stored>,
))
    ensures
        rows_view(r.0@) == space_read(rows_view(rows@), space@),
        stored_view(r.1@) == events_read(stored_view(events@), space@),
{
    (rows_of_space_read(rows, space), events_of_space_read(events, space))
}

proof fn counted_of_read(
    rows: Seq<RowView>,
    space: Seq<char>,
    spaces: Seq<Seq<char>>,
    reason: Reason,
)
    ensures
        spaces == seq![space] ==> forall|i: int|
            0 <= i < counted(space_read(rows, space), spaces, reason).len() ==> !(
            #[trigger] counted(space_read(rows, space), spaces, reason)[i]).unread,
        !spaces.contains(space) ==> counted(space_read(rows, space), spaces, reason) == counted(
            rows,
            spaces,
            reason,
        ),
    decreases rows.len(),
{
    let after = space_read(rows, space);
    if rows.len() > 0 {
        counted_of_read(rows.drop_last(), space, spaces, reason);
        assert(after.drop_last() =~= space_read(rows.drop_last(), space));
        let (old_row, new_row) = (rows.last(), after.last());
        assert(new_row.space == old_row.space && new_row.reason == old_row.reason
            && new_row.hidden == old_row.hidden);
        if spaces == seq![space] && counts(new_row, spaces, reason) {
            assert(new_row.space == space);
        }
        if !spaces.contains(space) && counts(new_row, spaces, reason) {
            assert(old_row.space != space);
            assert(new_row == old_row);
        }
    } else {
        assert(after =~= rows);
    }
}

proof fn events_of_read(events: Seq<StoredView>, space: Seq<char>, spaces: Seq<Seq<char>>)
    ensures
        spaces == seq![space] ==> forall|i: int|
            0 <= i < events_in(events_read(events, space), spaces).len() ==> !(
            #[trigger] events_in(events_read(events, space), spaces)[i]).unread,
        !spaces.contains(space) ==> events_in(events_read(events, space), spaces) == events_in(
            events,
            spaces,
        ),
    decreases events.len(),
{
    let after = events_read(events, space);
    if events.len() > 0 {
        events_of_read(events.drop_last(), space, spaces);
        assert(after.drop_last() =~= events_read(events.drop_last(), space));
        let (old_event, new_event) = (events.last(), after.last());
        assert(new_event.space == old_event.space);
        if spaces == seq![space] && spaces.contains(new_event.space) {
            assert(new_event.space == space);
        }
        if !spaces.contains(space) && spaces.contains(new_event.space) {
            assert(old_event.space != space);
            assert(new_event == old_event);
        }
    } else {
        assert(after =~= events);
    }
}

proof fn none_unread(lines: Seq<LineView>)
    requires
        forall|i: int| 0 <= i < lines.len() ==> !(#[trigger] lines[i]).unread,
    ensures
        unread_in(lines) == 0,
    decreases lines.len(),
{
    if lines.len() > 0 {
        assert(lines[lines.len() - 1] == lines.last());
        assert forall|i: int| 0 <= i < lines.drop_last().len() implies !(
        #[trigger] lines.drop_last()[i]).unread by {
            assert(lines.drop_last()[i] == lines[i]);
        }
        none_unread(lines.drop_last());
    }
}

proof fn keys_of_read(replies: Seq<RowView>)
    requires
        forall|i: int| 0 <= i < replies.len() ==> !(#[trigger] replies[i]).unread,
    ensures
        forall|i: int|
            0 <= i < bundle_keys(replies).len() ==> !(#[trigger] bundle_keys(replies)[i]).1,
    decreases replies.len(),
{
    if replies.len() > 0 {
        let front = replies.drop_last();
        assert forall|i: int| 0 <= i < front.len() implies !(#[trigger] front[i]).unread by {
            assert(front[i] == replies[i]);
        }
        keys_of_read(front);
        assert(replies[replies.len() - 1] == replies.last());
        let (before, after) = (bundle_keys(front), bundle_keys(replies));
        assert forall|i: int| 0 <= i < after.len() implies !(#[trigger] after[i]).1 by {
            if i < before.len() {
                assert(after[i] == before[i]);
            }
        }
    }
}

/// Reading everything of a space empties its bell, and leaves what the bell
/// shows of other spaces as it was.
pub proof fn reading_all_is_for_one_space(
    rows: Seq<RowView>,
    events: Seq<StoredView>,
    space: Seq<char>,
    others: Seq<Seq<char>>,
    limit: i64,
)
    requires
        !others.contains(space),
    ensures
        unread_total(space_read(rows, space), events_read(events, space), seq![space]) == 0,
        unread_total(space_read(rows, space), events_read(events, space), others) == unread_total(
            rows,
            events,
            others,
        ),
        page_entries(space_read(rows, space), events_read(events, space), others, limit)
            == page_entries(rows, events, others, limit),
{
    let (after, elsewhere) = (space_read(rows, space), events_read(events, space));
    let here = seq![space];
    counted_of_read(rows, space, here, Reason::Reply);
    counted_of_read(rows, space, here, Reason::Mention);
    counted_of_read(rows, space, here, Reason::Like);
    events_of_read(events, space, here);
    keys_of_read(counted(after, here, Reason::Reply));
    let lines = lines_for(after, elsewhere, here);
    none_unread(lines.0);
    none_unread(lines.1);
    none_unread(lines.2);
    none_unread(lines.3);
    counted_of_read(rows, space, others, Reason::Reply);
    counted_of_read(rows, space, others, Reason::Mention);
    counted_of_read(rows, space, others, Reason::Like);
    events_of_read(events, space, others);
}

proof fn counted_of_topic_read(
    rows: Seq<RowView>,
    topic_id: i64,
    spaces: Seq<Seq<char>>,
    reason: Reason,
)
    ensures
        counted(topic_read(rows, topic_id), spaces, reason) == topic_read(
            counted(rows, spaces, reason),
            topic_id,
        ),
    decreases rows.len(),
{
    let after = topic_read(rows, topic_id);
    if rows.len() > 0 {
        counted_of_topic_read(rows.drop_last(), topic_id, spaces, reason);
        assert(after.drop_last() =~= topic_read(rows.drop_last(), topic_id));
        let before = counted(rows.drop_last(), spaces, reason);
        assert(topic_read(before.push(rows.last()), topic_id) =~= topic_read(
            before,
            topic_id,
        ).push(after.last()));
    } else {
        assert(after =~= rows);
        assert(topic_read(counted(rows, spaces, reason), topic_id) =~= Seq::<RowView>::empty());
    }
}

proof fn bundled_of_topic_read(
    replies: Seq<RowView>,
    topic_id: i64,
    other: i64,
    unread: bool,
)
    requires
        other != topic_id,
    ensures
        bundled(topic_read(replies, topic_id), other, unread) == bundled(replies, other, unread),
        bundled(topic_read(replies, topic_id), topic_id, true).len() == 0,
    decreases replies.len(),
{
    let after = topic_read(replies, topic_id);
    if replies.len() > 0 {
        bundled_of_topic_read(replies.drop_last(), topic_id, other, unread);
        assert(after.drop_last() =~= topic_read(replies.drop_last(), topic_id));
        if replies.last().topic_id == other {
            assert(after.last() == replies.last());
        }
    } else {
        assert(after =~= replies);
    }
}

/// Reading a topic reads its bundle and leaves the bundles of every other
/// topic as they were.
pub proof fn reading_one_topic_leaves_the_others(
    rows: Seq<RowView>,
    spaces: Seq<Seq<char>>,
    topic_id: i64,
    other: i64,
    unread: bool,
)
    requires
        other != topic_id,
    ensures
        ({
            let before = counted(rows, spaces, Reason::Reply);
            let after = counted(topic_read(rows, topic_id), spaces, Reason::Reply);
            &&& bundled(after, topic_id, true).len() == 0
            &&& bundled(after, other, unread) == bundled(before, other, unread)
        }),
{
    counted_of_topic_read(rows, topic_id, spaces, Reason::Reply);
    bundled_of_topic_read(counted(rows, spaces, Reason::Reply), topic_id, other, unread);
}

} // verus!
