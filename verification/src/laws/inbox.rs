//! What the bell and the notifications page say is what happened.
use crate::db::events::Kind;
use crate::db::inbox::{
    bundle_keys, bundle_line, bundled, clamped, counted, event_line, events_in, first_post,
    last_moment, last_row, like_line, line_before, lines_for, mention_line, page_entries,
    page_lines, reply_lines, speaking, top, unread_in, unread_total, EntryView, LineView, Reason,
    RowView, StoredView,
};
use crate::order::{arranged, arranging_orders, is_order};
use vstd::prelude::*;
use vstd::string::*;

verus! {

/// May the row be shown: in a space that may be read, in a topic that was not
/// withdrawn?
pub open spec fn in_sight(row: RowView, spaces: Seq<Seq<char>>) -> bool {
    row.hidden == false && spaces.contains(row.space)
}

/// Does the row say that somebody was mentioned, and does the entry say the
/// same: who did it, in which post of which topic, when, and whether it is new?
pub open spec fn tells_of_mention(
    row: RowView,
    spaces: Seq<Seq<char>>,
    entry: EntryView,
) -> bool {
    &&& row.reason == Reason::Mention
    &&& in_sight(row, spaces)
    &&& entry matches EntryView::Mention {
        topic_id,
        topic_title,
        post_id,
        author,
        space,
        at,
        unread,
    }
    &&& author == row.author
    &&& topic_title == row.topic_title
    &&& topic_id == row.topic_id
    &&& post_id == row.post_id
    &&& space == row.space
    &&& at == row.at
    &&& unread == row.unread
}

/// Does the row say that a post is liked, and does the entry say the same: by
/// how many, by whom last, which post of which topic, when, and whether it is
/// new?
pub open spec fn tells_of_likes(row: RowView, spaces: Seq<Seq<char>>, entry: EntryView) -> bool {
    &&& row.reason == Reason::Like
    &&& in_sight(row, spaces)
    &&& row.likes > 0
    &&& entry matches EntryView::Likes {
        topic_id,
        topic_title,
        post_id,
        count,
        space,
        latest_name,
        at,
        unread,
    }
    &&& count == row.likes
    &&& row.latest_like == Some(latest_name)
    &&& topic_title == row.topic_title
    &&& topic_id == row.topic_id
    &&& post_id == row.post_id
    &&& space == row.space
    &&& at == row.at
    &&& unread == row.unread
}

/// Does the entry say what the event says?
pub open spec fn tells_of_event(
    event: StoredView,
    spaces: Seq<Seq<char>>,
    entry: EntryView,
) -> bool {
    &&& spaces.contains(event.space)
    &&& entry matches EntryView::Event { id, kind, title, reason, at, unread, space }
    &&& event.kind == match kind {
        Kind::FilmAvailable => "film_available"@,
        Kind::FilmFailed => "film_failed"@,
    }
    &&& id == event.id
    &&& title == event.title
    &&& reason == event.reason
    &&& at == event.at
    &&& unread == event.unread
    &&& space == event.space
}

/// Is the row an answer in this topic, and is it new, or not, as this says?
pub open spec fn answers(
    row: RowView,
    spaces: Seq<Seq<char>>,
    topic_id: i64,
    unread: bool,
) -> bool {
    row.reason == Reason::Reply && in_sight(row, spaces) && row.topic_id == topic_id && row.unread
        == unread
}

/// How many answers there are in this topic, new ones or others.
pub open spec fn answers_among(
    rows: Seq<RowView>,
    spaces: Seq<Seq<char>>,
    topic_id: i64,
    unread: bool,
) -> int
    decreases rows.len(),
{
    if rows.len() == 0 {
        0
    } else {
        answers_among(rows.drop_last(), spaces, topic_id, unread) + if answers(
            rows.last(),
            spaces,
            topic_id,
            unread,
        ) {
            1int
        } else {
            0int
        }
    }
}

/// Does the entry say how many answers there are in a topic, which is the
/// first, and who wrote the last one?
pub open spec fn tells_of_answers(
    rows: Seq<RowView>,
    spaces: Seq<Seq<char>>,
    entry: EntryView,
) -> bool {
    &&& entry matches EntryView::Replies {
        topic_id,
        topic_title,
        space,
        count,
        latest_author,
        latest_at,
        first_post_id,
        unread,
    }
    &&& count == answers_among(rows, spaces, topic_id, unread)
    &&& exists|k: int|
        {
            &&& 0 <= k < rows.len()
            &&& answers(#[trigger] rows[k], spaces, topic_id, unread)
            &&& rows[k].author == latest_author
            &&& rows[k].topic_title == topic_title
            &&& rows[k].space == space
            &&& forall|m: int|
                0 <= m < rows.len() && answers(#[trigger] rows[m], spaces, topic_id, unread)
                    ==> rows[m].post_id <= rows[k].post_id
        }
    &&& exists|k: int|
        0 <= k < rows.len() && answers(#[trigger] rows[k], spaces, topic_id, unread)
            && rows[k].post_id == first_post_id
    &&& exists|k: int|
        0 <= k < rows.len() && answers(#[trigger] rows[k], spaces, topic_id, unread) && rows[k].at
            == latest_at
    &&& forall|m: int|
        0 <= m < rows.len() && answers(#[trigger] rows[m], spaces, topic_id, unread)
            ==> first_post_id <= rows[m].post_id && rows[m].at <= latest_at
}

/// Is there something that the entry tells of?
pub open spec fn is_true(
    rows: Seq<RowView>,
    events: Seq<StoredView>,
    spaces: Seq<Seq<char>>,
    entry: EntryView,
) -> bool {
    match entry {
        EntryView::Replies { .. } => tells_of_answers(rows, spaces, entry),
        EntryView::Mention { .. } => exists|k: int|
            0 <= k < rows.len() && #[trigger] tells_of_mention(rows[k], spaces, entry),
        EntryView::Likes { .. } => exists|k: int|
            0 <= k < rows.len() && #[trigger] tells_of_likes(rows[k], spaces, entry),
        EntryView::Event { .. } => exists|k: int|
            0 <= k < events.len() && #[trigger] tells_of_event(events[k], spaces, entry),
    }
}

/// Is the entry new?
pub open spec fn is_new(entry: EntryView) -> bool {
    match entry {
        EntryView::Replies { unread, .. } => unread,
        EntryView::Mention { unread, .. } => unread,
        EntryView::Likes { unread, .. } => unread,
        EntryView::Event { unread, .. } => unread,
    }
}

/// When it happened.
pub open spec fn when_it_was(entry: EntryView) -> i64 {
    match entry {
        EntryView::Replies { latest_at, .. } => latest_at,
        EntryView::Mention { at, .. } => at,
        EntryView::Likes { at, .. } => at,
        EntryView::Event { at, .. } => at,
    }
}

proof fn counting_keeps(rows: Seq<RowView>, spaces: Seq<Seq<char>>, reason: Reason, row: RowView)
    ensures
        counted(rows, spaces, reason).contains(row) <==> rows.contains(row) && in_sight(
            row,
            spaces,
        ) && row.reason == reason,
        counted(rows, spaces, reason).len() <= rows.len(),
    decreases rows.len(),
{
    let all = counted(rows, spaces, reason);
    if rows.len() > 0 {
        let front = rows.drop_last();
        let before = counted(front, spaces, reason);
        counting_keeps(front, spaces, reason, row);
        assert(rows[rows.len() - 1] == rows.last());
        if front.contains(row) {
            let k = choose|k: int| 0 <= k < front.len() && front[k] == row;
            assert(rows[k] == row);
        }
        if rows.contains(row) && !front.contains(row) {
            let k = choose|k: int| 0 <= k < rows.len() && rows[k] == row;
            if k < front.len() {
                assert(front[k] == row);
            }
        }
        if before.contains(row) {
            let k = choose|k: int| 0 <= k < before.len() && before[k] == row;
            assert(all[k] == row);
        }
        if all.contains(row) && !before.contains(row) {
            let k = choose|k: int| 0 <= k < all.len() && all[k] == row;
            if k < before.len() {
                assert(before[k] == row);
            }
        }
        if all.len() > before.len() {
            assert(all[before.len() as int] == rows.last());
        }
    }
}

proof fn events_keep(events: Seq<StoredView>, spaces: Seq<Seq<char>>, event: StoredView)
    ensures
        events_in(events, spaces).contains(event) <==> events.contains(event) && spaces.contains(
            event.space,
        ),
        events_in(events, spaces).len() <= events.len(),
    decreases events.len(),
{
    let all = events_in(events, spaces);
    if events.len() > 0 {
        let front = events.drop_last();
        let before = events_in(front, spaces);
        events_keep(front, spaces, event);
        assert(events[events.len() - 1] == events.last());
        if front.contains(event) {
            let k = choose|k: int| 0 <= k < front.len() && front[k] == event;
            assert(events[k] == event);
        }
        if events.contains(event) && !front.contains(event) {
            let k = choose|k: int| 0 <= k < events.len() && events[k] == event;
            if k < front.len() {
                assert(front[k] == event);
            }
        }
        if before.contains(event) {
            let k = choose|k: int| 0 <= k < before.len() && before[k] == event;
            assert(all[k] == event);
        }
        if all.contains(event) && !before.contains(event) {
            let k = choose|k: int| 0 <= k < all.len() && all[k] == event;
            if k < before.len() {
                assert(before[k] == event);
            }
        }
        if all.len() > before.len() {
            assert(all[before.len() as int] == events.last());
        }
    }
}

proof fn topping_keeps(lines: Seq<LineView>, limit: int)
    requires
        limit >= 0,
    ensures
        forall|x: LineView| #[trigger] top(lines, limit).contains(x) ==> lines.contains(x),
        limit >= lines.len() ==> forall|x: LineView| #[trigger]
            lines.contains(x) ==> top(lines, limit).contains(x),
        top(lines, limit).len() == if limit < lines.len() {
            limit
        } else {
            lines.len() as int
        },
        forall|a: int, b: int|
            0 <= a < b < top(lines, limit).len() ==> !line_before(
                #[trigger] top(lines, limit)[b],
                #[trigger] top(lines, limit)[a],
            ),
{
    broadcast use vstd::seq_lib::group_to_multiset_ensures;

    let before = |a: LineView, b: LineView| line_before(a, b);
    let all = arranged(lines, before);
    assert(is_order(before));
    arranging_orders(lines, before);
    assert forall|x: LineView| all.contains(x) <==> lines.contains(x) by {
        assert(all.contains(x) <==> all.to_multiset().count(x) > 0);
        assert(lines.contains(x) <==> lines.to_multiset().count(x) > 0);
    }
    let kept = top(lines, limit);
    assert forall|x: LineView| #[trigger] kept.contains(x) implies lines.contains(x) by {
        let k = choose|k: int| 0 <= k < kept.len() && kept[k] == x;
        assert(all[k] == x);
        assert(all.contains(x));
    }
    assert forall|a: int, b: int| 0 <= a < b < kept.len() implies !line_before(
        #[trigger] kept[b],
        #[trigger] kept[a],
    ) by {
        assert(kept[a] == all[a] && kept[b] == all[b]);
        assert(!before(all[b], all[a]));
    }
}

proof fn speaking_keeps(lines: Seq<LineView>, line: LineView)
    ensures
        speaking(lines).contains(line) <==> lines.contains(line) && line.entry is Some,
        speaking(lines).len() <= lines.len(),
    decreases lines.len(),
{
    let all = speaking(lines);
    if lines.len() > 0 {
        let front = lines.drop_last();
        let before = speaking(front);
        speaking_keeps(front, line);
        assert(lines[lines.len() - 1] == lines.last());
        if front.contains(line) {
            let k = choose|k: int| 0 <= k < front.len() && front[k] == line;
            assert(lines[k] == line);
        }
        if lines.contains(line) && !front.contains(line) {
            let k = choose|k: int| 0 <= k < lines.len() && lines[k] == line;
            if k < front.len() {
                assert(front[k] == line);
            }
        }
        if before.contains(line) {
            let k = choose|k: int| 0 <= k < before.len() && before[k] == line;
            assert(all[k] == line);
        }
        if all.contains(line) && !before.contains(line) {
            let k = choose|k: int| 0 <= k < all.len() && all[k] == line;
            if k < before.len() {
                assert(before[k] == line);
            }
        }
        if all.len() > before.len() {
            assert(all[before.len() as int] == lines.last());
        }
    }
}

proof fn in_four(
    a: Seq<LineView>,
    b: Seq<LineView>,
    c: Seq<LineView>,
    d: Seq<LineView>,
    line: LineView,
)
    ensures
        (a + b + c + d).contains(line) <==> a.contains(line) || b.contains(line) || c.contains(line)
            || d.contains(line),
{
    let all = a + b + c + d;
    if a.contains(line) {
        let k = choose|k: int| 0 <= k < a.len() && a[k] == line;
        assert(all[k] == line);
    }
    if b.contains(line) {
        let k = choose|k: int| 0 <= k < b.len() && b[k] == line;
        assert(all[a.len() + k] == line);
    }
    if c.contains(line) {
        let k = choose|k: int| 0 <= k < c.len() && c[k] == line;
        assert(all[a.len() + b.len() + k] == line);
    }
    if d.contains(line) {
        let k = choose|k: int| 0 <= k < d.len() && d[k] == line;
        assert(all[a.len() + b.len() + c.len() + k] == line);
    }
    if all.contains(line) {
        let k = choose|k: int| 0 <= k < all.len() && all[k] == line;
        if k < a.len() {
            assert(a[k] == line);
        } else if k < a.len() + b.len() {
            assert(b[k - a.len()] == line);
        } else if k < a.len() + b.len() + c.len() {
            assert(c[k - a.len() - b.len()] == line);
        } else {
            assert(d[k - a.len() - b.len() - c.len()] == line);
        }
    }
}

/// A line of the page comes from one of the four lists, and with room enough
/// every line of the four that has something to say is on the page.
proof fn the_page_holds(
    rows: Seq<RowView>,
    events: Seq<StoredView>,
    spaces: Seq<Seq<char>>,
    limit: i64,
    line: LineView,
)
    ensures
        ({
            let (replies, mentions, likes, elsewhere) = lines_for(rows, events, spaces);
            let page = page_lines(rows, events, spaces, limit);
            let any = replies.contains(line) || mentions.contains(line) || likes.contains(line)
                || elsewhere.contains(line);
            &&& page.contains(line) ==> any && line.entry is Some
            &&& replies.len() + mentions.len() + likes.len() + elsewhere.len() <= clamped(limit)
                && any && line.entry is Some ==> page.contains(line)
        }),
{
    let n = clamped(limit);
    let (replies, mentions, likes, elsewhere) = lines_for(rows, events, spaces);
    topping_keeps(replies, n);
    topping_keeps(mentions, n);
    topping_keeps(likes, n);
    topping_keeps(elsewhere, n);
    let (a, b, c, d) = (
        speaking(top(replies, n)),
        speaking(top(mentions, n)),
        speaking(top(likes, n)),
        speaking(top(elsewhere, n)),
    );
    speaking_keeps(top(replies, n), line);
    speaking_keeps(top(mentions, n), line);
    speaking_keeps(top(likes, n), line);
    speaking_keeps(top(elsewhere, n), line);
    in_four(a, b, c, d, line);
    topping_keeps(a + b + c + d, n);
}

proof fn bundling_keeps(
    rows: Seq<RowView>,
    spaces: Seq<Seq<char>>,
    topic_id: i64,
    unread: bool,
    row: RowView,
)
    ensures
        ({
            let bundle = bundled(counted(rows, spaces, Reason::Reply), topic_id, unread);
            &&& bundle.contains(row) <==> rows.contains(row) && answers(
                row,
                spaces,
                topic_id,
                unread,
            )
            &&& bundle.len() == answers_among(rows, spaces, topic_id, unread)
        }),
    decreases rows.len(),
{
    let replies = counted(rows, spaces, Reason::Reply);
    let all = bundled(replies, topic_id, unread);
    if rows.len() > 0 {
        let front = rows.drop_last();
        let last = rows.last();
        let fewer = counted(front, spaces, Reason::Reply);
        let before = bundled(fewer, topic_id, unread);
        bundling_keeps(front, spaces, topic_id, unread, row);
        if last.reason == Reason::Reply && in_sight(last, spaces) {
            assert(replies == fewer.push(last));
            assert(replies.drop_last() == fewer);
            assert(replies.last() == last);
        } else {
            assert(replies == fewer);
        }
        assert(rows[rows.len() - 1] == rows.last());
        if front.contains(row) {
            let k = choose|k: int| 0 <= k < front.len() && front[k] == row;
            assert(rows[k] == row);
        }
        if rows.contains(row) && !front.contains(row) {
            let k = choose|k: int| 0 <= k < rows.len() && rows[k] == row;
            if k < front.len() {
                assert(front[k] == row);
            }
        }
        if before.contains(row) {
            let k = choose|k: int| 0 <= k < before.len() && before[k] == row;
            assert(all[k] == row);
        }
        if all.contains(row) && !before.contains(row) {
            let k = choose|k: int| 0 <= k < all.len() && all[k] == row;
            if k < before.len() {
                assert(before[k] == row);
            }
        }
        if all.len() > before.len() {
            assert(all[before.len() as int] == last);
        }
    } else {
        assert(replies =~= Seq::<RowView>::empty());
    }
}

proof fn ends_of_a_bundle(rows: Seq<RowView>)
    requires
        rows.len() > 0,
    ensures
        rows.contains(last_row(rows)),
        exists|k: int| 0 <= k < rows.len() && (#[trigger] rows[k]).post_id == first_post(rows),
        exists|k: int| 0 <= k < rows.len() && (#[trigger] rows[k]).at == last_moment(rows),
        forall|m: int|
            0 <= m < rows.len() ==> first_post(rows) <= (#[trigger] rows[m]).post_id
                && rows[m].post_id <= last_row(rows).post_id && rows[m].at <= last_moment(rows),
    decreases rows.len(),
{
    if rows.len() > 1 {
        let front = rows.drop_last();
        ends_of_a_bundle(front);
        let last = rows.len() - 1;
        assert(rows[last] == rows.last());
        let a = choose|k: int| 0 <= k < front.len() && front[k] == last_row(front);
        let b = choose|k: int|
            0 <= k < front.len() && (#[trigger] front[k]).post_id == first_post(front);
        let c = choose|k: int| 0 <= k < front.len() && (#[trigger] front[k]).at == last_moment(
            front,
        );
        assert(rows[a] == front[a] && rows[b] == front[b] && rows[c] == front[c]);
        assert forall|m: int| 0 <= m < rows.len() implies first_post(rows) <= (
        #[trigger] rows[m]).post_id && rows[m].post_id <= last_row(rows).post_id && rows[m].at
            <= last_moment(rows) by {
            if m < front.len() {
                assert(front[m] == rows[m]);
            }
        }
    } else {
        assert(rows[0] == rows[0]);
    }
}

proof fn keys_are_of_answers(
    rows: Seq<RowView>,
    spaces: Seq<Seq<char>>,
    key: (i64, bool),
)
    ensures
        ({
            let keys = bundle_keys(counted(rows, spaces, Reason::Reply));
            &&& keys.contains(key) <==> exists|k: int|
                0 <= k < rows.len() && answers(#[trigger] rows[k], spaces, key.0, key.1)
            &&& keys.no_duplicates()
            &&& keys.len() <= counted(rows, spaces, Reason::Reply).len()
        }),
    decreases rows.len(),
{
    let replies = counted(rows, spaces, Reason::Reply);
    let keys = bundle_keys(replies);
    if rows.len() > 0 {
        let front = rows.drop_last();
        let last = rows.last();
        let fewer = counted(front, spaces, Reason::Reply);
        let before = bundle_keys(fewer);
        keys_are_of_answers(front, spaces, key);
        if last.reason == Reason::Reply && in_sight(last, spaces) {
            assert(replies == fewer.push(last));
            assert(replies.drop_last() == fewer);
            assert(replies.last() == last);
        } else {
            assert(replies == fewer);
        }
        assert(rows[rows.len() - 1] == last);
        if before.contains(key) {
            let j = choose|j: int| 0 <= j < before.len() && before[j] == key;
            assert(keys[j] == key);
            let k = choose|k: int|
                0 <= k < front.len() && answers(#[trigger] front[k], spaces, key.0, key.1);
            assert(rows[k] == front[k]);
        }
        if keys.contains(key) && !before.contains(key) {
            let j = choose|j: int| 0 <= j < keys.len() && keys[j] == key;
            if j < before.len() {
                assert(before[j] == key);
            }
            assert(answers(rows[rows.len() - 1], spaces, key.0, key.1));
        }
        if exists|k: int|
            0 <= k < rows.len() && answers(#[trigger] rows[k], spaces, key.0, key.1) {
            let k = choose|k: int|
                0 <= k < rows.len() && answers(#[trigger] rows[k], spaces, key.0, key.1);
            if k < front.len() {
                assert(front[k] == rows[k]);
            } else if !before.contains(key) {
                assert(keys[before.len() as int] == key);
            }
        }
    } else {
        assert(replies =~= Seq::<RowView>::empty());
    }
}

proof fn a_line_of_answers(
    rows: Seq<RowView>,
    spaces: Seq<Seq<char>>,
    topic_id: i64,
    unread: bool,
)
    requires
        exists|k: int|
            0 <= k < rows.len() && answers(#[trigger] rows[k], spaces, topic_id, unread),
    ensures
        ({
            let bundle = bundled(counted(rows, spaces, Reason::Reply), topic_id, unread);
            let line = bundle_line(bundle, unread);
            &&& line.entry is Some
            &&& tells_of_answers(rows, spaces, line.entry->0)
            &&& line.unread == is_new(line.entry->0)
            &&& line.at == when_it_was(line.entry->0)
            &&& line.entry->0 is Replies
            &&& line.entry->0->Replies_topic_id == topic_id
            &&& line.entry->0->Replies_unread == unread
        }),
{
    let bundle = bundled(counted(rows, spaces, Reason::Reply), topic_id, unread);
    let entry = bundle_line(bundle, unread).entry->0;
    let k = choose|k: int|
        0 <= k < rows.len() && answers(#[trigger] rows[k], spaces, topic_id, unread);
    bundling_keeps(rows, spaces, topic_id, unread, rows[k]);
    assert(rows.contains(rows[k]));
    assert(bundle.len() > 0);
    ends_of_a_bundle(bundle);
    let latest = last_row(bundle);
    bundling_keeps(rows, spaces, topic_id, unread, latest);
    let a = choose|a: int| 0 <= a < rows.len() && rows[a] == latest;
    let f = choose|f: int| 0 <= f < bundle.len() && (#[trigger] bundle[f]).post_id == first_post(
        bundle,
    );
    bundling_keeps(rows, spaces, topic_id, unread, bundle[f]);
    assert(bundle.contains(bundle[f]));
    let b = choose|b: int| 0 <= b < rows.len() && rows[b] == bundle[f];
    let m = choose|m: int| 0 <= m < bundle.len() && (#[trigger] bundle[m]).at == last_moment(
        bundle,
    );
    bundling_keeps(rows, spaces, topic_id, unread, bundle[m]);
    assert(bundle.contains(bundle[m]));
    let c = choose|c: int| 0 <= c < rows.len() && rows[c] == bundle[m];
    assert forall|j: int|
        0 <= j < rows.len() && answers(
            #[trigger] rows[j],
            spaces,
            topic_id,
            unread,
        ) implies first_post(bundle) <= rows[j].post_id && rows[j].post_id <= latest.post_id
        && rows[j].at <= last_moment(bundle) by {
        bundling_keeps(rows, spaces, topic_id, unread, rows[j]);
        assert(rows.contains(rows[j]));
        let i = choose|i: int| 0 <= i < bundle.len() && bundle[i] == rows[j];
        assert(first_post(bundle) <= bundle[i].post_id);
    }
    assert(answers(rows[a], spaces, topic_id, unread));
    assert(answers(rows[b], spaces, topic_id, unread));
    assert(answers(rows[c], spaces, topic_id, unread));
    assert(latest.topic_id == topic_id);
}

/// A line of the page says what is true, and is ordered by it.
proof fn a_line_is_true(
    rows: Seq<RowView>,
    events: Seq<StoredView>,
    spaces: Seq<Seq<char>>,
    line: LineView,
)
    requires
        line.entry is Some,
        ({
            let (replies, mentions, likes, elsewhere) = lines_for(rows, events, spaces);
            replies.contains(line) || mentions.contains(line) || likes.contains(line)
                || elsewhere.contains(line)
        }),
    ensures
        is_true(rows, events, spaces, line.entry->0),
        line.unread == is_new(line.entry->0),
        line.at == when_it_was(line.entry->0),
{
    let (replies, mentions, likes, elsewhere) = lines_for(rows, events, spaces);
    let entry = line.entry->0;
    if replies.contains(line) {
        let heard = counted(rows, spaces, Reason::Reply);
        let k = choose|k: int| 0 <= k < replies.len() && replies[k] == line;
        let key = bundle_keys(heard)[k];
        assert(bundle_keys(heard).contains(key));
        keys_are_of_answers(rows, spaces, key);
        a_line_of_answers(rows, spaces, key.0, key.1);
    } else if mentions.contains(line) {
        let list = counted(rows, spaces, Reason::Mention);
        let k = choose|k: int| 0 <= k < mentions.len() && mentions[k] == line;
        assert(line == mention_line(list[k]));
        assert(list.contains(list[k]));
        counting_keeps(rows, spaces, Reason::Mention, list[k]);
        let j = choose|j: int| 0 <= j < rows.len() && rows[j] == list[k];
        assert(tells_of_mention(rows[j], spaces, entry));
    } else if likes.contains(line) {
        let list = counted(rows, spaces, Reason::Like);
        let k = choose|k: int| 0 <= k < likes.len() && likes[k] == line;
        assert(line == like_line(list[k]));
        assert(list.contains(list[k]));
        counting_keeps(rows, spaces, Reason::Like, list[k]);
        let j = choose|j: int| 0 <= j < rows.len() && rows[j] == list[k];
        assert(tells_of_likes(rows[j], spaces, entry));
    } else {
        let list = events_in(events, spaces);
        let k = choose|k: int| 0 <= k < elsewhere.len() && elsewhere[k] == line;
        assert(line == event_line(list[k]));
        assert(list.contains(list[k]));
        events_keep(events, spaces, list[k]);
        let j = choose|j: int| 0 <= j < events.len() && events[j] == list[k];
        assert(tells_of_event(events[j], spaces, entry));
    }
}

/// WHAT THE PAGE SAYS IS TRUE: for every entry there is what it tells of, in a
/// space that may be read and in a topic that was not withdrawn, and it says
/// who, what, where and when as it was.
pub proof fn what_the_page_says_is_true(
    rows: Seq<RowView>,
    events: Seq<StoredView>,
    spaces: Seq<Seq<char>>,
    limit: i64,
    i: int,
)
    requires
        0 <= i < page_entries(rows, events, spaces, limit).len(),
    ensures
        is_true(rows, events, spaces, page_entries(rows, events, spaces, limit)[i]),
{
    let page = page_lines(rows, events, spaces, limit);
    assert(page.contains(page[i]));
    the_page_holds(rows, events, spaces, limit, page[i]);
    a_line_is_true(rows, events, spaces, page[i]);
}

/// What is new comes first, and among what is equally new the latest comes
/// first. The page has at most as many entries as were asked for, two hundred
/// at most.
pub proof fn what_is_new_comes_first(
    rows: Seq<RowView>,
    events: Seq<StoredView>,
    spaces: Seq<Seq<char>>,
    limit: i64,
    i: int,
    j: int,
)
    requires
        0 <= i < j < page_entries(rows, events, spaces, limit).len(),
    ensures
        ({
            let page = page_entries(rows, events, spaces, limit);
            &&& is_new(page[j]) ==> is_new(page[i])
            &&& is_new(page[i]) == is_new(page[j]) ==> when_it_was(page[i]) >= when_it_was(page[j])
            &&& page.len() <= 200
            &&& limit >= 1 ==> page.len() <= limit
        }),
{
    let page = page_lines(rows, events, spaces, limit);
    let n = clamped(limit);
    let (replies, mentions, likes, elsewhere) = lines_for(rows, events, spaces);
    let all = speaking(top(replies, n)) + speaking(top(mentions, n)) + speaking(top(likes, n))
        + speaking(top(elsewhere, n));
    topping_keeps(all, n);
    assert(page.contains(page[i]) && page.contains(page[j]));
    the_page_holds(rows, events, spaces, limit, page[i]);
    the_page_holds(rows, events, spaces, limit, page[j]);
    a_line_is_true(rows, events, spaces, page[i]);
    a_line_is_true(rows, events, spaces, page[j]);
    assert(!line_before(page[j], page[i]));
}

proof fn four_lists_are_short(
    rows: Seq<RowView>,
    events: Seq<StoredView>,
    spaces: Seq<Seq<char>>,
)
    ensures
        ({
            let (replies, mentions, likes, elsewhere) = lines_for(rows, events, spaces);
            &&& replies.len() + mentions.len() + likes.len() <= rows.len()
            &&& elsewhere.len() <= events.len()
        }),
    decreases rows.len(),
{
    three_reasons(rows, spaces);
    keys_are_of_answers(rows, spaces, (0, false));
    if events.len() > 0 {
        events_keep(events, spaces, events[0]);
    } else {
        assert(events_in(events, spaces) =~= Seq::<StoredView>::empty());
    }
}

proof fn three_reasons(rows: Seq<RowView>, spaces: Seq<Seq<char>>)
    ensures
        counted(rows, spaces, Reason::Reply).len() + counted(rows, spaces, Reason::Mention).len()
            + counted(rows, spaces, Reason::Like).len() <= rows.len(),
    decreases rows.len(),
{
    if rows.len() > 0 {
        three_reasons(rows.drop_last(), spaces);
    }
}

/// NOTHING IS KEPT BACK: as long as there is room, every mention, every liked
/// post, every event and every topic with answers has its entry.
pub proof fn nothing_is_kept_back(
    rows: Seq<RowView>,
    events: Seq<StoredView>,
    spaces: Seq<Seq<char>>,
    limit: i64,
)
    requires
        rows.len() + events.len() <= limit,
        limit <= 200,
    ensures
        ({
            let page = page_entries(rows, events, spaces, limit);
            &&& forall|k: int, e: EntryView|
                0 <= k < rows.len() && #[trigger] tells_of_mention(rows[k], spaces, e)
                    ==> page.contains(e)
            &&& forall|k: int, e: EntryView|
                0 <= k < rows.len() && #[trigger] tells_of_likes(rows[k], spaces, e)
                    ==> page.contains(e)
            &&& forall|k: int, e: EntryView|
                0 <= k < events.len() && #[trigger] tells_of_event(events[k], spaces, e)
                    ==> page.contains(e)
            &&& forall|k: int, topic_id: i64, unread: bool|
                0 <= k < rows.len() && #[trigger] answers(rows[k], spaces, topic_id, unread)
                    ==> exists|e: EntryView|
                    {
                        &&& #[trigger] page.contains(e)
                        &&& tells_of_answers(rows, spaces, e)
                        &&& e->Replies_topic_id == topic_id
                        &&& e->Replies_unread == unread
                    }
        }),
{
    let page = page_entries(rows, events, spaces, limit);
    let lines = page_lines(rows, events, spaces, limit);
    let (replies, mentions, likes, elsewhere) = lines_for(rows, events, spaces);
    four_lists_are_short(rows, events, spaces);
    reveal_strlit("film_available");
    reveal_strlit("film_failed");
    assert("film_available"@.len() == 14 && "film_failed"@.len() == 11);
    assert forall|k: int, e: EntryView|
        0 <= k < rows.len() && #[trigger] tells_of_mention(rows[k], spaces, e) implies page.contains(
        e,
    ) by {
        let row = rows[k];
        let line = mention_line(row);
        assert(line.entry == Some(e));
        counting_keeps(rows, spaces, Reason::Mention, row);
        assert(rows.contains(row));
        let list = counted(rows, spaces, Reason::Mention);
        let j = choose|j: int| 0 <= j < list.len() && list[j] == row;
        assert(mentions[j] == line);
        on_the_page(rows, events, spaces, limit, line);
    }
    assert forall|k: int, e: EntryView|
        0 <= k < rows.len() && #[trigger] tells_of_likes(rows[k], spaces, e) implies page.contains(
        e,
    ) by {
        let row = rows[k];
        let line = like_line(row);
        assert(line.entry == Some(e));
        counting_keeps(rows, spaces, Reason::Like, row);
        assert(rows.contains(row));
        let list = counted(rows, spaces, Reason::Like);
        let j = choose|j: int| 0 <= j < list.len() && list[j] == row;
        assert(likes[j] == line);
        on_the_page(rows, events, spaces, limit, line);
    }
    assert forall|k: int, e: EntryView|
        0 <= k < events.len() && #[trigger] tells_of_event(
            events[k],
            spaces,
            e,
        ) implies page.contains(e) by {
        let event = events[k];
        let line = event_line(event);
        assert(line.entry == Some(e));
        events_keep(events, spaces, event);
        assert(events.contains(event));
        let list = events_in(events, spaces);
        let j = choose|j: int| 0 <= j < list.len() && list[j] == event;
        assert(elsewhere[j] == line);
        on_the_page(rows, events, spaces, limit, line);
    }
    assert forall|k: int, topic_id: i64, unread: bool|
        0 <= k < rows.len() && #[trigger] answers(
            rows[k],
            spaces,
            topic_id,
            unread,
        ) implies exists|e: EntryView|
        {
            &&& #[trigger] page.contains(e)
            &&& tells_of_answers(rows, spaces, e)
            &&& e->Replies_topic_id == topic_id
            &&& e->Replies_unread == unread
        } by {
        let heard = counted(rows, spaces, Reason::Reply);
        keys_are_of_answers(rows, spaces, (topic_id, unread));
        a_line_of_answers(rows, spaces, topic_id, unread);
        let line = bundle_line(bundled(heard, topic_id, unread), unread);
        let keys = bundle_keys(heard);
        let j = choose|j: int| 0 <= j < keys.len() && keys[j] == (topic_id, unread);
        assert(replies[j] == line);
        on_the_page(rows, events, spaces, limit, line);
        assert(page.contains(line.entry->0));
    }
}

proof fn on_the_page(
    rows: Seq<RowView>,
    events: Seq<StoredView>,
    spaces: Seq<Seq<char>>,
    limit: i64,
    line: LineView,
)
    requires
        rows.len() + events.len() <= limit,
        limit <= 200,
        line.entry is Some,
        ({
            let (replies, mentions, likes, elsewhere) = lines_for(rows, events, spaces);
            replies.contains(line) || mentions.contains(line) || likes.contains(line)
                || elsewhere.contains(line)
        }),
    ensures
        page_entries(rows, events, spaces, limit).contains(line.entry->0),
{
    let (replies, mentions, likes, elsewhere) = lines_for(rows, events, spaces);
    let lines = page_lines(rows, events, spaces, limit);
    four_lists_are_short(rows, events, spaces);
    if limit < 1 {
        assert(replies.len() == 0 && mentions.len() == 0 && likes.len() == 0 && elsewhere.len()
            == 0);
    }
    the_page_holds(rows, events, spaces, limit, line);
    let k = choose|k: int| 0 <= k < lines.len() && lines[k] == line;
    assert(page_entries(rows, events, spaces, limit)[k] == line.entry->0);
}

/// How many rows in sight are new, for this reason.
pub open spec fn new_among(rows: Seq<RowView>, spaces: Seq<Seq<char>>, reason: Reason) -> int
    decreases rows.len(),
{
    if rows.len() == 0 {
        0
    } else {
        new_among(rows.drop_last(), spaces, reason) + if rows.last().reason == reason && in_sight(
            rows.last(),
            spaces,
        ) && rows.last().unread {
            1int
        } else {
            0int
        }
    }
}

/// How many of these events are new.
pub open spec fn new_events(events: Seq<StoredView>, spaces: Seq<Seq<char>>) -> int
    decreases events.len(),
{
    if events.len() == 0 {
        0
    } else {
        new_events(events.drop_last(), spaces) + if spaces.contains(events.last().space)
            && events.last().unread {
            1int
        } else {
            0int
        }
    }
}

proof fn new_rows_counted(rows: Seq<RowView>, spaces: Seq<Seq<char>>)
    ensures
        unread_in(
            counted(rows, spaces, Reason::Mention).map_values(|row: RowView| mention_line(row)),
        ) == new_among(rows, spaces, Reason::Mention),
        unread_in(counted(rows, spaces, Reason::Like).map_values(|row: RowView| like_line(row)))
            == new_among(rows, spaces, Reason::Like),
    decreases rows.len(),
{
    let a = counted(rows, spaces, Reason::Mention).map_values(|row: RowView| mention_line(row));
    let b = counted(rows, spaces, Reason::Like).map_values(|row: RowView| like_line(row));
    if rows.len() > 0 {
        let front = rows.drop_last();
        let last = rows.last();
        new_rows_counted(front, spaces);
        let c = counted(front, spaces, Reason::Mention).map_values(
            |row: RowView| mention_line(row),
        );
        let d = counted(front, spaces, Reason::Like).map_values(|row: RowView| like_line(row));
        if last.reason == Reason::Mention && in_sight(last, spaces) {
            assert(a =~= c.push(mention_line(last)));
            assert(a.drop_last() =~= c);
        } else {
            assert(a =~= c);
        }
        if last.reason == Reason::Like && in_sight(last, spaces) {
            assert(b =~= d.push(like_line(last)));
            assert(b.drop_last() =~= d);
        } else {
            assert(b =~= d);
        }
    } else {
        assert(a =~= Seq::<LineView>::empty());
        assert(b =~= Seq::<LineView>::empty());
    }
}

proof fn new_events_counted(events: Seq<StoredView>, spaces: Seq<Seq<char>>)
    ensures
        unread_in(events_in(events, spaces).map_values(|event: StoredView| event_line(event)))
            == new_events(events, spaces),
    decreases events.len(),
{
    let a = events_in(events, spaces).map_values(|event: StoredView| event_line(event));
    if events.len() > 0 {
        let front = events.drop_last();
        let last = events.last();
        new_events_counted(front, spaces);
        let c = events_in(front, spaces).map_values(|event: StoredView| event_line(event));
        if spaces.contains(last.space) {
            assert(a =~= c.push(event_line(last)));
            assert(a.drop_last() =~= c);
        } else {
            assert(a =~= c);
        }
    } else {
        assert(a =~= Seq::<LineView>::empty());
    }
}

/// The topics among these keys that have something new.
spec fn new_topics(keys: Seq<(i64, bool)>) -> Seq<i64>
    decreases keys.len(),
{
    if keys.len() == 0 {
        Seq::empty()
    } else if keys.last().1 {
        new_topics(keys.drop_last()).push(keys.last().0)
    } else {
        new_topics(keys.drop_last())
    }
}

proof fn new_topics_are(keys: Seq<(i64, bool)>, topic: i64)
    requires
        keys.no_duplicates(),
    ensures
        new_topics(keys).contains(topic) <==> keys.contains((topic, true)),
        new_topics(keys).no_duplicates(),
    decreases keys.len(),
{
    if keys.len() > 0 {
        let front = keys.drop_last();
        let last = keys.last();
        assert forall|i: int, j: int| 0 <= i < front.len() && 0 <= j < front.len() && i
            != j implies front[i] != front[j] by {
            assert(front[i] == keys[i] && front[j] == keys[j]);
        }
        new_topics_are(front, topic);
        new_topics_are(front, last.0);
        let before = new_topics(front);
        let all = new_topics(keys);
        assert(keys[keys.len() - 1] == last);
        if front.contains((topic, true)) {
            let k = choose|k: int| 0 <= k < front.len() && front[k] == (topic, true);
            assert(keys[k] == (topic, true));
        }
        if keys.contains((topic, true)) && !front.contains((topic, true)) {
            let k = choose|k: int| 0 <= k < keys.len() && keys[k] == (topic, true);
            if k < front.len() {
                assert(front[k] == (topic, true));
            }
        }
        if before.contains(topic) {
            let k = choose|k: int| 0 <= k < before.len() && before[k] == topic;
            assert(all[k] == topic);
        }
        if all.contains(topic) && !before.contains(topic) {
            let k = choose|k: int| 0 <= k < all.len() && all[k] == topic;
            if k < before.len() {
                assert(before[k] == topic);
            }
        }
        if last.1 {
            assert(all[before.len() as int] == last.0);
            if before.contains(last.0) {
                let k = choose|k: int| 0 <= k < front.len() && front[k] == (last.0, true);
                assert(keys[k] == keys[keys.len() - 1]);
            }
            assert forall|i: int, j: int| 0 <= i < all.len() && 0 <= j < all.len() && i
                != j implies all[i] != all[j] by {
                if i < before.len() && j < before.len() {
                    assert(all[i] == before[i] && all[j] == before[j]);
                } else if i < before.len() {
                    assert(before.contains(before[i]));
                } else {
                    assert(before.contains(before[j]));
                }
            }
        }
    }
}

proof fn new_bundles_counted(replies: Seq<RowView>, keys: Seq<(i64, bool)>)
    ensures
        unread_in(
            Seq::new(
                keys.len(),
                |i: int| bundle_line(bundled(replies, keys[i].0, keys[i].1), keys[i].1),
            ),
        ) == new_topics(keys).len(),
    decreases keys.len(),
{
    let all = Seq::new(
        keys.len(),
        |i: int| bundle_line(bundled(replies, keys[i].0, keys[i].1), keys[i].1),
    );
    if keys.len() > 0 {
        let front = keys.drop_last();
        new_bundles_counted(replies, front);
        let before = Seq::new(
            front.len(),
            |i: int| bundle_line(bundled(replies, front[i].0, front[i].1), front[i].1),
        );
        assert(all.drop_last() =~= before);
        assert(all.last().unread == keys.last().1);
    }
}

/// THE NUMBER ON THE BELL is the number of topics with new answers, each counted
/// once, and of new mentions, of posts with new likes and of new events, as far
/// as they are in sight.
pub proof fn the_bell_counts_what_is_new(
    rows: Seq<RowView>,
    events: Seq<StoredView>,
    spaces: Seq<Seq<char>>,
) -> (topics: Seq<i64>)
    ensures
        topics.no_duplicates(),
        forall|topic: i64| #[trigger]
            topics.contains(topic) <==> exists|k: int|
                0 <= k < rows.len() && answers(#[trigger] rows[k], spaces, topic, true),
        unread_total(rows, events, spaces) == topics.len() + new_among(
            rows,
            spaces,
            Reason::Mention,
        ) + new_among(rows, spaces, Reason::Like) + new_events(events, spaces),
{
    let replies = counted(rows, spaces, Reason::Reply);
    let keys = bundle_keys(replies);
    let topics = new_topics(keys);
    keys_are_of_answers(rows, spaces, (0, true));
    assert forall|topic: i64| #[trigger] topics.contains(topic) <==> exists|k: int|
        0 <= k < rows.len() && answers(#[trigger] rows[k], spaces, topic, true) by {
        keys_are_of_answers(rows, spaces, (topic, true));
        new_topics_are(keys, topic);
    }
    new_topics_are(keys, 0);
    new_bundles_counted(replies, keys);
    assert(reply_lines(replies) =~= Seq::new(
        keys.len(),
        |i: int| bundle_line(bundled(replies, keys[i].0, keys[i].1), keys[i].1),
    ));
    new_rows_counted(rows, spaces);
    new_events_counted(events, spaces);
    let (a, b, c, d) = lines_for(rows, events, spaces);
    assert(b =~= counted(rows, spaces, Reason::Mention).map_values(
        |row: RowView| mention_line(row),
    ));
    assert(c =~= counted(rows, spaces, Reason::Like).map_values(|row: RowView| like_line(row)));
    assert(d =~= events_in(events, spaces).map_values(|event: StoredView| event_line(event)));
    topics
}

} // verus!
