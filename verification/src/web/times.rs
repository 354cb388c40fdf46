//! Which moments a page shows. The zone is asked about these before the page
//! is made, and a page made with the answers shows every moment on it as the
//! zone does.
use crate::authz::IdentityView;
use crate::clock::{asked, known, offset_in, what_was_asked_is_known};
use crate::config::{CategoryView, SpaceView};
use crate::db::inbox::{entries_view, Entry, EntryView};
use crate::db::search::{hits_view, Hit, HitView};
use crate::db::topics::Post;
use crate::i18n::Lang;
use crate::web::views::{
    answer_of, category_index_view, category_row_view, category_rows_view, delete_question_view,
    hit_lines_view, hit_view, inbox_line_view, inbox_lines_view, notifications_view, post_view,
    posts_view, search_view, space_view, thread_row_view, thread_rows_view, threads_view,
    timeline_entry_view, timeline_view, topic_page_view, topics_view, Bell, CategoryRow, TopicRow,
    TopicView,
};
use jiff::tz::TimeZone;
use vstd::prelude::*;

verus! {

/// The moments in a row of a topic list: when the topic was opened, and when it
/// was answered last.
pub open spec fn row_times(row: TopicRow) -> Seq<i64> {
    match answer_of(row) {
        Some(last) => seq![row.topic.created_at, last.created_at],
        None => seq![row.topic.created_at],
    }
}

/// The moments in a topic list.
pub open spec fn topic_times(rows: Seq<TopicRow>) -> Seq<i64>
    decreases rows.len(),
{
    if rows.len() == 0 {
        Seq::empty()
    } else {
        topic_times(rows.drop_last()) + row_times(rows.last())
    }
}

/// The moments in the list of categories: when something last happened in each.
pub open spec fn activity_times(rows: Seq<CategoryRow>) -> Seq<i64>
    decreases rows.len(),
{
    if rows.len() == 0 {
        Seq::empty()
    } else {
        match rows.last().count.last_activity {
            Some(at) => activity_times(rows.drop_last()).push(at),
            None => activity_times(rows.drop_last()),
        }
    }
}

/// The moments on the front page of a space with more than one category.
pub open spec fn index_times(rows: Seq<CategoryRow>, recent: Seq<TopicRow>) -> Seq<i64> {
    topic_times(recent) + activity_times(rows)
}

/// The moments in what a search found.
pub open spec fn hit_times(hits: Seq<HitView>) -> Seq<i64> {
    Seq::new(hits.len(), |i: int| hits[i].updated_at)
}

/// The moments at which posts were written.
pub open spec fn post_times(posts: Seq<Post>) -> Seq<i64> {
    Seq::new(posts.len(), |i: int| posts[i].created_at)
}

/// The moments on the notifications page.
pub open spec fn entry_times(entries: Seq<EntryView>) -> Seq<i64> {
    Seq::new(entries.len(), |i: int| entries[i].moment())
}

/// The moments in a topic list, and so on the page of a space.
pub fn times_of_topics(rows: &[TopicRow]) -> (r: Vec<i64>)
    ensures
        r@ == topic_times(rows@),
{
    let mut out: Vec<i64> = Vec::new();
    let mut i: usize = 0;
    while i < rows.len()
        invariant
            i <= rows@.len(),
            out@ == topic_times(rows@.take(i as int)),
        decreases rows@.len() - i,
    {
        assert(rows@.take(i + 1).drop_last() == rows@.take(i as int));
        let ghost before = out@;
        out.push(rows[i].topic.created_at);
        match &rows[i].last {
            Some(last) => if !last.opens_the_topic {
                out.push(last.created_at);
            },
            None => {},
        }
        assert(out@ =~= before + row_times(rows@[i as int]));
        i += 1;
    }
    assert(rows@.take(i as int) == rows@);
    out
}

/// The moments on the front page of a space with more than one category.
pub fn times_of_index(rows: &[CategoryRow], recent: &[TopicRow]) -> (r: Vec<i64>)
    ensures
        r@ == index_times(rows@, recent@),
{
    let mut out = times_of_topics(recent);
    let mut i: usize = 0;
    assert(out@ =~= topic_times(recent@) + activity_times(rows@.take(0)));
    while i < rows.len()
        invariant
            i <= rows@.len(),
            out@ == topic_times(recent@) + activity_times(rows@.take(i as int)),
        decreases rows@.len() - i,
    {
        assert(rows@.take(i + 1).drop_last() == rows@.take(i as int));
        match rows[i].count.last_activity {
            Some(at) => out.push(at),
            None => {},
        }
        assert(out@ =~= topic_times(recent@) + activity_times(rows@.take(i + 1)));
        i += 1;
    }
    assert(rows@.take(i as int) == rows@);
    out
}

/// The moments in what a search found.
pub fn times_of_hits(hits: &[Hit]) -> (r: Vec<i64>)
    ensures
        r@ == hit_times(hits_view(hits@)),
{
    let mut out: Vec<i64> = Vec::new();
    let mut i: usize = 0;
    while i < hits.len()
        invariant
            i <= hits@.len(),
            out@.len() == i,
            forall|k: int| 0 <= k < i ==> #[trigger] out@[k] == hits@[k].updated_at,
        decreases hits@.len() - i,
    {
        out.push(hits[i].updated_at);
        i += 1;
    }
    assert(out@ =~= hit_times(hits_view(hits@)));
    out
}

/// The moments at which posts were written: those of a topic, or the one that
/// is asked about before it goes.
pub fn times_of_posts(posts: &[Post]) -> (r: Vec<i64>)
    ensures
        r@ == post_times(posts@),
{
    let mut out: Vec<i64> = Vec::new();
    let mut i: usize = 0;
    while i < posts.len()
        invariant
            i <= posts@.len(),
            out@.len() == i,
            forall|k: int| 0 <= k < i ==> #[trigger] out@[k] == posts@[k].created_at,
        decreases posts@.len() - i,
    {
        out.push(posts[i].created_at);
        i += 1;
    }
    assert(out@ =~= post_times(posts@));
    out
}

/// The moments on the notifications page.
pub fn times_of_entries(entries: &[Entry]) -> (r: Vec<i64>)
    ensures
        r@ == entry_times(entries_view(entries@)),
{
    let mut out: Vec<i64> = Vec::new();
    let mut i: usize = 0;
    while i < entries.len()
        invariant
            i <= entries@.len(),
            out@.len() == i,
            forall|k: int| 0 <= k < i ==> #[trigger] out@[k] == entries@[k]@.moment(),
        decreases entries@.len() - i,
    {
        out.push(entries[i].at());
        i += 1;
    }
    assert(out@ =~= entry_times(entries_view(entries@)));
    out
}

/// Do the two say the same of these moments?
spec fn agree(
    ours: Seq<(i64, Option<i32>)>,
    others: Seq<(i64, Option<i32>)>,
    times: Seq<i64>,
) -> bool {
    forall|i: int|
        0 <= i < times.len() ==> offset_in(ours, #[trigger] times[i]) == offset_in(
            others,
            times[i],
        )
}

proof fn what_was_asked_agrees(
    zone: TimeZone,
    ours: Seq<(i64, Option<i32>)>,
    others: Seq<(i64, Option<i32>)>,
    times: Seq<i64>,
)
    requires
        asked(zone, ours, times),
        known(zone, others, times),
    ensures
        agree(ours, others, times),
{
    what_was_asked_is_known(zone, ours, times);
}

proof fn agreeing_on_both(
    ours: Seq<(i64, Option<i32>)>,
    others: Seq<(i64, Option<i32>)>,
    first: Seq<i64>,
    second: Seq<i64>,
)
    requires
        agree(ours, others, first + second),
    ensures
        agree(ours, others, first),
        agree(ours, others, second),
{
    let both = first + second;
    assert forall|i: int| 0 <= i < first.len() implies offset_in(ours, #[trigger] first[i])
        == offset_in(others, first[i]) by {
        assert(both[i] == first[i]);
    }
    assert forall|i: int| 0 <= i < second.len() implies offset_in(ours, #[trigger] second[i])
        == offset_in(others, second[i]) by {
        assert(both[first.len() + i] == second[i]);
    }
}

proof fn agreeing_on_a_row(
    ours: Seq<(i64, Option<i32>)>,
    others: Seq<(i64, Option<i32>)>,
    rows: Seq<TopicRow>,
    i: int,
)
    requires
        agree(ours, others, topic_times(rows)),
        0 <= i < rows.len(),
    ensures
        agree(ours, others, row_times(rows[i])),
    decreases rows.len(),
{
    agreeing_on_both(ours, others, topic_times(rows.drop_last()), row_times(rows.last()));
    if i < rows.len() - 1 {
        agreeing_on_a_row(ours, others, rows.drop_last(), i);
    }
}

proof fn agreeing_on_an_activity(
    ours: Seq<(i64, Option<i32>)>,
    others: Seq<(i64, Option<i32>)>,
    rows: Seq<CategoryRow>,
    i: int,
)
    requires
        agree(ours, others, activity_times(rows)),
        0 <= i < rows.len(),
    ensures
        rows[i].count.last_activity is Some ==> offset_in(ours, rows[i].count.last_activity->0)
            == offset_in(others, rows[i].count.last_activity->0),
    decreases rows.len(),
{
    let before = activity_times(rows.drop_last());
    let all = activity_times(rows);
    match rows.last().count.last_activity {
        Some(at) => {
            assert(all == before + seq![at]);
            agreeing_on_both(ours, others, before, seq![at]);
            assert(seq![at][0] == at);
        },
        None => {},
    }
    if i < rows.len() - 1 {
        agreeing_on_an_activity(ours, others, rows.drop_last(), i);
    }
}

proof fn rows_look_the_same(
    space: SpaceView,
    lang: Lang,
    rows: Seq<TopicRow>,
    with_section: bool,
    ours: Seq<(i64, Option<i32>)>,
    others: Seq<(i64, Option<i32>)>,
)
    requires
        agree(ours, others, topic_times(rows)),
    ensures
        threads_view(space, lang, rows, with_section, ours) == threads_view(
            space,
            lang,
            rows,
            with_section,
            others,
        ),
{
    assert forall|i: int| 0 <= i < rows.len() implies #[trigger] thread_row_view(
        space,
        lang,
        rows[i],
        with_section,
        ours,
    ) == thread_row_view(space, lang, rows[i], with_section, others) by {
        agreeing_on_a_row(ours, others, rows, i);
        assert(row_times(rows[i])[0] == rows[i].topic.created_at);
        if answer_of(rows[i]) is Some {
            assert(row_times(rows[i])[1] == answer_of(rows[i])->0.created_at);
        }
    }
    assert(thread_rows_view(space, lang, rows, with_section, ours) =~= thread_rows_view(
        space,
        lang,
        rows,
        with_section,
        others,
    ));
}

/// The page of a space, made with what the zone says of the moments in its
/// topic list, is the page made with any other account of that zone that knows
/// them: every moment on it is shown as the zone does.
pub proof fn a_space_is_shown_in_its_zone(
    space: SpaceView,
    who: IdentityView,
    lang: Lang,
    bell: Bell,
    category: Option<CategoryView>,
    topics: Seq<TopicRow>,
    zone: TimeZone,
    ours: Seq<(i64, Option<i32>)>,
    others: Seq<(i64, Option<i32>)>,
)
    requires
        asked(zone, ours, topic_times(topics)),
        known(zone, others, topic_times(topics)),
    ensures
        known(zone, ours, topic_times(topics)),
        space_view(space, who, lang, bell, category, topics, ours) == space_view(
            space,
            who,
            lang,
            bell,
            category,
            topics,
            others,
        ),
{
    what_was_asked_is_known(zone, ours, topic_times(topics));
    what_was_asked_agrees(zone, ours, others, topic_times(topics));
    rows_look_the_same(space, lang, topics, false, ours, others);
    assert forall|i: int| 0 <= i < topics.len() implies #[trigger] timeline_entry_view(
        who,
        lang,
        topics[i],
        ours,
    ) == timeline_entry_view(who, lang, topics[i], others) by {
        agreeing_on_a_row(ours, others, topics, i);
        assert(row_times(topics[i])[0] == topics[i].topic.created_at);
    }
    assert(timeline_view(who, lang, topics, ours) =~= timeline_view(who, lang, topics, others));
    assert(topics_view(space, who, lang, category, topics, ours) == topics_view(
        space,
        who,
        lang,
        category,
        topics,
        others,
    ));
}

/// The front page of a space, made with what the zone says of the moments on
/// it, shows every one of them as the zone does.
pub proof fn an_index_is_shown_in_its_zone(
    space: SpaceView,
    who: IdentityView,
    lang: Lang,
    bell: Bell,
    rows: Seq<CategoryRow>,
    recent: Seq<TopicRow>,
    zone: TimeZone,
    ours: Seq<(i64, Option<i32>)>,
    others: Seq<(i64, Option<i32>)>,
)
    requires
        asked(zone, ours, index_times(rows, recent)),
        known(zone, others, index_times(rows, recent)),
    ensures
        known(zone, ours, index_times(rows, recent)),
        category_index_view(space, who, lang, bell, rows, recent, ours) == category_index_view(
            space,
            who,
            lang,
            bell,
            rows,
            recent,
            others,
        ),
{
    what_was_asked_is_known(zone, ours, index_times(rows, recent));
    what_was_asked_agrees(zone, ours, others, index_times(rows, recent));
    agreeing_on_both(ours, others, topic_times(recent), activity_times(rows));
    rows_look_the_same(space, lang, recent, true, ours, others);
    assert forall|i: int| 0 <= i < rows.len() implies #[trigger] category_row_view(
        lang,
        rows[i].category@,
        rows[i].count,
        ours,
    ) == category_row_view(lang, rows[i].category@, rows[i].count, others) by {
        agreeing_on_an_activity(ours, others, rows, i);
    }
    assert(category_rows_view(lang, rows, ours) =~= category_rows_view(lang, rows, others));
}

/// What a search found, made with what the zone says of the moments in it,
/// shows every one of them as the zone does.
pub proof fn a_search_is_shown_in_its_zone(
    space: SpaceView,
    who: IdentityView,
    lang: Lang,
    bell: Bell,
    find: Seq<char>,
    hits: Seq<HitView>,
    zone: TimeZone,
    ours: Seq<(i64, Option<i32>)>,
    others: Seq<(i64, Option<i32>)>,
)
    requires
        asked(zone, ours, hit_times(hits)),
        known(zone, others, hit_times(hits)),
    ensures
        known(zone, ours, hit_times(hits)),
        search_view(space, who, lang, bell, find, hits, ours) == search_view(
            space,
            who,
            lang,
            bell,
            find,
            hits,
            others,
        ),
{
    what_was_asked_is_known(zone, ours, hit_times(hits));
    what_was_asked_agrees(zone, ours, others, hit_times(hits));
    assert forall|i: int| 0 <= i < hits.len() implies #[trigger] hit_view(hits[i], ours)
        == hit_view(hits[i], others) by {
        assert(hit_times(hits)[i] == hits[i].updated_at);
    }
    assert(hit_lines_view(hits, ours) =~= hit_lines_view(hits, others));
}

/// The question before a post goes, made with what the zone says of the moment
/// it was written, shows that moment as the zone does.
pub proof fn a_question_is_shown_in_its_zone(
    space: SpaceView,
    who: IdentityView,
    lang: Lang,
    bell: Bell,
    post: Post,
    zone: TimeZone,
    ours: Seq<(i64, Option<i32>)>,
    others: Seq<(i64, Option<i32>)>,
)
    requires
        asked(zone, ours, post_times(seq![post])),
        known(zone, others, post_times(seq![post])),
    ensures
        known(zone, ours, post_times(seq![post])),
        delete_question_view(space, who, lang, bell, post, ours) == delete_question_view(
            space,
            who,
            lang,
            bell,
            post,
            others,
        ),
{
    what_was_asked_is_known(zone, ours, post_times(seq![post]));
    what_was_asked_agrees(zone, ours, others, post_times(seq![post]));
    assert(post_times(seq![post])[0] == post.created_at);
}

/// A topic, made with what the zone says of the moments its posts were written,
/// shows every one of them as the zone does.
pub proof fn a_topic_is_shown_in_its_zone(
    space: SpaceView,
    who: IdentityView,
    lang: Lang,
    bell: Bell,
    view: TopicView,
    zone: TimeZone,
    ours: Seq<(i64, Option<i32>)>,
    others: Seq<(i64, Option<i32>)>,
)
    requires
        asked(zone, ours, post_times(view.posts@)),
        known(zone, others, post_times(view.posts@)),
    ensures
        known(zone, ours, post_times(view.posts@)),
        topic_page_view(space, who, lang, bell, view, ours) == topic_page_view(
            space,
            who,
            lang,
            bell,
            view,
            others,
        ),
{
    what_was_asked_is_known(zone, ours, post_times(view.posts@));
    what_was_asked_agrees(zone, ours, others, post_times(view.posts@));
    assert forall|i: int| 0 <= i < view.posts@.len() implies #[trigger] post_view(
        who,
        lang,
        view,
        i,
        ours,
    ) == post_view(who, lang, view, i, others) by {
        assert(post_times(view.posts@)[i] == view.posts@[i].created_at);
    }
    assert(posts_view(who, lang, view, ours) =~= posts_view(who, lang, view, others));
}

/// The notifications page, made with what the zone says of the moments of its
/// entries, shows every one of them as the zone does.
pub proof fn notifications_are_shown_in_their_zone(
    space: SpaceView,
    who: IdentityView,
    lang: Lang,
    bell: Bell,
    entries: Seq<EntryView>,
    mention_mail: bool,
    zone: TimeZone,
    ours: Seq<(i64, Option<i32>)>,
    others: Seq<(i64, Option<i32>)>,
)
    requires
        asked(zone, ours, entry_times(entries)),
        known(zone, others, entry_times(entries)),
    ensures
        known(zone, ours, entry_times(entries)),
        notifications_view(space, who, lang, bell, entries, mention_mail, ours)
            == notifications_view(space, who, lang, bell, entries, mention_mail, others),
{
    what_was_asked_is_known(zone, ours, entry_times(entries));
    what_was_asked_agrees(zone, ours, others, entry_times(entries));
    assert forall|i: int| 0 <= i < entries.len() implies #[trigger] inbox_line_view(
        entries[i],
        space.host,
        lang,
        ours,
    ) == inbox_line_view(entries[i], space.host, lang, others) by {
        assert(entry_times(entries)[i] == entries[i].moment());
    }
    assert(inbox_lines_view(entries, space.host, lang, ours) =~= inbox_lines_view(
        entries,
        space.host,
        lang,
        others,
    ));
}

} // verus!
