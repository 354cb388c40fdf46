//! Finding something again.
//!
//! **A search is scoped to one space and to the categories that person may
//! read.** That is a security property and not a convenience: a hit list that
//! shows a title from the other audience is a leak, and it is the kind that
//! looks like a feature until somebody notices.
use crate::authz::listed;
use crate::markup::alphanumeric;
use crate::order::{arrange, arranged, arranging_orders, arranging_views, is_order};
use crate::text::{chars, is_white, same, texts, white};
use vstd::prelude::*;

verus! {

#[derive(Debug, Clone)]
pub struct Hit {
    pub topic_id: i64,
    pub title: String,
    pub category: String,
    /// The matching text with the match marked, by the index's own `snippet`.
    /// Marked with `[` and `]` rather than with markup: what comes back is
    /// somebody else's prose, and it goes through the same escaping as
    /// everything else on its way into a page.
    pub snippet: String,
    pub updated_at: i64,
}

pub struct HitView {
    pub topic_id: i64,
    pub title: Seq<char>,
    pub category: Seq<char>,
    pub snippet: Seq<char>,
    pub updated_at: i64,
}

impl View for Hit {
    type V = HitView;

    open spec fn view(&self) -> HitView {
        HitView {
            topic_id: self.topic_id,
            title: self.title@,
            category: self.category@,
            snippet: self.snippet@,
            updated_at: self.updated_at,
        }
    }
}

pub open spec fn hits_view(hits: Seq<Hit>) -> Seq<HitView> {
    hits.map_values(|hit: Hit| hit@)
}

/// How many characters there are before the first space.
pub open spec fn word_length(s: Seq<char>) -> int
    decreases s.len(),
{
    if s.len() == 0 || white(s[0]) {
        0
    } else {
        1 + word_length(s.skip(1))
    }
}

/// What stands between the spaces.
pub open spec fn words_of(s: Seq<char>) -> Seq<Seq<char>>
    decreases s.len(),
{
    if s.len() == 0 {
        Seq::empty()
    } else {
        let n = word_length(s);
        if n <= 0 || n > s.len() {
            words_of(s.skip(1))
        } else {
            seq![s.take(n)] + words_of(s.skip(n))
        }
    }
}

proof fn word_length_bounds(s: Seq<char>)
    ensures
        0 <= word_length(s) <= s.len(),
        forall|i: int| 0 <= i < word_length(s) ==> !white(#[trigger] s[i]),
        word_length(s) < s.len() ==> white(s[word_length(s)]),
    decreases s.len(),
{
    if s.len() > 0 && !white(s[0]) {
        let rest = s.skip(1);
        word_length_bounds(rest);
        assert forall|i: int| 0 <= i < word_length(s) implies !white(#[trigger] s[i]) by {
            if i > 0 {
                assert(s[i] == rest[i - 1]);
            }
        }
    }
}

proof fn word_length_is(s: Seq<char>, n: int)
    requires
        0 <= n <= s.len(),
        forall|i: int| 0 <= i < n ==> !white(#[trigger] s[i]),
        n < s.len() ==> white(s[n]),
    ensures
        word_length(s) == n,
    decreases s.len(),
{
    if n > 0 {
        let rest = s.skip(1);
        assert(!white(s[0]));
        assert forall|i: int| 0 <= i < n - 1 implies !white(#[trigger] rest[i]) by {
            assert(rest[i] == s[i + 1]);
        }
        word_length_is(rest, n - 1);
    }
}

/// A character that may stand at the edge of a word.
pub open spec fn word_edge(c: char) -> bool {
    alphanumeric(c) || c == '-'
}

/// A word without what is around it.
pub open spec fn core_of(s: Seq<char>) -> Seq<char>
    decreases s.len(),
{
    if s.len() == 0 {
        s
    } else if !word_edge(s[0]) {
        core_of(s.skip(1))
    } else if !word_edge(s.last()) {
        core_of(s.drop_last())
    } else {
        s
    }
}

/// The text without its quotes.
pub open spec fn unquoted(s: Seq<char>) -> Seq<char>
    decreases s.len(),
{
    if s.len() == 0 {
        s
    } else if s.last() == '"' {
        unquoted(s.drop_last())
    } else {
        unquoted(s.drop_last()).push(s.last())
    }
}

/// What of each word is searched for. Nothing is searched for a word of
/// nothing but punctuation.
pub open spec fn terms_of(words: Seq<Seq<char>>) -> Seq<Seq<char>>
    decreases words.len(),
{
    if words.len() == 0 {
        Seq::empty()
    } else {
        let before = terms_of(words.drop_last());
        let core = core_of(words.last());
        if core.len() == 0 {
            before
        } else {
            before.push(unquoted(core))
        }
    }
}

/// The terms, each in quotes, all of them asked for.
pub open spec fn query_of(terms: Seq<Seq<char>>) -> Seq<char>
    decreases terms.len(),
{
    if terms.len() == 0 {
        Seq::empty()
    } else {
        let quoted = "\""@ + terms.last() + "\""@;
        if terms.len() == 1 {
            quoted
        } else {
            query_of(terms.drop_last()) + " AND "@ + quoted
        }
    }
}

fn term(word: &[char]) -> (r: Option<String>)
    ensures
        r is Some == (core_of(word@).len() > 0),
        r is Some ==> r->0@ == unquoted(core_of(word@)),
{
    let mut from: usize = 0;
    assert(word@.subrange(0, word@.len() as int) == word@);
    while from < word.len() && !(word[from].is_alphanumeric() || word[from] == '-')
        invariant
            from <= word@.len(),
            core_of(word@) == core_of(word@.subrange(from as int, word@.len() as int)),
        decreases word@.len() - from,
    {
        assert(word@.subrange(from as int, word@.len() as int).skip(1) == word@.subrange(
            from + 1,
            word@.len() as int,
        ));
        from += 1;
    }
    if from == word.len() {
        return None;
    }
    let mut to: usize = word.len();
    while !(word[to - 1].is_alphanumeric() || word[to - 1] == '-')
        invariant
            from < to <= word@.len(),
            word_edge(word@[from as int]),
            core_of(word@) == core_of(word@.subrange(from as int, to as int)),
        decreases to,
    {
        assert(word@.subrange(from as int, to as int).drop_last() == word@.subrange(
            from as int,
            to - 1,
        ));
        assert(word@.subrange(from as int, to as int).last() == word@[to - 1]);
        to -= 1;
    }
    let ghost core = word@.subrange(from as int, to as int);
    assert(core.last() == word@[to - 1]);
    let mut out = String::new();
    let mut i: usize = from;
    assert(core.take(0).len() == 0);
    while i < to
        invariant
            from <= i <= to <= word@.len(),
            core == word@.subrange(from as int, to as int),
            out@ == unquoted(core.take(i - from)),
        decreases to - i,
    {
        assert(core.take(i + 1 - from).drop_last() == core.take(i - from));
        assert(core.take(i + 1 - from).last() == word@[i as int]);
        if word[i] != '"' {
            out.push(word[i]);
        }
        i += 1;
    }
    assert(core.take(i - from) == core);
    Some(out)
}

/// The index takes a query language, and a person types words.
///
/// Quoting each word turns `AND OR NEAR("a" "b")` into a search for those
/// words, which is what somebody who typed them meant. Without this a stray
/// quote is a syntax error and a stray `*` is a prefix search nobody asked
/// for; both come back as an error page for a perfectly ordinary question.
pub fn as_fts_query(typed: &str) -> (r: Option<String>)
    ensures
        r is Some == (terms_of(words_of(typed@)).len() > 0),
        r is Some ==> r->0@ == query_of(terms_of(words_of(typed@))),
{
    let text = chars(typed);
    let ghost all = typed@;
    let ghost mut words: Seq<Seq<char>> = Seq::empty();
    let ghost mut terms: Seq<Seq<char>> = Seq::empty();
    let mut query = String::new();
    let mut found = false;
    let mut i: usize = 0;
    assert(all.skip(0) == all);
    assert(words + words_of(all.skip(0)) == words_of(all));
    while i < text.len()
        invariant
            i <= text@.len(),
            text@ == all,
            words + words_of(all.skip(i as int)) == words_of(all),
            terms == terms_of(words),
            query@ == query_of(terms),
            found == (terms.len() > 0),
        decreases text@.len() - i,
    {
        let ghost rest = all.skip(i as int);
        let start = i;
        while i < text.len() && !is_white(text[i])
            invariant
                start <= i <= text@.len(),
                text@ == all,
                rest == all.skip(start as int),
                forall|k: int| 0 <= k < i - start ==> !white(#[trigger] rest[k]),
            decreases text@.len() - i,
        {
            assert(rest[i - start] == text@[i as int]);
            i += 1;
        }
        proof {
            if i < text@.len() {
                assert(rest[i - start] == text@[i as int]);
            }
            word_length_is(rest, i - start);
        }
        if i == start {
            assert(rest.skip(1) == all.skip(i + 1));
            i += 1;
        } else {
            assert(rest.skip(i - start) == all.skip(i as int));
            assert(rest.take(i - start) == all.subrange(start as int, i as int));
            let ghost word = all.subrange(start as int, i as int);
            let ghost before = words;
            proof {
                words = words.push(word);
                assert(before + (seq![word] + words_of(all.skip(i as int))) == words + words_of(
                    all.skip(i as int),
                ));
                assert(words.drop_last() == before);
            }
            match term(&text[start..i]) {
                Some(one) => {
                    let ghost asked = terms;
                    proof {
                        terms = terms.push(one@);
                        assert(terms.drop_last() == asked);
                    }
                    if found {
                        query = query.concat(" AND ");
                    }
                    query = query.concat("\"").concat(&one).concat("\"");
                    assert(query@ == query_of(terms)) by {
                        if asked.len() == 0 {
                            assert(query_of(asked) + "\""@ == "\""@);
                        } else {
                            assert(query_of(asked) + " AND "@ + "\""@ + one@ + "\""@ == query_of(
                                asked,
                            ) + " AND "@ + ("\""@ + one@ + "\""@));
                        }
                    }
                    found = true;
                },
                None => {},
            }
        }
    }
    assert(all.skip(i as int).len() == 0);
    assert(words == words_of(all));
    if found {
        Some(query)
    } else {
        None
    }
}

proof fn no_quote_left(s: Seq<char>)
    ensures
        !unquoted(s).contains('"'),
        unquoted(s).len() <= s.len(),
    decreases s.len(),
{
    if s.len() > 0 {
        no_quote_left(s.drop_last());
        let before = unquoted(s.drop_last());
        if unquoted(s).contains('"') {
            let k = choose|k: int| 0 <= k < unquoted(s).len() && unquoted(s)[k] == '"';
            if k < before.len() {
                assert(before[k] == '"');
            }
        }
    }
}

/// What somebody typed cannot leave the quotes it is put in: no term that is
/// searched for holds one.
pub proof fn a_typed_word_stays_quoted(words: Seq<Seq<char>>, i: int)
    requires
        0 <= i < terms_of(words).len(),
    ensures
        !terms_of(words)[i].contains('"'),
    decreases words.len(),
{
    let before = terms_of(words.drop_last());
    if i < before.len() {
        a_typed_word_stays_quoted(words.drop_last(), i);
    } else {
        no_quote_left(core_of(words.last()));
    }
}

/// As many question marks as there are categories, with commas between them.
pub open spec fn placeholders_for(count: nat) -> Seq<char>
    decreases count,
{
    if count == 0 {
        Seq::empty()
    } else if count == 1 {
        "?"@
    } else {
        placeholders_for((count - 1) as nat) + ",?"@
    }
}

fn placeholders(count: usize) -> (r: String)
    ensures
        r@ == placeholders_for(count as nat),
{
    let mut out = String::new();
    let mut i: usize = 0;
    while i < count
        invariant
            i <= count,
            out@ == placeholders_for(i as nat),
        decreases count - i,
    {
        if i == 0 {
            assert(out@ + "?"@ == "?"@);
            out = out.concat("?");
        } else {
            out = out.concat(",?");
        }
        i += 1;
    }
    out
}

/// What is asked of the index, if anything is: the query, and the marks to
/// bind the categories to.
///
/// `categories` is what the caller worked out from the person's groups. An
/// empty list finds nothing, which is the same rule as everywhere else here:
/// no permission is not a wildcard.
pub fn asked(categories: &[String], typed: &str) -> (r: Option<(String, String)>)
    ensures
        r is Some == (categories@.len() > 0 && terms_of(words_of(typed@)).len() > 0),
        match r {
            Some((query, marks)) => query@ == query_of(terms_of(words_of(typed@))) && marks@
                == placeholders_for(categories@.len()),
            None => true,
        },
{
    if categories.len() == 0 {
        return None;
    }
    match as_fts_query(typed) {
        Some(query) => Some((query, placeholders(categories.len()))),
        None => None,
    }
}

/// One hit for each topic, the one that came first.
pub open spec fn one_each(hits: Seq<HitView>) -> Seq<HitView>
    decreases hits.len(),
{
    if hits.len() == 0 {
        Seq::empty()
    } else {
        let before = one_each(hits.drop_last());
        if has_topic(before, hits.last().topic_id) {
            before
        } else {
            before.push(hits.last())
        }
    }
}

pub open spec fn has_topic(hits: Seq<HitView>, topic_id: i64) -> bool {
    exists|i: int| 0 <= i < hits.len() && (#[trigger] hits[i]).topic_id == topic_id
}

/// Newest first.
pub open spec fn newer(a: HitView, b: HitView) -> bool {
    a.updated_at > b.updated_at
}

/// The newest of these first, at most `limit` of them; a limit below nothing is
/// none.
pub open spec fn newest_of(hits: Seq<HitView>, limit: i64) -> Seq<HitView> {
    let all = arranged(hits, |a: HitView, b: HitView| newer(a, b));
    if 0 <= limit < all.len() {
        all.take(limit as int)
    } else {
        all
    }
}

/// The hits of both searches as one list.
pub open spec fn merged(bodies: Seq<HitView>, titles: Seq<HitView>, limit: i64) -> Seq<HitView> {
    newest_of(one_each(bodies + titles), limit)
}

/// What the index found, with what decides who sees it.
#[derive(Debug)]
pub struct Found {
    pub hit: Hit,
    pub space: String,
    pub hidden: bool,
}

pub struct FoundView {
    pub hit: HitView,
    pub space: Seq<char>,
    pub hidden: bool,
}

impl View for Found {
    type V = FoundView;

    open spec fn view(&self) -> FoundView {
        FoundView { hit: self.hit@, space: self.space@, hidden: self.hidden }
    }
}

pub open spec fn found_view(rows: Seq<Found>) -> Seq<FoundView> {
    Seq::new(rows.len(), |i: int| rows[i]@)
}

/// May it be shown in this space, to somebody who may see these categories?
pub open spec fn in_scope(row: FoundView, space: Seq<char>, categories: Seq<Seq<char>>) -> bool {
    row.space == space && !row.hidden && categories.contains(row.hit.category)
}

/// The hits that may be shown, in order.
pub open spec fn scoped(
    rows: Seq<FoundView>,
    space: Seq<char>,
    categories: Seq<Seq<char>>,
) -> Seq<HitView>
    decreases rows.len(),
{
    if rows.len() == 0 {
        Seq::empty()
    } else {
        let before = scoped(rows.drop_last(), space, categories);
        if in_scope(rows.last(), space, categories) {
            before.push(rows.last().hit)
        } else {
            before
        }
    }
}

/// What a search shows of what the index found in bodies and in titles.
pub open spec fn searched(
    bodies: Seq<FoundView>,
    titles: Seq<FoundView>,
    space: Seq<char>,
    categories: Seq<Seq<char>>,
    limit: i64,
) -> Seq<HitView> {
    merged(
        newest_of(scoped(bodies, space, categories), limit),
        newest_of(scoped(titles, space, categories), limit),
        limit,
    )
}

fn scope(rows: Vec<Found>, space: &str, categories: &[String]) -> (r: Vec<Hit>)
    ensures
        hits_view(r@) == scoped(found_view(rows@), space@, texts(categories@)),
{
    let ghost given = rows@;
    let ghost all = found_view(given);
    let mut rest = rows;
    let mut out: Vec<Hit> = Vec::new();
    assert(hits_view(out@) =~= scoped(all.take(0), space@, texts(categories@)));
    assert(given.skip(0) == given);
    while rest.len() > 0
        invariant
            all == found_view(given),
            rest@.len() <= given.len(),
            rest@ == given.skip(given.len() - rest@.len()),
            hits_view(out@) == scoped(
                all.take(given.len() - rest@.len()),
                space@,
                texts(categories@),
            ),
        decreases rest@.len(),
    {
        let ghost done = given.len() - rest@.len();
        let ghost before = hits_view(out@);
        let row = rest.remove(0);
        assert(row == given[done]);
        assert(rest@ == given.skip(done + 1));
        assert(all.take(done + 1).drop_last() == all.take(done));
        assert(all.take(done + 1).last() == row@);
        if same(&row.space, space) && !row.hidden && listed(categories, &row.hit.category) {
            let ghost one = row.hit@;
            out.push(row.hit);
            assert(hits_view(out@) =~= before.push(one));
        }
    }
    assert(all.take(given.len() as int) == all);
    out
}

fn newest_first(hits: Vec<Hit>, limit: i64) -> (r: Vec<Hit>)
    ensures
        hits_view(r@) == newest_of(hits_view(hits@), limit),
{
    let ghost given = hits@;
    let ghost before = |a: Hit, b: Hit| newer(a@, b@);
    let ghost seen_before = |a: HitView, b: HitView| newer(a, b);
    let newest = |a: &Hit, b: &Hit| -> (r: bool)
        ensures
            r == newer(a@, b@),
        { a.updated_at > b.updated_at };
    let mut sorted = arrange(hits, newest, Ghost(before));
    proof {
        arranging_views(given, |hit: Hit| hit@, before, seen_before);
    }
    let ghost all = hits_view(sorted@);
    if limit >= 0 && (limit as u64) < sorted.len() as u64 {
        sorted.truncate(limit as usize);
        assert(hits_view(sorted@) =~= all.take(limit as int));
    }
    sorted
}

fn collect(out: &mut Vec<Hit>, hits: Vec<Hit>, Ghost(done): Ghost<Seq<HitView>>)
    requires
        hits_view(old(out)@) == one_each(done),
    ensures
        hits_view(final(out)@) == one_each(done + hits_view(hits@)),
{
    let ghost given = hits_view(hits@);
    let ghost start = hits@;
    let mut rest = hits;
    assert(done + given.take(0) == done);
    assert(start.skip(0) == start);
    while rest.len() > 0
        invariant
            given == hits_view(start),
            rest@.len() <= start.len(),
            rest@ == start.skip(start.len() - rest@.len()),
            hits_view(out@) == one_each(done + given.take(start.len() - rest@.len())),
        decreases rest@.len(),
    {
        let ghost n = start.len() - rest@.len();
        let ghost before = hits_view(out@);
        let hit = rest.remove(0);
        assert(hit == start[n]);
        assert(rest@ == start.skip(n + 1));
        let ghost seen = done + given.take(n + 1);
        assert(seen.drop_last() == done + given.take(n));
        assert(seen.last() == hit@);
        let mut known = false;
        let mut i: usize = 0;
        while i < out.len()
            invariant
                i <= out@.len(),
                before == hits_view(out@),
                known == exists|k: int|
                    0 <= k < i && (#[trigger] before[k]).topic_id == hit.topic_id,
            decreases out@.len() - i,
        {
            assert(before[i as int] == out@[i as int]@);
            if out[i].topic_id == hit.topic_id {
                known = true;
            }
            i += 1;
        }
        if !known {
            let ghost one = hit@;
            out.push(hit);
            assert(hits_view(out@) =~= before.push(one));
        }
    }
    assert(given.take(start.len() as int) == given);
}

/// What is shown of what the index found in bodies and in titles.
///
/// **A search is scoped to one space and to the categories that person may
/// read**, and what was withdrawn is not found: a hit list that shows a title
/// from the other audience is a leak.
///
/// The newest come first, and a topic whose title AND body both match is one
/// result, not two. The body's snippet wins because it says more than the
/// title, which is already shown next to it.
pub fn search(
    bodies: Vec<Found>,
    titles: Vec<Found>,
    space: &str,
    categories: &[String],
    limit: i64,
) -> (r: Vec<Hit>)
    ensures
        hits_view(r@) == searched(
            found_view(bodies@),
            found_view(titles@),
            space@,
            texts(categories@),
            limit,
        ),
{
    let bodies = newest_first(scope(bodies, space, categories), limit);
    let titles = newest_first(scope(titles, space, categories), limit);
    let ghost first = hits_view(bodies@);
    let mut hits: Vec<Hit> = Vec::new();
    assert(hits_view(hits@) =~= one_each(Seq::<HitView>::empty()));
    collect(&mut hits, bodies, Ghost(Seq::empty()));
    assert(Seq::<HitView>::empty() + first == first);
    collect(&mut hits, titles, Ghost(first));
    newest_first(hits, limit)
}

proof fn one_each_keeps(hits: Seq<HitView>)
    ensures
        forall|a: int, b: int|
            0 <= a < b < one_each(hits).len() ==> (#[trigger] one_each(hits)[a]).topic_id != (
            #[trigger] one_each(hits)[b]).topic_id,
        forall|a: int| 0 <= a < one_each(hits).len() ==> hits.contains(#[trigger] one_each(hits)[a]),
        forall|a: int|
            0 <= a < hits.len() ==> has_topic(one_each(hits), (#[trigger] hits[a]).topic_id),
    decreases hits.len(),
{
    if hits.len() > 0 {
        let front = hits.drop_last();
        one_each_keeps(front);
        let before = one_each(front);
        let after = one_each(hits);
        assert forall|a: int| 0 <= a < after.len() implies hits.contains(#[trigger] after[a]) by {
            if a < before.len() {
                assert(front.contains(before[a]));
                let k = choose|k: int| 0 <= k < front.len() && front[k] == before[a];
                assert(hits[k] == after[a]);
            } else {
                assert(hits[hits.len() - 1] == after[a]);
            }
        }
        assert forall|a: int| 0 <= a < hits.len() implies has_topic(
            after,
            (#[trigger] hits[a]).topic_id,
        ) by {
            let id = hits[a].topic_id;
            if a < front.len() {
                assert(has_topic(before, front[a].topic_id));
            }
            if has_topic(before, id) {
                let k = choose|k: int| 0 <= k < before.len() && (#[trigger] before[k]).topic_id == id;
                assert(after[k].topic_id == id);
            } else {
                assert(after[before.len() as int].topic_id == id);
            }
        }
        assert forall|a: int, b: int| 0 <= a < b < after.len() implies (
        #[trigger] after[a]).topic_id != (#[trigger] after[b]).topic_id by {
            assert(after[a] == before[a]);
            if b < before.len() {
                assert(after[b] == before[b]);
            }
        }
    }
}

proof fn newer_is_order()
    ensures
        is_order(|a: HitView, b: HitView| newer(a, b)),
{
}

/// Every topic is listed once, the newest first, and nothing is listed that
/// neither search found.
pub proof fn hits_are_newest_first_and_once(
    bodies: Seq<HitView>,
    titles: Seq<HitView>,
    limit: i64,
    a: int,
    b: int,
)
    requires
        0 <= a < b < merged(bodies, titles, limit).len(),
    ensures
        ({
            let hits = merged(bodies, titles, limit);
            &&& hits[a].topic_id != hits[b].topic_id
            &&& hits[a].updated_at >= hits[b].updated_at
            &&& bodies.contains(hits[a]) || titles.contains(hits[a])
            &&& bodies.contains(hits[b]) || titles.contains(hits[b])
        }),
{
    broadcast use vstd::seq_lib::group_to_multiset_ensures;

    let both = bodies + titles;
    let once = one_each(both);
    let before = |a: HitView, b: HitView| newer(a, b);
    let all = arranged(once, before);
    one_each_keeps(both);
    newer_is_order();
    arranging_orders(once, before);
    let hits = merged(bodies, titles, limit);
    assert(hits[a] == all[a] && hits[b] == all[b]);
    assert(!before(all[b], all[a]));
    assert forall|k: int| 0 <= k < all.len() implies once.contains(#[trigger] all[k]) by {
        assert(all.contains(all[k]));
        assert(all.to_multiset().count(all[k]) > 0);
        assert(once.to_multiset().count(all[k]) > 0);
    }
    let i = choose|i: int| 0 <= i < once.len() && once[i] == all[a];
    let j = choose|j: int| 0 <= j < once.len() && once[j] == all[b];
    assert(both.contains(once[i]));
    assert(both.contains(once[j]));
    if i == j {
        // Twice in the arranged list would be twice in the list.
        assert(all[a] == all[b]);
        assert(all.to_multiset().count(all[a]) >= 2) by {
            twice_counts(all, a, b);
        }
        once_counts(once, all[a]);
    } else if i < j {
    } else {
    }
    assert(forall|x: HitView| #[trigger]
        both.contains(x) ==> bodies.contains(x) || titles.contains(x)) by {
        assert forall|x: HitView| #[trigger] both.contains(x) implies bodies.contains(x)
            || titles.contains(x) by {
            let k = choose|k: int| 0 <= k < both.len() && both[k] == x;
            if k < bodies.len() {
                assert(bodies[k] == x);
            } else {
                assert(titles[k - bodies.len()] == x);
            }
        }
    }
}

proof fn twice_counts(list: Seq<HitView>, a: int, b: int)
    requires
        0 <= a < b < list.len(),
        list[a] == list[b],
    ensures
        list.to_multiset().count(list[a]) >= 2,
    decreases list.len(),
{
    broadcast use vstd::seq_lib::group_to_multiset_ensures;

    let front = list.drop_last();
    assert(list == front.push(list.last()));
    if b == list.len() - 1 {
        assert(front[a] == list[a]);
        assert(front.contains(list[a]));
        assert(front.to_multiset().count(list[a]) >= 1);
    } else {
        twice_counts(front, a, b);
    }
}

proof fn once_counts(list: Seq<HitView>, x: HitView)
    requires
        forall|a: int, b: int|
            0 <= a < b < list.len() ==> (#[trigger] list[a]).topic_id != (
            #[trigger] list[b]).topic_id,
    ensures
        list.to_multiset().count(x) <= 1,
    decreases list.len(),
{
    broadcast use vstd::seq_lib::group_to_multiset_ensures;

    if list.len() > 0 {
        let front = list.drop_last();
        assert(list == front.push(list.last()));
        assert forall|a: int, b: int| 0 <= a < b < front.len() implies (
        #[trigger] front[a]).topic_id != (#[trigger] front[b]).topic_id by {
            assert(front[a] == list[a] && front[b] == list[b]);
        }
        once_counts(front, x);
        if list.last() == x {
            assert(!front.contains(x)) by {
                if front.contains(x) {
                    let k = choose|k: int| 0 <= k < front.len() && front[k] == x;
                    assert(list[k].topic_id != list[list.len() - 1].topic_id);
                }
            }
            assert(front.to_multiset().count(x) == 0);
        }
    }
}

proof fn newest_are_among(hits: Seq<HitView>, limit: i64)
    ensures
        forall|i: int|
            0 <= i < newest_of(hits, limit).len() ==> hits.contains(
                #[trigger] newest_of(hits, limit)[i],
            ),
        limit >= 0 ==> newest_of(hits, limit).len() <= limit,
{
    broadcast use vstd::seq_lib::group_to_multiset_ensures;

    let before = |a: HitView, b: HitView| newer(a, b);
    let all = arranged(hits, before);
    newer_is_order();
    arranging_orders(hits, before);
    assert forall|i: int| 0 <= i < newest_of(hits, limit).len() implies hits.contains(
        #[trigger] newest_of(hits, limit)[i],
    ) by {
        assert(newest_of(hits, limit)[i] == all[i]);
        assert(all.contains(all[i]));
        assert(all.to_multiset().count(all[i]) > 0);
        assert(hits.to_multiset().count(all[i]) > 0);
    }
}

/// Did a row that may be shown bring this hit?
pub open spec fn shown_by(
    rows: Seq<FoundView>,
    space: Seq<char>,
    categories: Seq<Seq<char>>,
    hit: HitView,
) -> bool {
    exists|k: int|
        0 <= k < rows.len() && (#[trigger] rows[k]).hit == hit && in_scope(
            rows[k],
            space,
            categories,
        )
}

proof fn scoped_are_shown(
    rows: Seq<FoundView>,
    space: Seq<char>,
    categories: Seq<Seq<char>>,
    i: int,
)
    requires
        0 <= i < scoped(rows, space, categories).len(),
    ensures
        shown_by(rows, space, categories, scoped(rows, space, categories)[i]),
    decreases rows.len(),
{
    let front = rows.drop_last();
    let before = scoped(front, space, categories);
    let hit = scoped(rows, space, categories)[i];
    if i < before.len() {
        scoped_are_shown(front, space, categories, i);
        let k = choose|k: int|
            0 <= k < front.len() && (#[trigger] front[k]).hit == hit && in_scope(
                front[k],
                space,
                categories,
            );
        assert(rows[k] == front[k]);
    } else {
        assert(rows[rows.len() - 1].hit == hit);
    }
}

/// NOTHING IS FOUND ACROSS A SPACE OR OUTSIDE A CATEGORY: whatever a search
/// shows came from a row of this space, in one of these categories, that was
/// not withdrawn. It shows no more than was asked for.
pub proof fn nothing_is_found_out_of_scope(
    bodies: Seq<FoundView>,
    titles: Seq<FoundView>,
    space: Seq<char>,
    categories: Seq<Seq<char>>,
    limit: i64,
    i: int,
)
    requires
        0 <= i < searched(bodies, titles, space, categories, limit).len(),
    ensures
        ({
            let hits = searched(bodies, titles, space, categories, limit);
            &&& shown_by(bodies, space, categories, hits[i]) || shown_by(
                titles,
                space,
                categories,
                hits[i],
            )
            &&& categories.contains(hits[i].category)
            &&& limit >= 0 ==> hits.len() <= limit
        }),
{
    let first = scoped(bodies, space, categories);
    let second = scoped(titles, space, categories);
    let both = newest_of(first, limit) + newest_of(second, limit);
    let hit = searched(bodies, titles, space, categories, limit)[i];
    newest_are_among(one_each(both), limit);
    newest_are_among(first, limit);
    newest_are_among(second, limit);
    one_each_keeps(both);
    let a = choose|a: int| 0 <= a < one_each(both).len() && one_each(both)[a] == hit;
    assert(both.contains(one_each(both)[a]));
    let b = choose|b: int| 0 <= b < both.len() && both[b] == hit;
    let size = newest_of(first, limit).len();
    if b < size {
        assert(first.contains(newest_of(first, limit)[b]));
        let c = choose|c: int| 0 <= c < first.len() && first[c] == hit;
        scoped_are_shown(bodies, space, categories, c);
    } else {
        assert(second.contains(newest_of(second, limit)[b - size]));
        let c = choose|c: int| 0 <= c < second.len() && second[c] == hit;
        scoped_are_shown(titles, space, categories, c);
    }
}

} // verus!
