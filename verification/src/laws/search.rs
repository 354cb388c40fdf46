//! What was typed is what is searched for, and what may be seen is what is
//! found.
use crate::db::search::{
    core_of, hits_are_newest_first_and_once, newer, newest_of, one_each, placeholders_for, query_of,
    scoped, searched, terms_of, unquoted, word_length, words_of, FoundView, HitView,
};
use crate::laws::text::blank;
use crate::markup::alphanumeric;
use crate::order::{arranged, arranging_orders, is_order};
use crate::text::white;
use vstd::prelude::*;
use vstd::string::*;

verus! {

/// A word as it is typed: space in front, punctuation, the word itself, and
/// punctuation again.
pub struct Typed {
    pub gap: Seq<char>,
    pub left: Seq<char>,
    pub word: Seq<char>,
    pub right: Seq<char>,
}

/// Is it nothing but punctuation?
pub open spec fn punctuation(s: Seq<char>) -> bool {
    forall|i: int|
        0 <= i < s.len() ==> !white(#[trigger] s[i]) && !alphanumeric(s[i]) && s[i] != '-'
}

/// Does it begin and end with a letter, a digit or a hyphen, without a space
/// between them?
pub open spec fn is_word(s: Seq<char>) -> bool {
    &&& s.len() > 0
    &&& alphanumeric(s[0]) || s[0] == '-'
    &&& alphanumeric(s.last()) || s.last() == '-'
    &&& forall|i: int| 0 <= i < s.len() ==> !white(#[trigger] s[i])
}

pub open spec fn typed_fits(one: Typed) -> bool {
    &&& blank(one.gap)
    &&& punctuation(one.left)
    &&& punctuation(one.right)
    &&& is_word(one.word) || (one.word.len() == 0 && one.left.len() + one.right.len() > 0)
}

/// Can these be typed one behind the other? There is a space between any two.
pub open spec fn all_typed_fit(all: Seq<Typed>) -> bool {
    &&& forall|i: int| 0 <= i < all.len() ==> typed_fits(#[trigger] all[i])
    &&& forall|i: int| 0 < i < all.len() ==> (#[trigger] all[i]).gap.len() > 0
}

/// What is typed, all in all.
pub open spec fn typed_text(all: Seq<Typed>, end: Seq<char>) -> Seq<char>
    decreases all.len(),
{
    if all.len() == 0 {
        end
    } else {
        all[0].gap + (all[0].left + all[0].word + all[0].right) + typed_text(all.skip(1), end)
    }
}

/// The words, without their quotes; what is nothing but punctuation is none.
pub open spec fn words_typed(all: Seq<Typed>) -> Seq<Seq<char>>
    decreases all.len(),
{
    if all.len() == 0 {
        Seq::empty()
    } else if all.last().word.len() == 0 {
        words_typed(all.drop_last())
    } else {
        words_typed(all.drop_last()).push(all.last().word.filter(|c: char| c != '"'))
    }
}

/// The words in quotes, with `AND` between them.
pub open spec fn all_of(words: Seq<Seq<char>>) -> Seq<char>
    decreases words.len(),
{
    if words.len() == 0 {
        Seq::empty()
    } else if words.len() == 1 {
        seq!['"'] + words[0] + seq!['"']
    } else {
        seq!['"'] + words[0] + seq!['"', ' ', 'A', 'N', 'D', ' '] + all_of(words.skip(1))
    }
}

pub open spec fn raw_words(all: Seq<Typed>) -> Seq<Seq<char>> {
    Seq::new(all.len(), |i: int| all[i].left + all[i].word + all[i].right)
}

proof fn a_word_ends(word: Seq<char>, rest: Seq<char>)
    requires
        forall|i: int| 0 <= i < word.len() ==> !white(#[trigger] word[i]),
        rest.len() > 0 ==> white(rest[0]),
    ensures
        word_length(word + rest) == word.len(),
    decreases word.len(),
{
    let s = word + rest;
    if word.len() > 0 {
        assert(s[0] == word[0]);
        let shorter = word.skip(1);
        assert forall|i: int| 0 <= i < shorter.len() implies !white(#[trigger] shorter[i]) by {
            assert(shorter[i] == word[i + 1]);
        }
        a_word_ends(shorter, rest);
        assert(s.skip(1) == shorter + rest);
    } else {
        assert(s == rest);
    }
}

proof fn a_gap_is_skipped(gap: Seq<char>, rest: Seq<char>)
    requires
        blank(gap),
    ensures
        words_of(gap + rest) == words_of(rest),
    decreases gap.len(),
{
    if gap.len() > 0 {
        let s = gap + rest;
        let shorter = gap.skip(1);
        assert(white(gap[0]));
        assert(s[0] == gap[0]);
        assert forall|i: int| 0 <= i < shorter.len() implies white(#[trigger] shorter[i]) by {
            assert(shorter[i] == gap[i + 1]);
        }
        a_gap_is_skipped(shorter, rest);
        assert(s.skip(1) == shorter + rest);
    } else {
        assert(gap + rest == rest);
    }
}

proof fn words_are_told_apart(all: Seq<Typed>, end: Seq<char>)
    requires
        all_typed_fit(all),
        blank(end),
    ensures
        words_of(typed_text(all, end)) == raw_words(all),
    decreases all.len(),
{
    if all.len() == 0 {
        a_gap_is_skipped(end, Seq::empty());
        assert(end + Seq::<char>::empty() == end);
        assert(raw_words(all) =~= Seq::<Seq<char>>::empty());
    } else {
        let one = all[0];
        let rest = all.skip(1);
        assert(typed_fits(all[0]));
        assert forall|i: int| 0 <= i < rest.len() implies typed_fits(#[trigger] rest[i]) by {
            assert(rest[i] == all[i + 1]);
        }
        assert forall|i: int| 0 < i < rest.len() implies (#[trigger] rest[i]).gap.len() > 0 by {
            assert(rest[i] == all[i + 1]);
        }
        words_are_told_apart(rest, end);
        let word = one.left + one.word + one.right;
        let behind = typed_text(rest, end);
        assert(typed_text(all, end) == one.gap + (word + behind));
        a_gap_is_skipped(one.gap, word + behind);
        assert forall|i: int| 0 <= i < word.len() implies !white(#[trigger] word[i]) by {
            if i < one.left.len() {
                assert(word[i] == one.left[i]);
            } else if i < one.left.len() + one.word.len() {
                assert(word[i] == one.word[i - one.left.len()]);
            } else {
                assert(word[i] == one.right[i - one.left.len() - one.word.len()]);
            }
        }
        if rest.len() > 0 {
            assert(rest[0] == all[1]);
            assert(behind[0] == rest[0].gap[0]);
            assert(white(rest[0].gap[0]));
        } else if end.len() > 0 {
            assert(white(end[0]));
        }
        a_word_ends(word, behind);
        assert((word + behind).take(word.len() as int) == word);
        assert((word + behind).skip(word.len() as int) == behind);
        assert(raw_words(all) =~= seq![word] + raw_words(rest));
    }
}

proof fn left_goes(left: Seq<char>, rest: Seq<char>)
    requires
        punctuation(left),
    ensures
        core_of(left + rest) == core_of(rest),
    decreases left.len(),
{
    if left.len() > 0 {
        let shorter = left.skip(1);
        assert(!alphanumeric(left[0]) && left[0] != '-');
        assert forall|i: int| 0 <= i < shorter.len() implies !white(#[trigger] shorter[i])
            && !alphanumeric(shorter[i]) && shorter[i] != '-' by {
            assert(shorter[i] == left[i + 1]);
        }
        left_goes(shorter, rest);
        assert((left + rest)[0] == left[0]);
        assert((left + rest).skip(1) == shorter + rest);
    } else {
        assert(left + rest == rest);
    }
}

proof fn right_goes(word: Seq<char>, right: Seq<char>)
    requires
        is_word(word),
        punctuation(right),
    ensures
        core_of(word + right) == word,
    decreases right.len(),
{
    let s = word + right;
    assert(s[0] == word[0]);
    if right.len() > 0 {
        let shorter = right.drop_last();
        assert(!alphanumeric(right[right.len() - 1]) && right[right.len() - 1] != '-');
        assert forall|i: int| 0 <= i < shorter.len() implies !white(#[trigger] shorter[i])
            && !alphanumeric(shorter[i]) && shorter[i] != '-' by {
            assert(shorter[i] == right[i]);
        }
        right_goes(word, shorter);
        assert(s.last() == right.last());
        assert(s.drop_last() == word + shorter);
    } else {
        assert(s == word);
    }
}

proof fn quotes_go(s: Seq<char>)
    ensures
        unquoted(s) == s.filter(|c: char| c != '"'),
    decreases s.len(),
{
    reveal(Seq::filter);
    if s.len() > 0 {
        quotes_go(s.drop_last());
    }
}

proof fn terms_are_the_words(all: Seq<Typed>)
    requires
        forall|i: int| 0 <= i < all.len() ==> typed_fits(#[trigger] all[i]),
    ensures
        terms_of(raw_words(all)) == words_typed(all),
    decreases all.len(),
{
    if all.len() > 0 {
        let front = all.drop_last();
        let one = all.last();
        assert(typed_fits(all[all.len() - 1]));
        assert forall|i: int| 0 <= i < front.len() implies typed_fits(#[trigger] front[i]) by {
            assert(front[i] == all[i]);
        }
        terms_are_the_words(front);
        let raw = raw_words(all);
        assert(raw.drop_last() =~= raw_words(front));
        assert(raw.last() == one.left + one.word + one.right);
        assert(one.left + one.word + one.right == one.left + (one.word + one.right));
        left_goes(one.left, one.word + one.right);
        if one.word.len() == 0 {
            assert(one.word + one.right == one.right + Seq::<char>::empty());
            left_goes(one.right, Seq::empty());
        } else {
            right_goes(one.word, one.right);
            quotes_go(one.word);
        }
    }
}

proof fn one_more_word(words: Seq<Seq<char>>, word: Seq<char>)
    requires
        words.len() > 0,
    ensures
        all_of(words.push(word)) == all_of(words) + seq![' ', 'A', 'N', 'D', ' '] + (seq!['"'] + word
            + seq!['"']),
    decreases words.len(),
{
    let more = words.push(word);
    assert(more.skip(1) == words.skip(1).push(word));
    if words.len() == 1 {
        assert(words.skip(1).push(word) =~= seq![word]);
        assert(all_of(seq![word]) == seq!['"'] + word + seq!['"']);
        assert(all_of(more) == seq!['"'] + words[0] + seq!['"', ' ', 'A', 'N', 'D', ' '] + (
        seq!['"'] + word + seq!['"']));
        assert(all_of(words) == seq!['"'] + words[0] + seq!['"']);
        assert(all_of(more) =~= all_of(words) + seq![' ', 'A', 'N', 'D', ' '] + (seq!['"'] + word
            + seq!['"']));
    } else {
        one_more_word(words.skip(1), word);
        let head = seq!['"'] + words[0] + seq!['"', ' ', 'A', 'N', 'D', ' '];
        let tail = seq![' ', 'A', 'N', 'D', ' '] + (seq!['"'] + word + seq!['"']);
        assert(more[0] == words[0]);
        assert(head + (all_of(words.skip(1)) + seq![' ', 'A', 'N', 'D', ' '] + (seq!['"'] + word
            + seq!['"'])) =~= head + all_of(words.skip(1)) + seq![' ', 'A', 'N', 'D', ' '] + (
        seq!['"'] + word + seq!['"']));
    }
}

proof fn a_query_asks_for_all(words: Seq<Seq<char>>)
    ensures
        query_of(words) == all_of(words),
    decreases words.len(),
{
    reveal_strlit("\"");
    reveal_strlit(" AND ");
    assert("\""@ =~= seq!['"']);
    assert(" AND "@ =~= seq![' ', 'A', 'N', 'D', ' ']);
    if words.len() > 1 {
        let front = words.drop_last();
        a_query_asks_for_all(front);
        one_more_word(front, words.last());
        assert(front.push(words.last()) == words);
    } else if words.len() == 1 {
        assert(words.last() == words[0]);
    }
}

/// WHAT IS TYPED IS WHAT IS SEARCHED FOR: every word that was typed, in its
/// order, each in quotes and all of them asked for. Of a word the punctuation
/// at both ends and the quotes are taken out, and every other character is
/// kept; what is nothing but punctuation is not searched for.
pub proof fn what_is_typed_is_searched_for(all: Seq<Typed>, end: Seq<char>)
    requires
        all_typed_fit(all),
        blank(end),
    ensures
        terms_of(words_of(typed_text(all, end))) == words_typed(all),
        query_of(terms_of(words_of(typed_text(all, end)))) == all_of(words_typed(all)),
{
    words_are_told_apart(all, end);
    terms_are_the_words(all);
    a_query_asks_for_all(words_typed(all));
}

/// A word without quotes, typed alone, is asked for exactly as it was typed.
pub proof fn a_plain_word_is_searched_for_as_it_is(word: Seq<char>)
    requires
        is_word(word),
        !word.contains('"'),
    ensures
        query_of(terms_of(words_of(word))) == seq!['"'] + word + seq!['"'],
{
    let none = Seq::<char>::empty();
    let one = Typed { gap: none, left: none, word, right: none };
    let all = seq![one];
    assert(all[0] == one);
    what_is_typed_is_searched_for(all, none);
    assert(all.skip(1) =~= Seq::<Typed>::empty());
    assert(typed_text(all.skip(1), none) == none);
    assert(typed_text(all, none) =~= word);
    nothing_is_filtered(word);
    assert(all.drop_last() =~= Seq::<Typed>::empty());
    assert(words_typed(all.drop_last()) =~= Seq::<Seq<char>>::empty());
    assert(words_typed(all) =~= seq![word]);
}

proof fn nothing_is_filtered(s: Seq<char>)
    requires
        !s.contains('"'),
    ensures
        s.filter(|c: char| c != '"') == s,
    decreases s.len(),
{
    reveal(Seq::filter);
    if s.len() > 0 {
        let front = s.drop_last();
        assert(!front.contains('"')) by {
            if front.contains('"') {
                let k = choose|k: int| 0 <= k < front.len() && front[k] == '"';
                assert(s[k] == '"');
            }
        }
        nothing_is_filtered(front);
        assert(s[s.len() - 1] != '"');
        assert(front.push(s.last()) =~= s);
    }
}

/// One question mark for each category, a comma between any two.
pub proof fn a_mark_for_each_category(n: nat, i: int)
    requires
        n > 0,
        0 <= i < 2 * n - 1,
    ensures
        placeholders_for(n).len() == 2 * n - 1,
        placeholders_for(n)[i] == if i % 2 == 0 {
            '?'
        } else {
            ','
        },
    decreases n,
{
    reveal_strlit("?");
    reveal_strlit(",?");
    if n > 1 {
        let m = (n - 1) as nat;
        if i < 2 * m - 1 {
            a_mark_for_each_category(m, i);
        } else {
            a_mark_for_each_category(m, 0);
        }
    }
}

/// Is this what the index found, in this space, in one of these categories, and
/// in a topic that was not withdrawn?
pub open spec fn may_be_shown(
    row: FoundView,
    space: Seq<char>,
    categories: Seq<Seq<char>>,
    hit: HitView,
) -> bool {
    row.hit == hit && row.space == space && row.hidden == false && categories.contains(
        hit.category,
    )
}

proof fn scoping_keeps(
    rows: Seq<FoundView>,
    space: Seq<char>,
    categories: Seq<Seq<char>>,
    hit: HitView,
)
    ensures
        scoped(rows, space, categories).contains(hit) <==> exists|k: int|
            0 <= k < rows.len() && #[trigger] may_be_shown(rows[k], space, categories, hit),
    decreases rows.len(),
{
    let all = scoped(rows, space, categories);
    if rows.len() > 0 {
        let front = rows.drop_last();
        let before = scoped(front, space, categories);
        scoping_keeps(front, space, categories, hit);
        if before.contains(hit) {
            let i = choose|i: int| 0 <= i < before.len() && before[i] == hit;
            assert(all[i] == hit);
            let k = choose|k: int|
                0 <= k < front.len() && #[trigger] may_be_shown(front[k], space, categories, hit);
            assert(may_be_shown(rows[k], space, categories, hit));
        }
        if all.contains(hit) && !before.contains(hit) {
            let i = choose|i: int| 0 <= i < all.len() && all[i] == hit;
            if i < before.len() {
                assert(before[i] == hit);
            }
            assert(may_be_shown(rows[rows.len() - 1], space, categories, hit));
        }
        if exists|k: int|
            0 <= k < rows.len() && #[trigger] may_be_shown(rows[k], space, categories, hit) {
            let k = choose|k: int|
                0 <= k < rows.len() && #[trigger] may_be_shown(rows[k], space, categories, hit);
            if k < front.len() {
                assert(may_be_shown(front[k], space, categories, hit));
            } else {
                assert(all[before.len() as int] == hit);
            }
        }
    }
}

proof fn newest_keeps(hits: Seq<HitView>, limit: i64)
    ensures
        forall|x: HitView| #[trigger] newest_of(hits, limit).contains(x) ==> hits.contains(x),
        limit < 0 || limit >= hits.len() ==> newest_of(hits, limit).len() == hits.len() && forall|
            x: HitView,
        | #[trigger]
            hits.contains(x) ==> newest_of(hits, limit).contains(x),
        limit >= 0 ==> newest_of(hits, limit).len() <= limit,
        newest_of(hits, limit).len() <= hits.len(),
        forall|a: int, b: int|
            0 <= a < b < newest_of(hits, limit).len() ==> (#[trigger] newest_of(
                hits,
                limit,
            )[a]).updated_at >= (#[trigger] newest_of(hits, limit)[b]).updated_at,
{
    broadcast use vstd::seq_lib::group_to_multiset_ensures;

    let before = |a: HitView, b: HitView| newer(a, b);
    let all = arranged(hits, before);
    assert(is_order(before));
    arranging_orders(hits, before);
    assert forall|x: HitView| all.contains(x) <==> hits.contains(x) by {
        assert(all.contains(x) <==> all.to_multiset().count(x) > 0);
        assert(hits.contains(x) <==> hits.to_multiset().count(x) > 0);
    }
    assert(all.len() == hits.len()) by {
        assert(all.to_multiset().len() == all.len());
        assert(hits.to_multiset().len() == hits.len());
    }
    let kept = newest_of(hits, limit);
    assert forall|x: HitView| #[trigger] kept.contains(x) implies hits.contains(x) by {
        let k = choose|k: int| 0 <= k < kept.len() && kept[k] == x;
        assert(all[k] == x);
        assert(all.contains(x));
    }
    assert forall|a: int, b: int| 0 <= a < b < kept.len() implies (#[trigger] kept[a]).updated_at
        >= (#[trigger] kept[b]).updated_at by {
        assert(kept[a] == all[a] && kept[b] == all[b]);
        assert(!before(all[b], all[a]));
    }
}

/// Nothing is found across a space, outside the categories somebody may read,
/// or in a topic that was withdrawn; what is found says what the index said,
/// the newest first, each topic once, and no more than was asked for.
pub proof fn what_is_found_may_be_seen(
    bodies: Seq<FoundView>,
    titles: Seq<FoundView>,
    space: Seq<char>,
    categories: Seq<Seq<char>>,
    limit: i64,
    i: int,
    j: int,
)
    requires
        0 <= i < j < searched(bodies, titles, space, categories, limit).len(),
    ensures
        ({
            let hits = searched(bodies, titles, space, categories, limit);
            &&& found_among(bodies, space, categories, hits[i]) || found_among(
                titles,
                space,
                categories,
                hits[i],
            )
            &&& found_among(bodies, space, categories, hits[j]) || found_among(
                titles,
                space,
                categories,
                hits[j],
            )
            &&& hits[i].topic_id != hits[j].topic_id
            &&& hits[i].updated_at >= hits[j].updated_at
            &&& limit >= 0 ==> hits.len() <= limit
        }),
{
    let first = newest_of(scoped(bodies, space, categories), limit);
    let second = newest_of(scoped(titles, space, categories), limit);
    let hits = searched(bodies, titles, space, categories, limit);
    hits_are_newest_first_and_once(first, second, limit, i, j);
    newest_keeps(one_each(first + second), limit);
    newest_keeps(scoped(bodies, space, categories), limit);
    newest_keeps(scoped(titles, space, categories), limit);
    scoping_keeps(bodies, space, categories, hits[i]);
    scoping_keeps(titles, space, categories, hits[i]);
    scoping_keeps(bodies, space, categories, hits[j]);
    scoping_keeps(titles, space, categories, hits[j]);
}

/// Did the index find it, where it may be seen?
pub open spec fn found_among(
    rows: Seq<FoundView>,
    space: Seq<char>,
    categories: Seq<Seq<char>>,
    hit: HitView,
) -> bool {
    exists|k: int| 0 <= k < rows.len() && #[trigger] may_be_shown(rows[k], space, categories, hit)
}

proof fn each_topic_stays(hits: Seq<HitView>, i: int)
    requires
        0 <= i < hits.len(),
    ensures
        exists|k: int|
            0 <= k < one_each(hits).len() && (#[trigger] one_each(hits)[k]).topic_id
                == hits[i].topic_id,
        one_each(hits).len() <= hits.len(),
    decreases hits.len(),
{
    let front = hits.drop_last();
    let before = one_each(front);
    let after = one_each(hits);
    if i < front.len() {
        each_topic_stays(front, i);
        let k = choose|k: int|
            0 <= k < before.len() && (#[trigger] before[k]).topic_id == front[i].topic_id;
        assert(after[k] == before[k]);
    } else {
        if front.len() > 0 {
            each_topic_stays(front, 0);
        }
        let id = hits[i].topic_id;
        if crate::db::search::has_topic(before, id) {
            let k = choose|k: int| 0 <= k < before.len() && (#[trigger] before[k]).topic_id == id;
            assert(after[k].topic_id == id);
        } else {
            assert(after[before.len() as int].topic_id == id);
        }
    }
}

proof fn scoped_is_no_longer(
    rows: Seq<FoundView>,
    space: Seq<char>,
    categories: Seq<Seq<char>>,
)
    ensures
        scoped(rows, space, categories).len() <= rows.len(),
    decreases rows.len(),
{
    if rows.len() > 0 {
        scoped_is_no_longer(rows.drop_last(), space, categories);
    }
}

/// Whatever may be seen is found, as long as there is room for it: its topic is
/// among the results.
pub proof fn what_may_be_seen_is_found(
    bodies: Seq<FoundView>,
    titles: Seq<FoundView>,
    space: Seq<char>,
    categories: Seq<Seq<char>>,
    limit: i64,
    hit: HitView,
)
    requires
        found_among(bodies, space, categories, hit) || found_among(titles, space, categories, hit),
        limit < 0 || limit >= bodies.len() + titles.len(),
    ensures
        ({
            let hits = searched(bodies, titles, space, categories, limit);
            exists|k: int| 0 <= k < hits.len() && (#[trigger] hits[k]).topic_id == hit.topic_id
        }),
{
    let b = scoped(bodies, space, categories);
    let t = scoped(titles, space, categories);
    let first = newest_of(b, limit);
    let second = newest_of(t, limit);
    let both = first + second;
    let once = one_each(both);
    let hits = searched(bodies, titles, space, categories, limit);
    scoping_keeps(bodies, space, categories, hit);
    scoping_keeps(titles, space, categories, hit);
    scoped_is_no_longer(bodies, space, categories);
    scoped_is_no_longer(titles, space, categories);
    newest_keeps(b, limit);
    newest_keeps(t, limit);
    newest_keeps(once, limit);
    if b.contains(hit) {
        assert(first.contains(hit));
        let k = choose|k: int| 0 <= k < first.len() && first[k] == hit;
        assert(both[k] == hit);
    } else {
        assert(second.contains(hit));
        let k = choose|k: int| 0 <= k < second.len() && second[k] == hit;
        assert(both[first.len() + k] == hit);
    }
    let i = choose|i: int| 0 <= i < both.len() && both[i] == hit;
    each_topic_stays(both, i);
    let m = choose|m: int| 0 <= m < once.len() && (#[trigger] once[m]).topic_id == hit.topic_id;
    assert(once.contains(once[m]));
    assert(hits.contains(once[m]));
    let k = choose|k: int| 0 <= k < hits.len() && hits[k] == once[m];
    assert(hits[k].topic_id == hit.topic_id);
}

proof fn the_first_stays(first: Seq<HitView>, second: Seq<HitView>, hit: HitView)
    requires
        one_each(first + second).contains(hit),
        exists|k: int| 0 <= k < first.len() && (#[trigger] first[k]).topic_id == hit.topic_id,
    ensures
        first.contains(hit),
    decreases second.len(),
{
    let both = first + second;
    if second.len() > 0 {
        let shorter = second.drop_last();
        let front = first + shorter;
        assert(both.drop_last() == front);
        assert(both.last() == second.last());
        let before = one_each(front);
        let i = choose|i: int| 0 <= i < one_each(both).len() && one_each(both)[i] == hit;
        if i < before.len() {
            assert(before[i] == hit);
            the_first_stays(first, shorter, hit);
        } else {
            let k = choose|k: int| 0 <= k < first.len() && (#[trigger] first[k]).topic_id
                == hit.topic_id;
            assert(front[k] == first[k]);
            each_topic_stays(front, k);
        }
    } else {
        assert(both == first);
        one_of_them(first, hit);
    }
}

proof fn one_of_them(hits: Seq<HitView>, hit: HitView)
    requires
        one_each(hits).contains(hit),
    ensures
        hits.contains(hit),
    decreases hits.len(),
{
    let front = hits.drop_last();
    let before = one_each(front);
    let i = choose|i: int| 0 <= i < one_each(hits).len() && one_each(hits)[i] == hit;
    if i < before.len() {
        assert(before[i] == hit);
        one_of_them(front, hit);
        let k = choose|k: int| 0 <= k < front.len() && front[k] == hit;
        assert(hits[k] == hit);
    } else {
        assert(hits[hits.len() - 1] == hit);
    }
}

/// Where both the title and a post of a topic match, the post is shown: its
/// snippet says more than the title, which stands next to it.
pub proof fn a_post_goes_before_a_title(
    bodies: Seq<FoundView>,
    titles: Seq<FoundView>,
    space: Seq<char>,
    categories: Seq<Seq<char>>,
    limit: i64,
    i: int,
    hit: HitView,
)
    requires
        limit < 0 || limit >= bodies.len() + titles.len(),
        0 <= i < searched(bodies, titles, space, categories, limit).len(),
        found_among(bodies, space, categories, hit),
        searched(bodies, titles, space, categories, limit)[i].topic_id == hit.topic_id,
    ensures
        found_among(
            bodies,
            space,
            categories,
            searched(bodies, titles, space, categories, limit)[i],
        ),
{
    let b = scoped(bodies, space, categories);
    let t = scoped(titles, space, categories);
    let first = newest_of(b, limit);
    let second = newest_of(t, limit);
    let shown = searched(bodies, titles, space, categories, limit)[i];
    scoping_keeps(bodies, space, categories, hit);
    scoping_keeps(bodies, space, categories, shown);
    scoped_is_no_longer(bodies, space, categories);
    newest_keeps(b, limit);
    newest_keeps(one_each(first + second), limit);
    assert(searched(bodies, titles, space, categories, limit).contains(shown));
    assert(first.contains(hit));
    let k = choose|k: int| 0 <= k < first.len() && first[k] == hit;
    assert(first[k].topic_id == shown.topic_id);
    the_first_stays(first, second, shown);
}

} // verus!
