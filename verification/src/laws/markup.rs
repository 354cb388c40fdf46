//! A post reads the same on the page as it was written, and whoever is
//! mentioned in it is marked.
use crate::auth::{handle_char, handle_of};
use crate::laws::text::small_letters;
use crate::markup::{
    alphanumeric, begins_text, chosen, cut_up, edit_at, escaped, escaped_char, goes_on, handle_end,
    handles_from, handles_of, inside_link, is_link_above, is_prose, marked, marks_at, mentioned_in,
    pieces_html, run_start, run_text, span_at, spans_are_in_order, spans_from, value_kept,
    without_tail, KindView, NodeView, PieceView, SpanView,
};
use crate::order::each_once;
use crate::text::{ascii_lower, starts_with};
use vstd::prelude::*;
use vstd::string::*;

verus! {

/// What a reader sees of a piece of HTML: the marks of mentions are not text,
/// and the four entities are the characters they stand for.
pub open spec fn seen(html: Seq<char>) -> Seq<char>
    decreases html.len(),
{
    if html.len() == 0 {
        Seq::empty()
    } else if starts_with(html, mark_opens()) {
        seen(html.skip(mark_opens().len() as int))
    } else if starts_with(html, mark_closes()) {
        seen(html.skip(mark_closes().len() as int))
    } else if starts_with(html, seq!['&', 'a', 'm', 'p', ';']) {
        seq!['&'] + seen(html.skip(5))
    } else if starts_with(html, seq!['&', 'l', 't', ';']) {
        seq!['<'] + seen(html.skip(4))
    } else if starts_with(html, seq!['&', 'g', 't', ';']) {
        seq!['>'] + seen(html.skip(4))
    } else if starts_with(html, seq!['&', 'q', 'u', 'o', 't', ';']) {
        seq!['"'] + seen(html.skip(6))
    } else {
        seq![html[0]] + seen(html.skip(1))
    }
}

pub open spec fn mark_opens() -> Seq<char> {
    seq![
        '<', 's', 'p', 'a', 'n', ' ', 'c', 'l', 'a', 's', 's', '=', '"', 'm', 'e', 'n', 't', 'i',
        'o', 'n', '"', '>',
    ]
}

pub open spec fn mark_closes() -> Seq<char> {
    seq!['<', '/', 's', 'p', 'a', 'n', '>']
}

/// Where the marks stand in what a reader sees: from which character to which.
/// `open` is where the mark began that is being read.
pub open spec fn marks_seen(html: Seq<char>, at: int, open: Option<int>) -> Seq<(int, int)>
    decreases html.len(),
{
    if html.len() == 0 {
        Seq::empty()
    } else if starts_with(html, mark_opens()) {
        marks_seen(html.skip(mark_opens().len() as int), at, Some(at))
    } else if starts_with(html, mark_closes()) {
        match open {
            Some(start) => seq![(start, at)] + marks_seen(
                html.skip(mark_closes().len() as int),
                at,
                None,
            ),
            None => marks_seen(html.skip(mark_closes().len() as int), at, None),
        }
    } else if starts_with(html, seq!['&', 'a', 'm', 'p', ';']) {
        marks_seen(html.skip(5), at + 1, open)
    } else if starts_with(html, seq!['&', 'l', 't', ';']) {
        marks_seen(html.skip(4), at + 1, open)
    } else if starts_with(html, seq!['&', 'g', 't', ';']) {
        marks_seen(html.skip(4), at + 1, open)
    } else if starts_with(html, seq!['&', 'q', 'u', 'o', 't', ';']) {
        marks_seen(html.skip(6), at + 1, open)
    } else {
        marks_seen(html.skip(1), at + 1, open)
    }
}

/// A text that can be shown as it is: U+0000 cannot be in HTML at all.
pub open spec fn showable(text: Seq<char>) -> bool {
    forall|i: int| 0 <= i < text.len() ==> (#[trigger] text[i]) != '\u{0}'
}

proof fn not_opening(s: Seq<char>, start: Seq<char>)
    requires
        s.len() > 0,
        start.len() > 0,
        s[0] != start[0],
    ensures
        !starts_with(s, start),
{
    if starts_with(s, start) {
        assert(s.take(start.len() as int)[0] == start[0]);
    }
}

proof fn opening_with(start: Seq<char>, rest: Seq<char>)
    ensures
        starts_with(start + rest, start),
        (start + rest).skip(start.len() as int) == rest,
{
    assert((start + rest).take(start.len() as int) =~= start);
    assert((start + rest).skip(start.len() as int) =~= rest);
}

proof fn second_differs(s: Seq<char>, start: Seq<char>)
    requires
        s.len() > 1,
        start.len() > 1,
        s[1] != start[1],
    ensures
        !starts_with(s, start),
{
    if starts_with(s, start) {
        assert(s.take(start.len() as int)[1] == start[1]);
    }
}

/// One character, as it is written, is read as itself.
proof fn a_character_is_read(c: char, rest: Seq<char>, at: int, open: Option<int>)
    requires
        c != '\u{0}',
    ensures
        seen(escaped_char(c) + rest) == seq![c] + seen(rest),
        marks_seen(escaped_char(c) + rest, at, open) == marks_seen(rest, at + 1, open),
{
    reveal_strlit("&amp;");
    reveal_strlit("&lt;");
    reveal_strlit("&gt;");
    reveal_strlit("&quot;");
    let amp = seq!['&', 'a', 'm', 'p', ';'];
    let lt = seq!['&', 'l', 't', ';'];
    let gt = seq!['&', 'g', 't', ';'];
    let quot = seq!['&', 'q', 'u', 'o', 't', ';'];
    let html = escaped_char(c) + rest;
    if c == '&' {
        assert("&amp;"@ =~= amp);
        opening_with(amp, rest);
        not_opening(html, mark_opens());
        not_opening(html, mark_closes());
    } else if c == '<' {
        assert("&lt;"@ =~= lt);
        opening_with(lt, rest);
        not_opening(html, mark_opens());
        not_opening(html, mark_closes());
        second_differs(html, amp);
    } else if c == '>' {
        assert("&gt;"@ =~= gt);
        opening_with(gt, rest);
        not_opening(html, mark_opens());
        not_opening(html, mark_closes());
        second_differs(html, amp);
        second_differs(html, lt);
    } else if c == '"' {
        assert("&quot;"@ =~= quot);
        opening_with(quot, rest);
        not_opening(html, mark_opens());
        not_opening(html, mark_closes());
        second_differs(html, amp);
        second_differs(html, lt);
        second_differs(html, gt);
    } else {
        assert(html[0] == c);
        assert(html.skip(1) =~= rest);
        not_opening(html, mark_opens());
        not_opening(html, mark_closes());
        not_opening(html, amp);
        not_opening(html, lt);
        not_opening(html, gt);
        not_opening(html, quot);
    }
}

proof fn escaping_goes_on(a: Seq<char>, b: Seq<char>)
    ensures
        escaped(a + b) == escaped(a) + escaped(b),
    decreases b.len(),
{
    if b.len() == 0 {
        assert(a + b =~= a);
        assert(escaped(a) + escaped(b) =~= escaped(a));
    } else {
        escaping_goes_on(a, b.drop_last());
        assert((a + b).drop_last() =~= a + b.drop_last());
        assert((a + b).last() == b.last());
        assert(escaped(a) + escaped(b.drop_last()) + escaped_char(b.last()) =~= escaped(a) + (
        escaped(b.drop_last()) + escaped_char(b.last())));
    }
}

proof fn a_text_is_read(text: Seq<char>, rest: Seq<char>, at: int, open: Option<int>)
    requires
        showable(text),
    ensures
        seen(escaped(text) + rest) == text + seen(rest),
        marks_seen(escaped(text) + rest, at, open) == marks_seen(rest, at + text.len(), open),
    decreases text.len(),
{
    if text.len() == 0 {
        assert(escaped(text) + rest =~= rest);
        assert(text + seen(rest) =~= seen(rest));
    } else {
        let c = text[0];
        let more = text.skip(1);
        assert(text[0] != '\u{0}');
        assert forall|i: int| 0 <= i < more.len() implies (#[trigger] more[i]) != '\u{0}' by {
            assert(more[i] == text[i + 1]);
        }
        a_text_is_read(more, rest, at + 1, open);
        assert(text =~= seq![c] + more);
        escaping_goes_on(seq![c], more);
        assert(seq![c].drop_last() =~= Seq::<char>::empty());
        assert(escaped(seq![c].drop_last()) =~= Seq::<char>::empty());
        assert(escaped(seq![c]) =~= escaped_char(c));
        assert(escaped(text) + rest =~= escaped_char(c) + (escaped(more) + rest));
        a_character_is_read(c, escaped(more) + rest, at, open);
        assert(seq![c] + (more + seen(rest)) =~= text + seen(rest));
    }
}

/// ESCAPING LOSES NOTHING: what a reader sees of an escaped text is the text.
pub proof fn escaping_loses_nothing(text: Seq<char>)
    requires
        showable(text),
    ensures
        seen(escaped(text)) == text,
        marks_seen(escaped(text), 0, None) == Seq::<(int, int)>::empty(),
{
    let none = Seq::<char>::empty();
    a_text_is_read(text, none, 0, None);
    assert(escaped(text) + none =~= escaped(text));
    assert(text + none =~= text);
}

/// A text of which nothing is escaped: an `@` and a handle.
spec fn plain(s: Seq<char>) -> bool {
    forall|i: int| 0 <= i < s.len() ==> (#[trigger] s[i]) != '<' && s[i] != '&'
}

proof fn a_plain_text_is_read(text: Seq<char>, rest: Seq<char>, at: int, open: Option<int>)
    requires
        plain(text),
    ensures
        seen(text + rest) == text + seen(rest),
        marks_seen(text + rest, at, open) == marks_seen(rest, at + text.len(), open),
    decreases text.len(),
{
    if text.len() == 0 {
        assert(text + rest =~= rest);
        assert(text + seen(rest) =~= seen(rest));
    } else {
        let more = text.skip(1);
        assert forall|i: int| 0 <= i < more.len() implies (#[trigger] more[i]) != '<' && more[i]
            != '&' by {
            assert(more[i] == text[i + 1]);
        }
        a_plain_text_is_read(more, rest, at + 1, open);
        let html = text + rest;
        assert(html[0] == text[0]);
        assert(html.skip(1) =~= more + rest);
        not_opening(html, mark_opens());
        not_opening(html, mark_closes());
        not_opening(html, seq!['&', 'a', 'm', 'p', ';']);
        not_opening(html, seq!['&', 'l', 't', ';']);
        not_opening(html, seq!['&', 'g', 't', ';']);
        not_opening(html, seq!['&', 'q', 'u', 'o', 't', ';']);
        assert(seq![text[0]] + (more + seen(rest)) =~= text + seen(rest));
    }
}

proof fn a_mark_is_read(name: Seq<char>, rest: Seq<char>, at: int)
    requires
        plain(name),
    ensures
        seen(marked(name) + rest) == name + seen(rest),
        marks_seen(marked(name) + rest, at, None) == seq![(at, at + name.len())] + marks_seen(
            rest,
            at + name.len(),
            None,
        ),
{
    reveal_strlit("<span class=\"mention\">");
    reveal_strlit("</span>");
    assert("<span class=\"mention\">"@ =~= mark_opens());
    assert("</span>"@ =~= mark_closes());
    let behind = mark_closes() + rest;
    assert(marked(name) + rest =~= mark_opens() + (name + behind));
    opening_with(mark_opens(), name + behind);
    a_plain_text_is_read(name, behind, at, Some(at));
    opening_with(mark_closes(), rest);
    second_differs(behind, mark_opens());
}

proof fn pieces_go_on(piece: PieceView, rest: Seq<PieceView>)
    ensures
        pieces_html(seq![piece] + rest) == match piece {
            PieceView::Text(t) => escaped(t),
            PieceView::Raw(html) => html,
        } + pieces_html(rest),
    decreases rest.len(),
{
    let all = seq![piece] + rest;
    let first = match piece {
        PieceView::Text(t) => escaped(t),
        PieceView::Raw(html) => html,
    };
    if rest.len() == 0 {
        assert(all =~= seq![piece]);
        assert(all.drop_last() =~= Seq::<PieceView>::empty());
        assert(pieces_html(all.drop_last()) =~= Seq::<char>::empty());
        assert(pieces_html(all) =~= first);
        assert(first + pieces_html(rest) =~= first);
    } else {
        pieces_go_on(piece, rest.drop_last());
        assert(all.drop_last() =~= seq![piece] + rest.drop_last());
        assert(all.last() == rest.last());
        let last = match rest.last() {
            PieceView::Text(t) => escaped(t),
            PieceView::Raw(html) => html,
        };
        assert(first + pieces_html(rest.drop_last()) + last =~= first + (pieces_html(
            rest.drop_last(),
        ) + last));
    }
}

/// From which character to which these mentions stand.
spec fn places(spans: Seq<SpanView>) -> Seq<(int, int)> {
    Seq::new(spans.len(), |i: int| (spans[i].start, spans[i].end))
}

proof fn what_is_cut_up_is_read(text: Seq<char>, spans: Seq<SpanView>, at: int)
    requires
        showable(text),
        0 <= at <= text.len(),
        forall|k: int|
            0 <= k < spans.len() ==> at <= (#[trigger] spans[k]).start < spans[k].end <= text.len(),
        forall|k: int, l: int|
            0 <= k < l < spans.len() ==> (#[trigger] spans[k]).end <= (#[trigger] spans[l]).start,
        forall|k: int|
            0 <= k < spans.len() ==> plain(
                text.subrange((#[trigger] spans[k]).start, spans[k].end),
            ),
    ensures
        seen(pieces_html(cut_up(text, spans, at))) == text.skip(at),
        marks_seen(pieces_html(cut_up(text, spans, at)), at, None) == places(spans),
    decreases spans.len(),
{
    let none = Seq::<char>::empty();
    if spans.len() == 0 {
        assert(places(spans) =~= Seq::<(int, int)>::empty());
        if at < text.len() {
            let tail = text.subrange(at, text.len() as int);
            let last = PieceView::Text(tail);
            pieces_go_on(last, Seq::empty());
            assert(seq![last] + Seq::<PieceView>::empty() =~= seq![last]);
            assert(escaped(tail) + pieces_html(Seq::<PieceView>::empty()) =~= escaped(tail) + none);
            assert forall|i: int| 0 <= i < tail.len() implies (#[trigger] tail[i]) != '\u{0}' by {
                assert(tail[i] == text[at + i]);
            }
            a_text_is_read(tail, none, at, None);
            assert(tail + none =~= text.skip(at));
        } else {
            assert(text.skip(at) =~= none);
        }
    } else {
        let span = spans[0];
        let left = spans.drop_first();
        let name = text.subrange(span.start, span.end);
        let mark = PieceView::Raw(marked(name));
        assert forall|k: int| 0 <= k < left.len() implies span.end <= (#[trigger] left[k]).start
            < left[k].end <= text.len() by {
            assert(left[k] == spans[k + 1]);
        }
        assert forall|k: int, l: int| 0 <= k < l < left.len() implies (#[trigger] left[k]).end <= (
        #[trigger] left[l]).start by {
            assert(left[k] == spans[k + 1] && left[l] == spans[l + 1]);
        }
        assert forall|k: int| 0 <= k < left.len() implies plain(
            text.subrange((#[trigger] left[k]).start, left[k].end),
        ) by {
            assert(left[k] == spans[k + 1]);
        }
        what_is_cut_up_is_read(text, left, span.end);
        let rest = cut_up(text, left, span.end);
        let behind = pieces_html(rest);
        pieces_go_on(mark, rest);
        assert(plain(name));
        a_mark_is_read(name, behind, span.start);
        assert(places(spans) =~= seq![(span.start, span.end)] + places(left));
        if span.start > at {
            let front = text.subrange(at, span.start);
            let piece = PieceView::Text(front);
            pieces_go_on(piece, seq![mark] + rest);
            assert(seq![piece] + seq![mark] + rest =~= seq![piece] + (seq![mark] + rest));
            assert forall|i: int| 0 <= i < front.len() implies (#[trigger] front[i]) != '\u{0}' by {
                assert(front[i] == text[at + i]);
            }
            a_text_is_read(front, marked(name) + behind, at, None);
            assert(front + (name + text.skip(span.end)) =~= text.skip(at));
        } else {
            assert(name + text.skip(span.end) =~= text.skip(at));
        }
    }
}

/// May it stand in a handle?
pub open spec fn in_a_handle(c: char) -> bool {
    'a' <= c <= 'z' || 'A' <= c <= 'Z' || '0' <= c <= '9' || ends_a_sentence(c)
}

/// May stand in a handle, but not at its end: there it belongs to the sentence.
pub open spec fn ends_a_sentence(c: char) -> bool {
    c == '.' || c == '_' || c == '-'
}

/// With this in front, an `@` belongs to an address.
pub open spec fn in_an_address(c: char) -> bool {
    alphanumeric(c) || c == '.' || c == '_' || c == '%' || c == '+' || c == '-'
}

/// Is somebody mentioned from `i` up to `end`, in a run of handle characters
/// that goes to `whole`?
pub open spec fn names_somebody(text: Seq<char>, i: int, end: int, whole: int) -> bool {
    &&& 0 <= i
    &&& i + 1 < end <= whole <= text.len()
    &&& end - i <= 65
    &&& text[i] == '@'
    &&& i > 0 ==> !in_an_address(text[i - 1])
    &&& forall|k: int| i < k < whole ==> in_a_handle(#[trigger] text[k])
    &&& whole < text.len() ==> !in_a_handle(text[whole]) && text[whole] != '@'
    &&& !ends_a_sentence(text[end - 1])
    &&& forall|k: int| end <= k < whole ==> ends_a_sentence(#[trigger] text[k])
}

/// Is somebody mentioned from `i` up to `end`?
pub open spec fn is_mention(text: Seq<char>, i: int, end: int) -> bool {
    exists|whole: int| #[trigger] names_somebody(text, i, end, whole)
}

proof fn handle_ends_at(text: Seq<char>, i: int, whole: int)
    requires
        0 <= i <= whole <= text.len(),
        forall|k: int| i <= k < whole ==> in_a_handle(#[trigger] text[k]),
        whole < text.len() ==> !in_a_handle(text[whole]),
    ensures
        handle_end(text, i) == whole,
    decreases whole - i,
{
    if i < whole {
        assert(in_a_handle(text[i]));
        handle_ends_at(text, i + 1, whole);
    }
}

proof fn handle_end_is(text: Seq<char>, i: int)
    requires
        0 <= i <= text.len(),
    ensures
        i <= handle_end(text, i) <= text.len(),
        forall|k: int| i <= k < handle_end(text, i) ==> in_a_handle(#[trigger] text[k]),
        handle_end(text, i) < text.len() ==> !in_a_handle(text[handle_end(text, i)]),
    decreases text.len() - i,
{
    if i < text.len() && handle_char(text[i]) {
        handle_end_is(text, i + 1);
    }
}

proof fn tail_is(text: Seq<char>, from: int, end: int)
    requires
        0 <= from <= end <= text.len(),
    ensures
        from <= without_tail(text, from, end) <= end,
        forall|k: int|
            without_tail(text, from, end) <= k < end ==> ends_a_sentence(#[trigger] text[k]),
        without_tail(text, from, end) > from ==> !ends_a_sentence(
            text[without_tail(text, from, end) - 1],
        ),
    decreases end - from,
{
    if from < end && ends_a_sentence(text[end - 1]) {
        tail_is(text, from, end - 1);
    }
}

proof fn tail_goes(text: Seq<char>, from: int, end: int, whole: int)
    requires
        0 <= from < end <= whole <= text.len(),
        !ends_a_sentence(text[end - 1]),
        forall|k: int| end <= k < whole ==> ends_a_sentence(#[trigger] text[k]),
    ensures
        without_tail(text, from, whole) == end,
    decreases whole - end,
{
    if end < whole {
        assert(ends_a_sentence(text[whole - 1]));
        tail_goes(text, from, end, whole - 1);
    }
}

proof fn a_span_is_a_mention(text: Seq<char>, i: int)
    ensures
        span_at(text, i) is Some ==> is_mention(text, i, span_at(text, i)->0.end) && span_at(
            text,
            i,
        )->0.start == i && span_at(text, i)->0.handle == ascii_lower(
            text.subrange(i + 1, span_at(text, i)->0.end),
        ),
        forall|end: int| #[trigger]
            is_mention(text, i, end) ==> span_at(text, i) == Some(
                SpanView {
                    start: i,
                    end,
                    handle: ascii_lower(text.subrange(i + 1, end)),
                },
            ),
{
    if span_at(text, i) is Some {
        let span = span_at(text, i)->0;
        handle_end_is(text, i + 1);
        let whole = handle_end(text, i + 1);
        tail_is(text, i + 1, whole);
        assert(names_somebody(text, i, span.end, whole));
    }
    assert forall|end: int| #[trigger] is_mention(text, i, end) implies span_at(text, i) == Some(
        SpanView { start: i, end, handle: ascii_lower(text.subrange(i + 1, end)) },
    ) by {
        let whole = choose|whole: int| #[trigger] names_somebody(text, i, end, whole);
        handle_ends_at(text, i + 1, whole);
        tail_goes(text, i + 1, end, whole);
        let name = text.subrange(i + 1, end);
        assert forall|k: int| 0 <= k < name.len() implies handle_char(#[trigger] name[k]) by {
            assert(name[k] == text[i + 1 + k]);
            assert(in_a_handle(text[i + 1 + k]));
        }
    }
}

proof fn a_span_is_kept(text: Seq<char>, from: int, i: int)
    requires
        0 <= from <= i < text.len(),
        span_at(text, i) is Some,
    ensures
        spans_from(text, from).contains(span_at(text, i)->0),
    decreases i - from,
{
    let all = spans_from(text, from);
    let rest = spans_from(text, from + 1);
    if from == i {
        assert(all[0] == span_at(text, i)->0);
    } else {
        a_span_is_kept(text, from + 1, i);
        let k = choose|k: int| 0 <= k < rest.len() && rest[k] == span_at(text, i)->0;
        if span_at(text, from) is Some {
            assert(all[k + 1] == rest[k]);
        } else {
            assert(all[k] == rest[k]);
        }
    }
}

/// WHO IS MENTIONED: an `@` that belongs to no address, and the letters, digits,
/// dots, underscores and hyphens behind it, but for those that end the
/// sentence. The handle is what stands there, in small letters.
pub proof fn whoever_is_named_is_mentioned(text: Seq<char>, i: int, end: int)
    ensures
        is_mention(text, i, end) <==> spans_from(text, 0).contains(
            SpanView { start: i, end, handle: ascii_lower(text.subrange(i + 1, end)) },
        ),
{
    let span = SpanView { start: i, end, handle: ascii_lower(text.subrange(i + 1, end)) };
    a_span_is_a_mention(text, i);
    if is_mention(text, i, end) {
        a_span_is_kept(text, 0, i);
    }
    if spans_from(text, 0).contains(span) {
        spans_are_in_order(text, 0);
        let k = choose|k: int| 0 <= k < spans_from(text, 0).len() && spans_from(text, 0)[k] == span;
        assert(span_at(text, spans_from(text, 0)[k].start) == Some(span));
    }
}

proof fn choosing_keeps(spans: Seq<SpanView>, names: Seq<Seq<char>>, span: SpanView)
    ensures
        chosen(spans, names).contains(span) <==> spans.contains(span) && names.contains(
            span.handle,
        ),
    decreases spans.len(),
{
    let all = chosen(spans, names);
    if spans.len() > 0 {
        let front = spans.drop_last();
        let before = chosen(front, names);
        choosing_keeps(front, names, span);
        assert(spans[spans.len() - 1] == spans.last());
        if front.contains(span) {
            let k = choose|k: int| 0 <= k < front.len() && front[k] == span;
            assert(spans[k] == span);
        }
        if spans.contains(span) && !front.contains(span) {
            let k = choose|k: int| 0 <= k < spans.len() && spans[k] == span;
            if k < front.len() {
                assert(front[k] == span);
            }
        }
        if before.contains(span) {
            let k = choose|k: int| 0 <= k < before.len() && before[k] == span;
            assert(all[k] == span);
        }
        if all.contains(span) && !before.contains(span) {
            let k = choose|k: int| 0 <= k < all.len() && all[k] == span;
            if k < before.len() {
                assert(before[k] == span);
            }
        }
        if all.len() > before.len() {
            assert(all[before.len() as int] == spans.last());
        }
    }
}

proof fn choosing_keeps_order(spans: Seq<SpanView>, names: Seq<Seq<char>>)
    requires
        forall|k: int, l: int|
            0 <= k < l < spans.len() ==> (#[trigger] spans[k]).end <= (#[trigger] spans[l]).start,
    ensures
        forall|k: int, l: int|
            0 <= k < l < chosen(spans, names).len() ==> (#[trigger] chosen(spans, names)[k]).end
                <= (#[trigger] chosen(spans, names)[l]).start,
    decreases spans.len(),
{
    if spans.len() > 0 {
        let front = spans.drop_last();
        let before = chosen(front, names);
        let all = chosen(spans, names);
        assert forall|k: int, l: int| 0 <= k < l < front.len() implies (#[trigger] front[k]).end
            <= (#[trigger] front[l]).start by {
            assert(front[k] == spans[k] && front[l] == spans[l]);
        }
        choosing_keeps_order(front, names);
        assert forall|k: int, l: int| 0 <= k < l < all.len() implies (#[trigger] all[k]).end <= (
        #[trigger] all[l]).start by {
            assert(all[k] == before[k]);
            if l < before.len() {
                assert(all[l] == before[l]);
            } else {
                assert(before.contains(before[k]));
                choosing_keeps(front, names, before[k]);
                let j = choose|j: int| 0 <= j < front.len() && front[j] == before[k];
                assert(spans[j] == before[k]);
                assert(spans[spans.len() - 1] == spans.last());
            }
        }
    }
}

/// THE PAGE SAYS WHAT WAS WRITTEN, AND MARKS WHO IS MENTIONED: of a run of text
/// with marks in it a reader sees the run itself, character for character; and
/// the marks stand exactly where somebody on the list is mentioned, one behind
/// the other.
pub proof fn the_page_says_what_was_written(text: Seq<char>, names: Seq<Seq<char>>)
    requires
        showable(text),
    ensures
        ({
            let html = pieces_html(cut_up(text, chosen(spans_from(text, 0), names), 0));
            let marks = marks_seen(html, 0, None);
            &&& seen(html) == text
            &&& forall|i: int, end: int|
                #![trigger is_mention(text, i, end)]
                #![trigger marks.contains((i, end))]
                marks.contains((i, end)) <==> is_mention(text, i, end) && names.contains(
                    ascii_lower(text.subrange(i + 1, end)),
                )
            &&& forall|k: int, l: int|
                0 <= k < l < marks.len() ==> (#[trigger] marks[k]).1 <= (#[trigger] marks[l]).0
        }),
{
    let spans = spans_from(text, 0);
    let kept = chosen(spans, names);
    let html = pieces_html(cut_up(text, kept, 0));
    let marks = marks_seen(html, 0, None);
    spans_are_in_order(text, 0);
    choosing_keeps_order(spans, names);
    assert forall|k: int| 0 <= k < kept.len() implies 0 <= (#[trigger] kept[k]).start < kept[k].end
        <= text.len() && plain(text.subrange(kept[k].start, kept[k].end)) && span_at(
        text,
        kept[k].start,
    ) == Some(kept[k]) by {
        assert(kept.contains(kept[k]));
        choosing_keeps(spans, names, kept[k]);
        let j = choose|j: int| 0 <= j < spans.len() && spans[j] == kept[k];
        assert(span_at(text, spans[j].start) == Some(spans[j]));
        let i = kept[k].start;
        let end = kept[k].end;
        a_span_is_a_mention(text, i);
        let whole = choose|whole: int| #[trigger] names_somebody(text, i, end, whole);
        let name = text.subrange(i, end);
        assert forall|m: int| 0 <= m < name.len() implies (#[trigger] name[m]) != '<' && name[m]
            != '&' by {
            assert(name[m] == text[i + m]);
            if m > 0 {
                assert(in_a_handle(text[i + m]));
            }
        }
    }
    what_is_cut_up_is_read(text, kept, 0);
    assert(text.skip(0) =~= text);
    assert(marks == places(kept));
    assert forall|i: int, end: int|
        #![trigger is_mention(text, i, end)]
        #![trigger marks.contains((i, end))]
        marks.contains((i, end)) <==> is_mention(text, i, end) && names.contains(
            ascii_lower(text.subrange(i + 1, end)),
        ) by {
        let span = SpanView { start: i, end, handle: ascii_lower(text.subrange(i + 1, end)) };
        whoever_is_named_is_mentioned(text, i, end);
        choosing_keeps(spans, names, span);
        if kept.contains(span) {
            let k = choose|k: int| 0 <= k < kept.len() && kept[k] == span;
            assert(marks[k] == (i, end));
        }
        if marks.contains((i, end)) {
            let k = choose|k: int| 0 <= k < marks.len() && marks[k] == (i, end);
            assert(kept[k].start == i && kept[k].end == end);
            a_span_is_a_mention(text, i);
            assert(kept[k] == span);
            assert(kept.contains(span));
        }
    }
    assert forall|k: int, l: int| 0 <= k < l < marks.len() implies (#[trigger] marks[k]).1 <= (
    #[trigger] marks[l]).0 by {
        assert(kept[k].end <= kept[l].start);
    }
}

/// The text of a node, if it is one.
pub open spec fn own_text(node: NodeView) -> Seq<char> {
    match node.kind {
        KindView::Text(t) => t,
        _ => Seq::empty(),
    }
}

/// All the text of a document from `i` on.
pub open spec fn text_from(nodes: Seq<NodeView>, i: int) -> Seq<char>
    decreases nodes.len() - i,
{
    if 0 <= i < nodes.len() {
        own_text(nodes[i]) + text_from(nodes, i + 1)
    } else {
        Seq::empty()
    }
}

/// What a reader sees of a node: what was put in its place, or its own text.
pub open spec fn seen_at(nodes: Seq<NodeView>, names: Seq<Seq<char>>, i: int) -> Seq<char> {
    match edit_at(nodes, i, names) {
        Some(html) => seen(html),
        None => own_text(nodes[i]),
    }
}

/// What a reader sees of a document from `i` on.
pub open spec fn seen_from(nodes: Seq<NodeView>, names: Seq<Seq<char>>, i: int) -> Seq<char>
    decreases nodes.len() - i,
{
    if 0 <= i < nodes.len() {
        seen_at(nodes, names, i) + seen_from(nodes, names, i + 1)
    } else {
        Seq::empty()
    }
}

spec fn run_end(nodes: Seq<NodeView>, i: int) -> int
    decreases nodes.len() - i,
{
    if 0 <= i < nodes.len() && goes_on(nodes, i + 1) {
        run_end(nodes, i + 1)
    } else {
        i + 1
    }
}

/// The rest of a run, from `j` on.
proof fn a_run_goes_on(nodes: Seq<NodeView>, names: Seq<Seq<char>>, start: int, j: int)
    requires
        0 <= start <= j < nodes.len(),
        nodes[j].kind is Text,
        run_start(nodes, j) == start,
    ensures
        ({
            let end = run_end(nodes, j);
            &&& j < end <= nodes.len()
            &&& !goes_on(nodes, end)
            &&& text_from(nodes, j) == run_text(nodes, j) + text_from(nodes, end)
            &&& marks_at(nodes, start, names).len() == 0 ==> seen_from(nodes, names, j) == run_text(
                nodes,
                j,
            ) + seen_from(nodes, names, end)
            &&& marks_at(nodes, start, names).len() > 0 && j > start ==> seen_from(nodes, names, j)
                == seen_from(nodes, names, end)
        }),
    decreases nodes.len() - j,
{
    let end = run_end(nodes, j);
    let here = own_text(nodes[j]);
    assert(seen(Seq::empty()) =~= Seq::<char>::empty());
    if goes_on(nodes, j + 1) {
        assert(run_start(nodes, j + 1) == start);
        a_run_goes_on(nodes, names, start, j + 1);
        assert(here + (run_text(nodes, j + 1) + text_from(nodes, end)) =~= here + run_text(
            nodes,
            j + 1,
        ) + text_from(nodes, end));
        if marks_at(nodes, start, names).len() == 0 {
            assert(here + (run_text(nodes, j + 1) + seen_from(nodes, names, end)) =~= here
                + run_text(nodes, j + 1) + seen_from(nodes, names, end));
        } else if j > start {
            assert(seen_at(nodes, names, j) =~= Seq::<char>::empty());
            assert(Seq::<char>::empty() + seen_from(nodes, names, end) =~= seen_from(
                nodes,
                names,
                end,
            ));
        }
    } else {
        if marks_at(nodes, start, names).len() > 0 && j > start {
            assert(seen_at(nodes, names, j) =~= Seq::<char>::empty());
            assert(Seq::<char>::empty() + seen_from(nodes, names, end) =~= seen_from(
                nodes,
                names,
                end,
            ));
        }
    }
}

proof fn a_run_is_showable(nodes: Seq<NodeView>, i: int)
    requires
        0 <= i < nodes.len(),
        nodes[i].kind is Text,
        forall|k: int| 0 <= k < nodes.len() ==> showable(own_text(#[trigger] nodes[k])),
    ensures
        showable(run_text(nodes, i)),
    decreases nodes.len() - i,
{
    let here = own_text(nodes[i]);
    let all = run_text(nodes, i);
    assert(showable(own_text(nodes[i])));
    if goes_on(nodes, i + 1) {
        a_run_is_showable(nodes, i + 1);
        let rest = run_text(nodes, i + 1);
        assert forall|k: int| 0 <= k < all.len() implies (#[trigger] all[k]) != '\u{0}' by {
            if k < here.len() {
                assert(all[k] == here[k]);
            } else {
                assert(all[k] == rest[k - here.len()]);
            }
        }
    }
}

proof fn the_rest_reads_as_written(nodes: Seq<NodeView>, names: Seq<Seq<char>>, i: int)
    requires
        0 <= i <= nodes.len(),
        !goes_on(nodes, i),
        forall|k: int| 0 <= k < nodes.len() ==> showable(own_text(#[trigger] nodes[k])),
    ensures
        seen_from(nodes, names, i) == text_from(nodes, i),
    decreases nodes.len() - i,
{
    if i < nodes.len() {
        assert(run_start(nodes, i) == i);
        if nodes[i].kind is Text {
            let end = run_end(nodes, i);
            a_run_goes_on(nodes, names, i, i);
            the_rest_reads_as_written(nodes, names, end);
            if marks_at(nodes, i, names).len() > 0 {
                let run = run_text(nodes, i);
                a_run_is_showable(nodes, i);
                the_page_says_what_was_written(run, names);
                assert(seen_at(nodes, names, i) == run);
                if goes_on(nodes, i + 1) {
                    assert(run_start(nodes, i + 1) == i);
                    a_run_goes_on(nodes, names, i, i + 1);
                }
                assert(seen_from(nodes, names, i + 1) == seen_from(nodes, names, end));
            }
        } else {
            the_rest_reads_as_written(nodes, names, i + 1);
        }
    }
}

/// MARKING MENTIONS CHANGES NOTHING OF WHAT THERE IS TO READ: whoever is marked,
/// the document reads as it was written, from the first character to the last.
pub proof fn a_document_reads_as_it_was_written(nodes: Seq<NodeView>, names: Seq<Seq<char>>)
    requires
        forall|k: int| 0 <= k < nodes.len() ==> showable(own_text(#[trigger] nodes[k])),
    ensures
        seen_from(nodes, names, 0) == text_from(nodes, 0),
{
    the_rest_reads_as_written(nodes, names, 0);
}

/// Do the nodes from `i` up to `end` make one text? The parser may cut a text
/// in pieces; pieces next to each other at the same depth are one.
pub open spec fn one_text(nodes: Seq<NodeView>, i: int, end: int) -> bool {
    &&& 0 <= i < end <= nodes.len()
    &&& forall|k: int|
        i <= k < end ==> (#[trigger] nodes[k]).kind is Text && nodes[k].depth == nodes[i].depth
    &&& i > 0 ==> !(nodes[i - 1].kind is Text && nodes[i - 1].depth == nodes[i].depth)
    &&& end < nodes.len() ==> !(nodes[end].kind is Text && nodes[end].depth == nodes[i].depth)
}

/// What they say together.
pub open spec fn said_by(nodes: Seq<NodeView>, i: int, end: int) -> Seq<char>
    decreases end - i,
{
    if i < end {
        own_text(nodes[i]) + said_by(nodes, i + 1, end)
    } else {
        Seq::empty()
    }
}

/// Is a link or an image what the node is part of: is there one in front of it
/// that everything since then stands below?
pub open spec fn in_a_link(nodes: Seq<NodeView>, i: int) -> bool {
    exists|k: int|
        {
            &&& 0 <= k < i
            &&& (#[trigger] nodes[k]).kind is Link || nodes[k].kind is Image
            &&& forall|m: int| k < m <= i ==> nodes[k].depth < (#[trigger] nodes[m]).depth
        }
}

proof fn links_agree(nodes: Seq<NodeView>, i: int)
    ensures
        in_a_link(nodes, i) == inside_link(nodes, i),
{
    if in_a_link(nodes, i) {
        let k = choose|k: int|
            {
                &&& 0 <= k < i
                &&& (#[trigger] nodes[k]).kind is Link || nodes[k].kind is Image
                &&& forall|m: int| k < m <= i ==> nodes[k].depth < (#[trigger] nodes[m]).depth
            };
        assert(is_link_above(nodes, k, i));
    }
    if inside_link(nodes, i) {
        let k = choose|k: int| 0 <= k < i && #[trigger] is_link_above(nodes, k, i);
        assert(nodes[k].kind is Link || nodes[k].kind is Image);
    }
}

proof fn a_text_is_a_run(nodes: Seq<NodeView>, i: int, j: int, end: int)
    requires
        one_text(nodes, i, end),
        i <= j < end,
    ensures
        run_text(nodes, j) == said_by(nodes, j, end),
        run_start(nodes, j) == i,
    decreases end - j,
{
    starts_at(nodes, i, j, end);
    assert(nodes[j].kind is Text);
    if j + 1 < end {
        assert(nodes[j + 1].kind is Text && nodes[j + 1].depth == nodes[i].depth);
        a_text_is_a_run(nodes, i, j + 1, end);
    } else {
        assert(nodes[j].depth == nodes[i].depth);
        assert(!goes_on(nodes, end));
        assert(said_by(nodes, end, end) =~= Seq::<char>::empty());
        assert(own_text(nodes[j]) + Seq::<char>::empty() =~= own_text(nodes[j]));
    }
}

proof fn starts_at(nodes: Seq<NodeView>, i: int, j: int, end: int)
    requires
        one_text(nodes, i, end),
        i <= j < end,
    ensures
        run_start(nodes, j) == i,
    decreases j - i,
{
    assert(nodes[j].kind is Text && nodes[j].depth == nodes[i].depth);
    if j > i {
        assert(nodes[j - 1].kind is Text && nodes[j - 1].depth == nodes[i].depth);
        starts_at(nodes, i, j - 1, end);
    }
}

proof fn a_run_is_a_text(nodes: Seq<NodeView>, i: int) -> (end: int)
    requires
        begins_text(nodes, i),
    ensures
        one_text(nodes, i, end),
{
    let end = run_end(nodes, i);
    run_is_of_texts(nodes, i);
    assert(one_text(nodes, i, end));
    end
}

proof fn run_is_of_texts(nodes: Seq<NodeView>, i: int)
    requires
        0 <= i < nodes.len(),
        nodes[i].kind is Text,
    ensures
        ({
            let end = run_end(nodes, i);
            &&& i < end <= nodes.len()
            &&& forall|k: int|
                i <= k < end ==> (#[trigger] nodes[k]).kind is Text && nodes[k].depth
                    == nodes[i].depth
            &&& !goes_on(nodes, end)
        }),
    decreases nodes.len() - i,
{
    if goes_on(nodes, i + 1) {
        run_is_of_texts(nodes, i + 1);
    }
}

proof fn handles_are_of_mentions(nodes: Seq<NodeView>, from: int, handle: Seq<char>)
    requires
        0 <= from <= nodes.len(),
    ensures
        handles_from(nodes, from).contains(handle) <==> exists|i: int, p: int, q: int|
            from <= i < nodes.len() && is_prose(nodes, i) && #[trigger] is_named(
                run_text(nodes, i),
                p,
                q,
                handle,
            ),
    decreases nodes.len() - from,
{
    let all = handles_from(nodes, from);
    if from < nodes.len() {
        let rest = handles_from(nodes, from + 1);
        handles_are_of_mentions(nodes, from + 1, handle);
        let run = run_text(nodes, from);
        let spans = spans_from(run, 0);
        let here = handles_of(spans);
        if all.contains(handle) {
            let k = choose|k: int| 0 <= k < all.len() && all[k] == handle;
            if is_prose(nodes, from) && k < here.len() {
                let span = spans[k];
                spans_are_in_order(run, 0);
                assert(span_at(run, spans[k].start) == Some(spans[k]));
                a_span_is_a_mention(run, span.start);
                assert(is_named(run, span.start, span.end, handle));
            } else {
                let j = if is_prose(nodes, from) {
                    k - here.len()
                } else {
                    k
                };
                assert(rest[j] == handle);
                assert(rest.contains(handle));
                let (i, p, q) = choose|i: int, p: int, q: int|
                    from + 1 <= i < nodes.len() && is_prose(nodes, i) && #[trigger] is_named(
                        run_text(nodes, i),
                        p,
                        q,
                        handle,
                    );
                assert(is_named(run_text(nodes, i), p, q, handle));
            }
        }
        if exists|i: int, p: int, q: int|
            from <= i < nodes.len() && is_prose(nodes, i) && #[trigger] is_named(
                run_text(nodes, i),
                p,
                q,
                handle,
            ) {
            let (i, p, q) = choose|i: int, p: int, q: int|
                from <= i < nodes.len() && is_prose(nodes, i) && #[trigger] is_named(
                    run_text(nodes, i),
                    p,
                    q,
                    handle,
                );
            if i == from {
                whoever_is_named_is_mentioned(run, p, q);
                let span = SpanView { start: p, end: q, handle };
                let k = choose|k: int| 0 <= k < spans.len() && spans[k] == span;
                assert(here[k] == handle);
                assert(all[k] == handle);
            } else {
                assert(rest.contains(handle));
                let k = choose|k: int| 0 <= k < rest.len() && rest[k] == handle;
                if is_prose(nodes, from) {
                    assert(all[here.len() + k] == handle);
                } else {
                    assert(all[k] == handle);
                }
            }
        }
    }
}

/// Is this handle named from `p` up to `q`?
pub open spec fn is_named(text: Seq<char>, p: int, q: int, handle: Seq<char>) -> bool {
    is_mention(text, p, q) && handle == ascii_lower(text.subrange(p + 1, q))
}

/// WHOEVER IS NAMED IN THE PROSE OF A POST IS MENTIONED IN IT, and nobody else:
/// what stands in a link or an image is no mention, what the parser cut in two
/// is. Everybody is listed once.
pub proof fn whoever_is_named_in_prose_is_mentioned(nodes: Seq<NodeView>, handle: Seq<char>)
    ensures
        mentioned_in(nodes).contains(handle) <==> exists|i: int, end: int, p: int, q: int|
            one_text(nodes, i, end) && !in_a_link(nodes, i) && #[trigger] is_named(
                said_by(nodes, i, end),
                p,
                q,
                handle,
            ),
        mentioned_in(nodes).no_duplicates(),
{
    let all = handles_from(nodes, 0);
    each_once(all);
    handles_are_of_mentions(nodes, 0, handle);
    if all.contains(handle) {
        let (i, p, q) = choose|i: int, p: int, q: int|
            0 <= i < nodes.len() && is_prose(nodes, i) && #[trigger] is_named(
                run_text(nodes, i),
                p,
                q,
                handle,
            );
        let end = a_run_is_a_text(nodes, i);
        a_text_is_a_run(nodes, i, i, end);
        links_agree(nodes, i);
        assert(is_named(said_by(nodes, i, end), p, q, handle));
    }
    if exists|i: int, end: int, p: int, q: int|
        one_text(nodes, i, end) && !in_a_link(nodes, i) && #[trigger] is_named(
            said_by(nodes, i, end),
            p,
            q,
            handle,
        ) {
        let (i, end, p, q) = choose|i: int, end: int, p: int, q: int|
            one_text(nodes, i, end) && !in_a_link(nodes, i) && #[trigger] is_named(
                said_by(nodes, i, end),
                p,
                q,
                handle,
            );
        a_text_is_a_run(nodes, i, i, end);
        links_agree(nodes, i);
        assert(nodes[i].kind is Text);
        assert(is_prose(nodes, i));
        assert(is_named(run_text(nodes, i), p, q, handle));
    }
}

/// Where a text of a post is written anew, the marks in it are the mentions of
/// whoever is on the list; a text in a link or without such a mention stays as
/// it is.
pub proof fn a_text_is_marked_where_somebody_is_mentioned(
    nodes: Seq<NodeView>,
    names: Seq<Seq<char>>,
    i: int,
    end: int,
)
    requires
        one_text(nodes, i, end),
        forall|k: int| 0 <= k < nodes.len() ==> showable(own_text(#[trigger] nodes[k])),
    ensures
        ({
            let text = said_by(nodes, i, end);
            let somebody = exists|p: int, q: int|
                #[trigger] is_mention(text, p, q) && names.contains(
                    ascii_lower(text.subrange(p + 1, q)),
                );
            match edit_at(nodes, i, names) {
                Some(html) => {
                    &&& !in_a_link(nodes, i)
                    &&& somebody
                    &&& seen(html) == text
                    &&& forall|p: int, q: int|
                        marks_seen(html, 0, None).contains((p, q)) <==> #[trigger] is_mention(
                            text,
                            p,
                            q,
                        ) && names.contains(ascii_lower(text.subrange(p + 1, q)))
                },
                None => in_a_link(nodes, i) || !somebody,
            }
        }),
{
    let text = said_by(nodes, i, end);
    a_text_is_a_run(nodes, i, i, end);
    links_agree(nodes, i);
    assert(nodes[i].kind is Text);
    assert(!goes_on(nodes, i));
    a_run_is_showable(nodes, i);
    the_page_says_what_was_written(text, names);
    let kept = chosen(spans_from(text, 0), names);
    let html = pieces_html(cut_up(text, kept, 0));
    let marks = marks_seen(html, 0, None);
    if edit_at(nodes, i, names) is Some {
        let span = kept[0];
        assert(kept.contains(span));
        choosing_keeps(spans_from(text, 0), names, span);
        spans_are_in_order(text, 0);
        let j = choose|j: int| 0 <= j < spans_from(text, 0).len() && spans_from(text, 0)[j] == span;
        assert(span_at(text, spans_from(text, 0)[j].start) == Some(span));
        a_span_is_a_mention(text, span.start);
        assert(is_mention(text, span.start, span.end));
    } else if !in_a_link(nodes, i) {
        assert(is_prose(nodes, i));
        assert(kept.len() == 0);
        assert forall|p: int, q: int| #[trigger] is_mention(text, p, q) implies !names.contains(
            ascii_lower(text.subrange(p + 1, q)),
        ) by {
            let span = SpanView { start: p, end: q, handle: ascii_lower(text.subrange(p + 1, q)) };
            whoever_is_named_is_mentioned(text, p, q);
            choosing_keeps(spans_from(text, 0), names, span);
        }
    }
}

/// A handle is one to sixty-four letters, digits, dots, underscores and
/// hyphens, kept in small letters; nothing else is one.
pub proof fn what_a_handle_is(s: Seq<char>)
    ensures
        handle_of(s) is Some <==> 1 <= s.len() <= 64 && forall|i: int|
            0 <= i < s.len() ==> in_a_handle(#[trigger] s[i]),
        handle_of(s) is Some ==> handle_of(s)->0.len() == s.len() && forall|i: int|
            #![trigger handle_of(s)->0[i]]
            0 <= i < s.len() ==> if 'A' <= s[i] <= 'Z' {
                handle_of(s)->0[i] as int == s[i] as int + 32
            } else {
                handle_of(s)->0[i] == s[i]
            },
{
    assert forall|i: int| 0 <= i < s.len() implies (handle_char(#[trigger] s[i]) == in_a_handle(
        s[i],
    )) by {}
    if handle_of(s) is Some {
        assert forall|i: int| #![trigger handle_of(s)->0[i]] 0 <= i < s.len() implies if 'A' <= s[i]
            <= 'Z' {
            handle_of(s)->0[i] as int == s[i] as int + 32
        } else {
            handle_of(s)->0[i] == s[i]
        } by {
            small_letters(s, i);
        }
    } else if 1 <= s.len() <= 64 {
        let i = choose|i: int| 0 <= i < s.len() && !handle_char(#[trigger] s[i]);
        assert(!in_a_handle(s[i]));
    }
}

/// A picture comes from this instance or it does not come: the address of an
/// image is kept if it begins with a slash. Every other attribute of every
/// other element keeps its value.
pub proof fn a_picture_comes_from_here(
    element: Seq<char>,
    attribute: Seq<char>,
    value: Seq<char>,
)
    ensures
        !value_kept(element, attribute, value) <==> element == seq!['i', 'm', 'g'] && attribute
            == seq!['s', 'r', 'c'] && (value.len() == 0 || value[0] != '/'),
{
    reveal_strlit("img");
    reveal_strlit("src");
    assert("img"@ =~= seq!['i', 'm', 'g']);
    assert("src"@ =~= seq!['s', 'r', 'c']);
}

} // verus!
