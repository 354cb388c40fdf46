//! What is written in a file is what is shown.
use crate::articles::{
    article_in, articles_among, beginning, first_line, julian_day, line_length, looked_at,
    missing_among, published, skipped_among, split_text, value_of, without_breaks, written_date,
    ArticleView, File, Shown,
};
use crate::laws::text::{
    blank, no_place_at_all, solid, stripping_leaves_the_middle, the_first_place,
    trimming_leaves_the_middle,
};
use crate::text::{ends_with, place_of, starts_with, white};
use vstd::prelude::*;
use vstd::string::*;

verus! {

/// Does the text stay on one line?
pub open spec fn one_line(s: Seq<char>) -> bool {
    forall|i: int| 0 <= i < s.len() ==> (#[trigger] s[i]) != '\n'
}

/// The lines one below the other.
pub open spec fn joined(lines: Seq<Seq<char>>) -> Seq<char>
    decreases lines.len(),
{
    if lines.len() == 0 {
        Seq::empty()
    } else if lines.len() == 1 {
        lines[0]
    } else {
        lines[0] + seq!['\n'] + joined(lines.skip(1))
    }
}

/// The three hyphens that open the front matter, and close it.
pub open spec fn rule() -> Seq<char> {
    seq!['-', '-', '-']
}

/// A file with front matter: these lines between two rules, and the prose.
pub open spec fn file_of(lines: Seq<Seq<char>>, gap: Seq<char>, body: Seq<char>, end: Seq<char>) -> Seq<
    char,
> {
    rule() + seq!['\n'] + joined(lines) + seq!['\n'] + rule() + gap + body + end
}

/// Can these lines stand between the rules? Each is one line, none of them
/// closes the front matter, and the first of them is not blank.
pub open spec fn lines_fit(lines: Seq<Seq<char>>) -> bool {
    &&& lines.len() > 0
    &&& lines[0].len() > 0
    &&& lines[0][0] != '\r'
    &&& forall|i: int| 0 <= i < lines.len() ==> one_line(#[trigger] lines[i])
    &&& forall|i: int| 0 < i < lines.len() ==> !opens_with(#[trigger] lines[i], rule())
}

/// Does the text begin with this?
pub open spec fn opens_with(s: Seq<char>, start: Seq<char>) -> bool {
    exists|rest: Seq<char>| s == #[trigger] (start + rest)
}

/// Is it nothing but line breaks?
pub open spec fn breaks(s: Seq<char>) -> bool {
    forall|i: int| 0 <= i < s.len() ==> (#[trigger] s[i]) == '\n' || s[i] == '\r'
}

pub proof fn opening(s: Seq<char>, start: Seq<char>)
    ensures
        opens_with(s, start) == starts_with(s, start),
{
    if starts_with(s, start) {
        assert(s == start + s.skip(start.len() as int)) by {
            assert(s =~= s.take(start.len() as int) + s.skip(start.len() as int));
        }
    }
    if opens_with(s, start) {
        let rest = choose|rest: Seq<char>| s == #[trigger] (start + rest);
        assert(s.take(start.len() as int) =~= start);
    }
}

proof fn breaks_go(front: Seq<char>, rest: Seq<char>)
    requires
        breaks(front),
        rest.len() > 0 ==> rest[0] != '\n' && rest[0] != '\r',
    ensures
        without_breaks(front + rest) == rest,
    decreases front.len(),
{
    if front.len() > 0 {
        let shorter = front.skip(1);
        assert(front[0] == '\n' || front[0] == '\r');
        assert forall|i: int| 0 <= i < shorter.len() implies (#[trigger] shorter[i]) == '\n'
            || shorter[i] == '\r' by {
            assert(shorter[i] == front[i + 1]);
        }
        breaks_go(shorter, rest);
        assert((front + rest).skip(1) == shorter + rest);
        assert((front + rest)[0] == front[0]);
    } else {
        assert(front + rest == rest);
    }
}

proof fn line_ends(line: Seq<char>, rest: Seq<char>)
    requires
        one_line(line),
        rest.len() > 0 ==> rest[0] == '\n',
    ensures
        line_length(line + rest) == line.len(),
    decreases line.len(),
{
    let s = line + rest;
    if line.len() > 0 {
        assert(s[0] == line[0]);
        assert(line[0] != '\n');
        let shorter = line.skip(1);
        assert forall|i: int| 0 <= i < shorter.len() implies (#[trigger] shorter[i]) != '\n' by {
            assert(shorter[i] == line[i + 1]);
        }
        line_ends(shorter, rest);
        assert(s.skip(1) == shorter + rest);
    } else {
        assert(s == rest);
    }
}

proof fn no_rule_before(lines: Seq<Seq<char>>, tail: Seq<char>, p: int)
    requires
        lines.len() > 0,
        forall|i: int| 0 <= i < lines.len() ==> one_line(#[trigger] lines[i]),
        forall|i: int| 0 < i < lines.len() ==> !starts_with(#[trigger] lines[i], rule()),
        tail.len() > 0 ==> tail[0] == '\n',
        0 <= p < joined(lines).len(),
    ensures
        !starts_with((joined(lines) + tail).skip(p), seq!['\n'] + rule()),
    decreases lines.len(),
{
    let mark = seq!['\n'] + rule();
    let s = joined(lines) + tail;
    let line = lines[0];
    let here = s.skip(p);
    if starts_with(here, mark) {
        assert(here.take(4)[0] == mark[0]);
        assert(here.take(4)[1] == mark[1] && here.take(4)[2] == mark[2] && here.take(4)[3]
            == mark[3]);
        assert(s[p] == '\n' && s[p + 1] == '-' && s[p + 2] == '-' && s[p + 3] == '-');
        assert(one_line(lines[0]));
        if p < line.len() {
            assert(s[p] == line[p]);
        } else {
            assert(lines.len() > 1);
            let rest = lines.skip(1);
            let next = lines[1];
            assert(rest[0] == next);
            assert(one_line(lines[1]));
            assert(s == line + seq!['\n'] + (joined(rest) + tail));
            let after = joined(rest) + tail;
            assert(s.skip(line.len() as int + 1) == after);
            if p == line.len() {
                assert(after[0] == s[p + 1] && after[1] == s[p + 2] && after[2] == s[p + 3]);
                let behind = if rest.len() == 1 {
                    tail
                } else {
                    seq!['\n'] + joined(rest.skip(1)) + tail
                };
                assert(after == next + behind);
                assert(behind.len() > 0 ==> behind[0] == '\n');
                if next.len() < 3 {
                    assert(after[next.len() as int] == behind[0]);
                } else {
                    assert(next[0] == after[0] && next[1] == after[1] && next[2] == after[2]);
                    assert(next.take(3) =~= rule());
                }
                assert(!starts_with(lines[1], rule()));
            } else {
                assert forall|i: int| 0 <= i < rest.len() implies one_line(#[trigger] rest[i]) by {
                    assert(rest[i] == lines[i + 1]);
                }
                assert forall|i: int| 0 < i < rest.len() implies !starts_with(
                    #[trigger] rest[i],
                    rule(),
                ) by {
                    assert(rest[i] == lines[i + 1]);
                }
                let q = p - line.len() - 1;
                no_rule_before(rest, tail, q);
                assert(after.skip(q) == s.skip(p));
            }
        }
    }
}

/// The value in a list of lines: what follows the key in the first line that
/// begins with it, as far as trimming goes.
proof fn value_found(
    lines: Seq<Seq<char>>,
    key: Seq<char>,
    k: int,
    value: Seq<char>,
)
    requires
        0 <= k < lines.len(),
        forall|i: int| 0 <= i < lines.len() ==> one_line(#[trigger] lines[i]),
        forall|i: int|
            0 <= i < k ==> !starts_with(#[trigger] lines[i], key + seq![':']),
        lines[k] == key + seq![':'] + value,
    ensures
        ({
            let found = value_of(joined(lines), key + seq![':']);
            &&& found is Some
            &&& found->0 == value || (value.len() > 0 && value.last() == '\r' && found->0
                == value.drop_last())
        }),
    decreases lines.len(),
{
    let start = key + seq![':'];
    let s = joined(lines);
    let line = lines[0];
    let rest = lines.skip(1);
    let behind = if lines.len() == 1 {
        Seq::empty()
    } else {
        seq!['\n'] + joined(rest)
    };
    assert(s == line + behind);
    assert(one_line(lines[0]));
    line_ends(line, behind);
    let n = line.len() as int;
    assert(n > 0 ==> s[n - 1] == line[n - 1]);
    let cut = if 0 < n < s.len() && line[n - 1] == '\r' {
        line.drop_last()
    } else {
        line
    };
    assert(s.take(n) == line);
    assert(n > 0 ==> s.take(n - 1) == line.drop_last());
    assert(first_line(s) == cut);
    if k == 0 {
        assert(line.len() >= start.len());
        if cut != line {
            assert(line.last() == '\r');
            if value.len() == 0 {
                assert(line == start);
                assert(start.last() == ':');
            }
            assert(line.last() == value.last());
            assert(cut == start + value.drop_last());
            assert(cut.take(start.len() as int) == start);
            assert(cut.skip(start.len() as int) == value.drop_last());
        } else {
            assert(cut.take(start.len() as int) == start);
            assert(cut.skip(start.len() as int) == value);
        }
        assert(s.len() > 0);
    } else {
        assert(!starts_with(lines[0], start));
        if starts_with(cut, start) {
            assert(line.take(start.len() as int) =~= cut.take(start.len() as int));
        }
        assert(s.len() > 0);
        assert(n < s.len());
        assert(s.skip(n + 1) == joined(rest));
        assert forall|i: int| 0 <= i < rest.len() implies one_line(#[trigger] rest[i]) by {
            assert(rest[i] == lines[i + 1]);
        }
        assert forall|i: int| 0 <= i < k - 1 implies !starts_with(#[trigger] rest[i], start) by {
            assert(rest[i] == lines[i + 1]);
        }
        value_found(rest, key, k - 1, value);
    }
}

proof fn no_value_found(lines: Seq<Seq<char>>, key: Seq<char>)
    requires
        forall|i: int| 0 <= i < lines.len() ==> one_line(#[trigger] lines[i]),
        forall|i: int| 0 <= i < lines.len() ==> !starts_with(#[trigger] lines[i], key + seq![':']),
    ensures
        value_of(joined(lines), key + seq![':']) is None,
    decreases lines.len(),
{
    let start = key + seq![':'];
    let s = joined(lines);
    if s.len() > 0 {
        let line = lines[0];
        let rest = lines.skip(1);
        let behind = if lines.len() == 1 {
            Seq::empty()
        } else {
            seq!['\n'] + joined(rest)
        };
        assert(s == line + behind);
        assert(one_line(lines[0]));
        line_ends(line, behind);
        let n = line.len() as int;
        assert(s.take(n) == line);
        assert(n > 0 ==> s.take(n - 1) == line.drop_last());
        assert(!starts_with(lines[0], start));
        if starts_with(first_line(s), start) {
            assert(line.take(start.len() as int) =~= first_line(s).take(start.len() as int));
        }
        if n < s.len() {
            assert(s.skip(n + 1) == joined(rest));
            assert forall|i: int| 0 <= i < rest.len() implies one_line(#[trigger] rest[i]) by {
                assert(rest[i] == lines[i + 1]);
            }
            assert forall|i: int| 0 <= i < rest.len() implies !starts_with(
                #[trigger] rest[i],
                start,
            ) by {
                assert(rest[i] == lines[i + 1]);
            }
            no_value_found(rest, key);
        }
    }
}

/// Where the front matter of such a file ends.
proof fn file_taken_apart(
    lines: Seq<Seq<char>>,
    gap: Seq<char>,
    body: Seq<char>,
    end: Seq<char>,
)
    requires
        lines_fit(lines),
    ensures
        ({
            let text = file_of(lines, gap, body, end);
            let rest = without_breaks(text.skip(3));
            let at = joined(lines).len() as int;
            &&& starts_with(text, "---"@)
            &&& place_of(rest, "\n---"@) == Some(at)
            &&& rest.take(at) == joined(lines)
            &&& rest.skip(at + 4) == gap + body + end
        }),
{
    let text = file_of(lines, gap, body, end);
    let head = joined(lines);
    let mark = seq!['\n'] + rule();
    reveal_strlit("---");
    reveal_strlit("\n---");
    assert("---"@ =~= rule());
    assert("\n---"@ =~= mark);
    let tail = mark + gap + body + end;
    assert(text.take(3) =~= rule());
    assert(text.skip(3) =~= seq!['\n'] + (head + tail));
    assert(one_line(lines[0]));
    assert(lines[0][0] != '\n');
    assert((head + tail)[0] == lines[0][0]);
    breaks_go(seq!['\n'], head + tail);
    let rest = head + tail;
    assert forall|i: int| 0 < i < lines.len() implies !starts_with(#[trigger] lines[i], rule()) by {
        opening(lines[i], rule());
    }
    assert forall|p: int| 0 <= p < head.len() implies !starts_with(#[trigger] rest.skip(p), mark) by {
        no_rule_before(lines, tail, p);
    }
    assert(rest.skip(head.len() as int) =~= tail);
    assert(tail.take(4) =~= mark);
    the_first_place(rest, mark, head.len() as int);
    assert(rest.take(head.len() as int) =~= head);
    assert(rest.skip(head.len() as int + 4) =~= gap + body + end);
}

/// WHAT IS WRITTEN IN A FILE IS WHAT IS SHOWN: the title is what stands behind
/// the key in the first line that has it, without the quotes and the space
/// round it, whatever other lines there are; and the prose is everything behind
/// the second rule, to the end of the file, without the space round it.
pub proof fn a_file_is_read_whole(
    lines: Seq<Seq<char>>,
    key: Seq<char>,
    k: int,
    left: Seq<char>,
    quotes: Seq<char>,
    title: Seq<char>,
    closing: Seq<char>,
    right: Seq<char>,
    gap: Seq<char>,
    body: Seq<char>,
    end: Seq<char>,
)
    requires
        lines_fit(lines),
        0 <= k < lines.len(),
        forall|i: int| 0 <= i < k ==> !opens_with(#[trigger] lines[i], key + seq![':']),
        lines[k] == key + seq![':'] + (left + quotes + title + closing + right),
        blank(left),
        blank(right),
        forall|i: int| 0 <= i < quotes.len() ==> (#[trigger] quotes[i]) == '"',
        forall|i: int| 0 <= i < closing.len() ==> (#[trigger] closing[i]) == '"',
        solid(title),
        title[0] != '"',
        title.last() != '"',
        breaks(gap),
        solid(body),
        blank(end),
    ensures
        split_text(file_of(lines, gap, body, end), key) == Some((title, body)),
{
    let text = file_of(lines, gap, body, end);
    file_taken_apart(lines, gap, body, end);
    reveal_strlit(":");
    assert(":"@ =~= seq![':']);
    let value = left + quotes + title + closing + right;
    assert forall|i: int| 0 <= i < k implies !starts_with(#[trigger] lines[i], key + seq![':']) by {
        opening(lines[i], key + seq![':']);
    }
    value_found(lines, key, k, value);
    let found = value_of(joined(lines), key + seq![':'])->0;
    let middle = quotes + title + closing;
    assert(middle[0] == if quotes.len() > 0 {
        quotes[0]
    } else {
        title[0]
    });
    assert(middle.last() == if closing.len() > 0 {
        closing[closing.len() - 1]
    } else {
        title.last()
    });
    assert(solid(middle));
    assert(value == left + middle + right);
    if found == value {
        trimming_leaves_the_middle(left, middle, right);
    } else {
        assert(white('\r'));
        assert(right.len() > 0) by {
            if right.len() == 0 {
                assert(value.last() == middle.last());
            }
        }
        let shorter = right.drop_last();
        assert forall|i: int| 0 <= i < shorter.len() implies white(#[trigger] shorter[i]) by {
            assert(shorter[i] == right[i]);
        }
        assert(value.drop_last() == left + middle + shorter);
        trimming_leaves_the_middle(left, middle, shorter);
    }
    stripping_leaves_the_middle(quotes, title, closing, '"');
    assert(!white(body[0]));
    assert(gap + body + end == gap + (body + end));
    assert((body + end)[0] == body[0]);
    breaks_go(gap, body + end);
    assert(Seq::<char>::empty() + body + end == body + end);
    trimming_leaves_the_middle(Seq::empty(), body, end);
}

/// What was written down under a title is read under that title, to the last
/// paragraph.
pub proof fn what_is_written_is_read(key: Seq<char>, title: Seq<char>, body: Seq<char>)
    requires
        one_line(key),
        key.len() > 0 ==> key[0] != '\r',
        one_line(title),
        solid(title),
        forall|i: int| 0 <= i < title.len() ==> (#[trigger] title[i]) != '"',
        solid(body),
    ensures
        split_text(
            "---\n"@ + key + ": "@ + title + "\n---\n\n"@ + body + "\n"@,
            key,
        ) == Some((title, body)),
{
    reveal_strlit("---\n");
    reveal_strlit(": ");
    reveal_strlit("\n---\n\n");
    reveal_strlit("\n");
    let none = Seq::<char>::empty();
    let gap = seq!['\n', '\n'];
    let end = seq!['\n'];
    let line = key + seq![':'] + (seq![' '] + none + title + none + none);
    let lines = seq![line];
    assert(joined(lines) == line);
    assert(lines[0] == line);
    assert forall|i: int| 0 <= i < line.len() implies (#[trigger] line[i]) != '\n' by {
        if i < key.len() {
            assert(line[i] == key[i]);
        } else if i >= key.len() + 2 {
            assert(line[i] == title[i - key.len() - 2]);
        }
    }
    assert(title[0] != '"' && title[title.len() - 1] != '"');
    assert(line[0] == if key.len() > 0 {
        key[0]
    } else {
        ':'
    });
    assert(white(' ') && white('\n'));
    a_file_is_read_whole(lines, key, 0, seq![' '], none, title, none, none, gap, body, end);
    assert("---\n"@ + key + ": "@ + title + "\n---\n\n"@ + body + "\n"@ =~= file_of(
        lines,
        gap,
        body,
        end,
    ));
}

/// Without the key among the lines there is no article.
pub proof fn without_a_title_there_is_no_article(
    lines: Seq<Seq<char>>,
    key: Seq<char>,
    gap: Seq<char>,
    body: Seq<char>,
    end: Seq<char>,
)
    requires
        lines_fit(lines),
        forall|i: int| 0 <= i < lines.len() ==> !opens_with(#[trigger] lines[i], key + seq![':']),
    ensures
        split_text(file_of(lines, gap, body, end), key) is None,
{
    file_taken_apart(lines, gap, body, end);
    reveal_strlit(":");
    assert(":"@ =~= seq![':']);
    assert forall|i: int| 0 <= i < lines.len() implies !starts_with(
        #[trigger] lines[i],
        key + seq![':'],
    ) by {
        opening(lines[i], key + seq![':']);
    }
    no_value_found(lines, key);
}

/// A text that does not open with a rule, or has no second one at the start of
/// a line, is no article.
pub proof fn without_two_rules_there_is_no_article(text: Seq<char>, key: Seq<char>)
    requires
        !opens_with(text, rule()) || forall|i: int|
            3 <= i <= text.len() ==> !opens_with(#[trigger] text.skip(i), seq!['\n'] + rule()),
    ensures
        split_text(text, key) is None,
{
    reveal_strlit("---");
    reveal_strlit("\n---");
    assert("---"@ =~= rule());
    assert("\n---"@ =~= seq!['\n'] + rule());
    opening(text, rule());
    if starts_with(text, rule()) {
        let rest = without_breaks(text.skip(3));
        let n = skipped_breaks(text.skip(3));
        assert forall|i: int| 0 <= i <= rest.len() implies !starts_with(
            #[trigger] rest.skip(i),
            "\n---"@,
        ) by {
            assert(rest.skip(i) == text.skip(3 + n + i));
            opening(text.skip(3 + n + i), seq!['\n'] + rule());
        }
        no_place_at_all(rest, "\n---"@);
    }
}

proof fn skipped_breaks(s: Seq<char>) -> (n: int)
    ensures
        0 <= n <= s.len(),
        without_breaks(s) == s.skip(n),
    decreases s.len(),
{
    if s.len() > 0 && (s[0] == '\r' || s[0] == '\n') {
        let n = skipped_breaks(s.skip(1));
        assert(s.skip(1).skip(n) == s.skip(n + 1));
        n + 1
    } else {
        assert(s.skip(0) == s);
        0
    }
}

/// The name of a Markdown file.
pub open spec fn markdown_file(stem: Seq<char>) -> Seq<char> {
    stem + seq!['.', 'm', 'd']
}

/// Is it the name of a Markdown file?
pub open spec fn is_markdown(name: Seq<char>) -> bool {
    exists|stem: Seq<char>| name == #[trigger] markdown_file(stem)
}

/// The name of a file with a date in front.
pub open spec fn dated(date: Seq<char>, name: Seq<char>) -> Seq<char> {
    markdown_file(date + seq!['-'] + name)
}

/// `YYYY-MM-DD-<name>.md` is published at midnight of the day in front, counted
/// in seconds from the first of January 1970, which is day 2440588.
pub proof fn a_file_is_dated_by_its_name(date: Seq<char>, name: Seq<char>)
    requires
        date.len() == 10,
    ensures
        published(dated(date, name)) == match julian_day(
            date,
            "[year]-[month]-[day]"@,
        ) {
            Some(day) => Some(((day - 2440588) * 86400) as i64),
            None => None,
        },
{
    let whole = dated(date, name);
    reveal_strlit(".md");
    assert(".md"@ =~= seq!['.', 'm', 'd']);
    assert(whole.skip(whole.len() - 3) =~= seq!['.', 'm', 'd']);
    let stem = whole.take(whole.len() - 3);
    assert(stem[10] == '-');
    assert(stem.take(10) =~= date);
}

/// Any other name has no date, and so no article.
pub proof fn any_other_name_has_no_date(name: Seq<char>)
    requires
        forall|date: Seq<char>, rest: Seq<char>|
            date.len() == 10 ==> name != #[trigger] dated(date, rest),
    ensures
        published(name) is None,
{
    reveal_strlit(".md");
    assert(".md"@ =~= seq!['.', 'm', 'd']);
    if written_date(name) is Some {
        let date = name.take(10);
        let rest = name.subrange(11, name.len() - 3);
        assert(name.skip(name.len() - 3) =~= seq!['.', 'm', 'd']);
        assert(name.take(name.len() - 3)[10] == name[10]);
        assert(name =~= dated(date, rest));
    }
}

/// Does the file hold this article, and is its day here?
pub open spec fn holds(file: File, key: Seq<char>, today: i64, article: ArticleView) -> bool {
    &&& file.text is Some
    &&& split_text(file.text->0@, key) == Some((article.title, article.body))
    &&& published(file.name@) == Some(article.published_at)
    &&& article.key == file.name@
    &&& article.published_at <= today
}

/// What is shown is what the files hold whose day is here, each under the name
/// of its file, and every such file is shown.
pub proof fn every_file_whose_day_is_here_is_shown(
    files: Seq<File>,
    key: Seq<char>,
    today: i64,
    article: ArticleView,
)
    ensures
        articles_among(files, key, today).contains(article) <==> exists|k: int|
            0 <= k < files.len() && #[trigger] holds(files[k], key, today, article),
    decreases files.len(),
{
    let all = articles_among(files, key, today);
    if files.len() > 0 {
        let front = files.drop_last();
        let before = articles_among(front, key, today);
        let last = files.last();
        every_file_whose_day_is_here_is_shown(front, key, today, article);
        if before.contains(article) {
            let i = choose|i: int| 0 <= i < before.len() && before[i] == article;
            assert(all[i] == article);
            let k = choose|k: int|
                0 <= k < front.len() && #[trigger] holds(front[k], key, today, article);
            assert(holds(files[k], key, today, article));
        }
        if all.contains(article) && !before.contains(article) {
            let i = choose|i: int| 0 <= i < all.len() && all[i] == article;
            if i < before.len() {
                assert(before[i] == article);
            }
            assert(holds(files[files.len() - 1], key, today, article));
        }
        if exists|k: int| 0 <= k < files.len() && #[trigger] holds(files[k], key, today, article) {
            let k = choose|k: int|
                0 <= k < files.len() && #[trigger] holds(files[k], key, today, article);
            if k < front.len() {
                assert(holds(front[k], key, today, article));
            } else {
                assert(published(last.name@) is Some);
                reveal_strlit(".md");
                assert(looked_at(last));
                assert(article_in(last, key) == Some(article));
                assert(all[before.len() as int] == article);
            }
        }
    }
}

/// No two entries for one file: there are no more articles than files.
pub proof fn no_more_articles_than_files(files: Seq<File>, key: Seq<char>, today: i64)
    ensures
        articles_among(files, key, today).len() + skipped_among(files, key) <= files.len(),
    decreases files.len(),
{
    if files.len() > 0 {
        no_more_articles_than_files(files.drop_last(), key, today);
    }
}

/// A file is passed over when its name ends in `.md` and there is no article in
/// it: no date, no text that can be read, or no title.
pub proof fn what_is_passed_over_is_counted(files: Seq<File>, file: File, key: Seq<char>)
    ensures
        skipped_among(Seq::empty(), key) == 0,
        skipped_among(files.push(file), key) == skipped_among(files, key) + if is_markdown(
            file.name@,
        ) && (published(file.name@) is None || file.text is None || split_text(
            file.text->0@,
            key,
        ) is None) {
            1nat
        } else {
            0nat
        },
{
    reveal_strlit(".md");
    assert(".md"@ =~= seq!['.', 'm', 'd']);
    assert(files.push(file).drop_last() == files);
    let name = file.name@;
    if ends_with(name, ".md"@) {
        assert(name =~= markdown_file(name.take(name.len() - 3))) by {
            assert(name =~= name.take(name.len() - 3) + name.skip(name.len() - 3));
        }
    }
    if is_markdown(name) {
        let stem = choose|stem: Seq<char>| name == #[trigger] markdown_file(stem);
        assert(name.skip(name.len() - 3) =~= seq!['.', 'm', 'd']);
    }
}

/// A day that is none never begins, so that nothing is held back by it.
pub proof fn a_day_begins_at_its_midnight(day: Seq<char>)
    ensures
        beginning(day) == match julian_day(day, "[year]-[month]-[day]"@) {
            Some(n) => ((n - 2440588) * 86400) as i64,
            None => 0x7FFF_FFFF_FFFF_FFFFi64,
        },
{
}

/// The topics whose file is gone are hidden, in their order, and no other.
pub proof fn one_more_topic(shown: Seq<Shown>, one: Shown, present: Seq<Seq<char>>)
    ensures
        missing_among(Seq::empty(), present) == Seq::<i64>::empty(),
        present.contains(one.source_key@) ==> missing_among(shown.push(one), present)
            == missing_among(shown, present),
        !present.contains(one.source_key@) ==> missing_among(shown.push(one), present)
            == missing_among(shown, present).push(one.id),
{
    assert(shown.push(one).drop_last() == shown);
}

} // verus!
