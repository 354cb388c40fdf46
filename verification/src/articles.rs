//! Articles that are written somewhere else.
//!
//! A directory of `YYYY-MM-DD-<name>.md` files with a title in their front
//! matter becomes topics. The direction is one-way and the files win: they
//! decide the title and the body, the database keeps the comments underneath.
//! That asymmetry is the whole design: an article is opened by a commit, a
//! comment by a person, and neither should be able to destroy the other.
use crate::authz::{listed, Identity};
use crate::config::Space;
use crate::text::{
    begins, chars, ends, ends_with, find_text, found_fits, place_of, slice_string, starts_with,
    strip_bounds, stripped, texts, trim_bounds, trimmed,
};
use vstd::prelude::*;
use vstd::string::*;

verus! {

/// What one run did. Returned rather than logged, so a caller can say
/// something useful and a test can look at it.
#[derive(Debug, Clone, Copy, Default, PartialEq, Eq, Structural)]
pub struct Mirrored {
    pub mirrored: usize,
    pub hidden: usize,
    pub skipped: usize,
}

/// The subject an article is stored under.
pub const ARTICLE_SUBJECT: &'static str = "treff:article";

/// The author an article is stored under. It is not a person: nobody signs in
/// as this, and `may_modify` compares subjects, so no account can edit an
/// article through the web, which is exactly right, because the file decides.
pub fn article_author() -> (r: Identity)
    ensures
        r@.subject == ARTICLE_SUBJECT@,
        r@.name == "treff"@,
        r@.groups.len() == 0,
        r@.email is None,
        r@.handle is None,
{
    Identity {
        subject: ARTICLE_SUBJECT.to_owned(),
        name: "treff".to_owned(),
        groups: Vec::new(),
        email: None,
        handle: None,
    }
}

/// The form of a date in a file's name.
pub const DATE_FORM: &'static str = "[year]-[month]-[day]";

/// The Julian day number of the date that this text is in this form, if it is
/// one that exists.
pub uninterp spec fn julian_day(text: Seq<char>, form: Seq<char>) -> Option<i32>;

/// `time::Date::parse` with the format description that
/// `time::format_description::parse` reads from `form`, and the day number of
/// the date that comes out. The answer depends on the two texts alone.
#[verifier::external_body]
fn parse_day(text: &str, form: &str) -> (r: Option<i32>)
    ensures
        r == julian_day(text@, form@),
{
    let items = time::format_description::parse(form).ok()?;
    let date = time::Date::parse(text, &items).ok()?;
    Some(date.to_julian_day())
}

/// The Julian day number of the first of January 1970.
pub const EPOCH_DAY: i64 = 2440588;

pub const DAY_SECONDS: i64 = 86400;

/// Midnight UTC of a day, in Unix seconds.
pub open spec fn midnight_of(day: Option<i32>) -> Option<i64> {
    match day {
        Some(day) => Some(((day - EPOCH_DAY) * DAY_SECONDS) as i64),
        None => None,
    }
}

/// Midnight UTC of the day with this Julian number.
pub fn midnight(day: i32) -> (r: i64)
    ensures
        r == (day - EPOCH_DAY) * DAY_SECONDS,
        Some(r) == midnight_of(Some(day)),
{
    (day as i64 - EPOCH_DAY) * DAY_SECONDS
}

/// How long a date is in a file's name.
pub const DATE_CHARS: usize = 10;

/// The date in a file's name, as it is written there.
pub open spec fn written_date(name: Seq<char>) -> Option<Seq<char>> {
    let stem = name.take(name.len() - 3);
    if !ends_with(name, ".md"@) {
        None
    } else if stem.len() <= DATE_CHARS || stem[DATE_CHARS as int] != '-' {
        None
    } else {
        Some(stem.take(DATE_CHARS as int))
    }
}

/// The date in a file's name, as it is written there, or nothing where no date
/// can stand.
pub fn date_in(name: &str) -> (r: Option<String>)
    ensures
        match r {
            Some(date) => written_date(name@) == Some(date@),
            None => written_date(name@) is None,
        },
{
    let all = chars(name);
    let end = chars(".md");
    proof {
        reveal_strlit(".md");
    }
    if !ends(&all, &end) {
        return None;
    }
    let stem: usize = all.len() - 3;
    if stem <= DATE_CHARS || all[DATE_CHARS] != '-' {
        return None;
    }
    assert(name@.take(name@.len() - 3).take(DATE_CHARS as int) == name@.subrange(
        0,
        DATE_CHARS as int,
    ));
    Some(slice_string(&all, 0, DATE_CHARS))
}

/// `YYYY-MM-DD-<name>.md`: midnight UTC of the date in front, and only if it is
/// a date that exists. `2026-13-45` looks like one and is not.
pub open spec fn published(name: Seq<char>) -> Option<i64> {
    match written_date(name) {
        Some(date) => midnight_of(julian_day(date, DATE_FORM@)),
        None => None,
    }
}

/// The date part of a file's name and its midnight, if there is one.
pub fn date_of(name: &str) -> (r: Option<(String, i64)>)
    ensures
        match r {
            Some((date, at)) => written_date(name@) == Some(date@) && published(name@) == Some(at),
            None => published(name@) is None,
        },
{
    let date = match date_in(name) {
        Some(date) => date,
        None => {
            return None;
        },
    };
    match parse_day(&date, DATE_FORM) {
        Some(day) => Some((date, midnight(day))),
        None => None,
    }
}

/// When a day begins; a day that is none begins never.
pub open spec fn beginning(day: Seq<char>) -> i64 {
    match midnight_of(julian_day(day, DATE_FORM@)) {
        Some(at) => at,
        None => i64::MAX,
    }
}

pub fn day_start(day: &str) -> (r: i64)
    ensures
        r == beginning(day@),
{
    match parse_day(day, DATE_FORM) {
        Some(day) => midnight(day),
        None => i64::MAX,
    }
}

/// The text without the line breaks in front.
pub open spec fn without_breaks(s: Seq<char>) -> Seq<char>
    decreases s.len(),
{
    if s.len() > 0 && (s[0] == '\r' || s[0] == '\n') {
        without_breaks(s.skip(1))
    } else {
        s
    }
}

fn skip_breaks(s: &[char], from: usize) -> (r: usize)
    requires
        from <= s@.len(),
    ensures
        from <= r <= s@.len(),
        s@.skip(r as int) == without_breaks(s@.skip(from as int)),
{
    let mut at: usize = from;
    while at < s.len() && (s[at] == '\r' || s[at] == '\n')
        invariant
            from <= at <= s@.len(),
            without_breaks(s@.skip(at as int)) == without_breaks(s@.skip(from as int)),
        decreases s@.len() - at,
    {
        assert(s@.skip(at as int)[0] == s@[at as int]);
        assert(s@.skip(at as int).skip(1) == s@.skip(at + 1));
        at += 1;
    }
    assert(at < s@.len() ==> s@.skip(at as int)[0] == s@[at as int]);
    at
}

/// How many characters there are before the first line break.
pub open spec fn line_length(s: Seq<char>) -> int
    decreases s.len(),
{
    if s.len() == 0 || s[0] == '\n' {
        0
    } else {
        1 + line_length(s.skip(1))
    }
}

/// The first line of a text, without its break.
pub open spec fn first_line(s: Seq<char>) -> Seq<char> {
    let n = line_length(s);
    if 0 < n < s.len() && s[n - 1] == '\r' {
        s.take(n - 1)
    } else {
        s.take(n)
    }
}

/// What follows `start` in the first line that begins with it.
pub open spec fn value_of(s: Seq<char>, start: Seq<char>) -> Option<Seq<char>>
    decreases s.len(),
{
    let n = line_length(s);
    if s.len() == 0 {
        None
    } else if starts_with(first_line(s), start) {
        Some(first_line(s).skip(start.len() as int))
    } else if 0 <= n < s.len() {
        value_of(s.skip(n + 1), start)
    } else {
        None
    }
}

proof fn line_length_is(s: Seq<char>, n: int)
    requires
        0 <= n <= s.len(),
        forall|i: int| 0 <= i < n ==> (#[trigger] s[i]) != '\n',
        n < s.len() ==> s[n] == '\n',
    ensures
        line_length(s) == n,
    decreases s.len(),
{
    if n > 0 {
        assert(s[0] != '\n');
        let rest = s.skip(1);
        assert forall|i: int| 0 <= i < n - 1 implies (#[trigger] rest[i]) != '\n' by {
            assert(rest[i] == s[i + 1]);
        }
        line_length_is(rest, n - 1);
    }
}

/// Finds what follows `start` in the first line that begins with it.
fn find_value(s: &[char], start: &[char]) -> (r: Option<Vec<char>>)
    ensures
        match r {
            Some(value) => value_of(s@, start@) == Some(value@),
            None => value_of(s@, start@) is None,
        },
{
    let ghost all = s@;
    let size: usize = s.len();
    let mut at: usize = 0;
    assert(all.skip(0) == all);
    while at < size
        invariant
            at <= size == s@.len(),
            all == s@,
            value_of(all, start@) == value_of(all.skip(at as int), start@),
        decreases s@.len() - at,
    {
        let ghost rest = all.skip(at as int);
        let mut end: usize = at;
        while end < size && s[end] != '\n'
            invariant
                at <= end <= size == s@.len(),
                all == s@,
                rest == all.skip(at as int),
                forall|i: int| 0 <= i < end - at ==> (#[trigger] rest[i]) != '\n',
            decreases s@.len() - end,
        {
            assert(rest[end - at] == s@[end as int]);
            end += 1;
        }
        proof {
            if end < s@.len() {
                assert(rest[end - at] == s@[end as int]);
            }
            line_length_is(rest, end - at);
        }
        let mut stop: usize = end;
        if at < end && end < size && s[end - 1] == '\r' {
            stop = end - 1;
        }
        proof {
            if at < end {
                assert(rest[end - at - 1] == s@[end - 1]);
            }
            assert(first_line(rest) == all.subrange(at as int, stop as int));
        }
        if begins(&s[at..stop], start) {
            let mut value: Vec<char> = Vec::new();
            value.extend_from_slice(&s[at + start.len()..stop]);
            assert(value@ == first_line(rest).skip(start@.len() as int));
            return Some(value);
        }
        if end < size {
            assert(rest.skip(end - at + 1) == all.skip(end + 1));
            at = end + 1;
        } else {
            return None;
        }
    }
    assert(all.skip(at as int).len() == 0);
    None
}

/// The title and the prose of a text with front matter. One mark closes the
/// front matter: prose that opens with a rule keeps it.
pub open spec fn split_text(text: Seq<char>, title_key: Seq<char>) -> Option<
    (Seq<char>, Seq<char>),
> {
    let rest = without_breaks(text.skip(3));
    let end = place_of(rest, "\n---"@);
    if !starts_with(text, "---"@) || end is None {
        None
    } else {
        match value_of(rest.take(end->0), title_key + ":"@) {
            Some(value) => {
                let title = stripped(trimmed(value), '"');
                if title.len() == 0 {
                    None
                } else {
                    Some(
                        (title, trimmed(without_breaks(rest.skip(end->0 + 4)))),
                    )
                }
            },
            None => None,
        }
    }
}

/// Front matter between two `---` lines, then the prose. Only the title is
/// read here, under `title_key`; other keys belong to whatever else consumes
/// these files and are ignored rather than rejected.
pub fn split_front_matter(text: &str, title_key: &str) -> (r: Option<(String, String)>)
    ensures
        match r {
            Some((title, body)) => split_text(text@, title_key@) == Some((title@, body@)),
            None => split_text(text@, title_key@) is None,
        },
{
    let all = chars(text);
    let open = chars("---");
    let close = chars("\n---");
    proof {
        reveal_strlit("---");
    }
    if !begins(&all, &open) {
        return None;
    }
    let from: usize = skip_breaks(&all, 3);
    let ghost rest = all@.skip(from as int);
    assert(all@.subrange(from as int, all@.len() as int) == rest);
    let end: usize = match find_text(&all[from..all.len()], &close) {
        Some(end) => end,
        None => {
            return None;
        },
    };
    let key = chars(&title_key.to_owned().concat(":"));
    assert(rest.take(end as int) == all@.subrange(from as int, from + end));
    let value = match find_value(&all[from..from + end], &key) {
        Some(value) => value,
        None => {
            return None;
        },
    };
    let (a, b) = trim_bounds(&value);
    let (c, d) = strip_bounds(&value[a..b], '"');
    if c == d {
        return None;
    }
    let ghost inner = value@.subrange(a as int, b as int);
    assert(inner.subrange(c as int, d as int) == value@.subrange(a + c, a + d));
    let title = slice_string(&value, a + c, a + d);
    proof {
        reveal_strlit("\n---");
        found_fits(rest, close@);
    }
    assert(rest.skip(end + 4) == all@.skip(from + end + 4));
    let begun: usize = skip_breaks(&all, from + end + 4);
    assert(all@.subrange(begun as int, all@.len() as int) == all@.skip(begun as int));
    let (e, f) = trim_bounds(&all[begun..all.len()]);
    assert(all@.skip(begun as int).subrange(e as int, f as int) == all@.subrange(
        begun + e,
        begun + f,
    ));
    Some((title, slice_string(&all, begun + e, begun + f)))
}

/// An article, as its file tells it.
#[derive(Debug)]
pub struct Article {
    pub key: String,
    pub title: String,
    pub body: String,
    /// Midnight UTC of the date in the file name.
    pub published_at: i64,
}

pub struct ArticleView {
    pub key: Seq<char>,
    pub title: Seq<char>,
    pub body: Seq<char>,
    pub published_at: i64,
}

impl View for Article {
    type V = ArticleView;

    open spec fn view(&self) -> ArticleView {
        ArticleView {
            key: self.key@,
            title: self.title@,
            body: self.body@,
            published_at: self.published_at,
        }
    }
}

/// A file in the directory: its name, and its text if it can be read.
#[derive(Debug)]
pub struct File {
    pub name: String,
    pub text: Option<String>,
}

/// The article in a file, if there is one.
pub open spec fn article_in(file: File, title_key: Seq<char>) -> Option<ArticleView> {
    match (published(file.name@), file.text) {
        (Some(published_at), Some(text)) => match split_text(text@, title_key) {
            Some((title, body)) => Some(
                ArticleView { key: file.name@, title, body, published_at },
            ),
            None => None,
        },
        _ => None,
    }
}

pub fn read_article(file: &File, title_key: &str) -> (r: Option<Article>)
    ensures
        match r {
            Some(article) => article_in(*file, title_key@) == Some(article@),
            None => article_in(*file, title_key@) is None,
        },
{
    let (_, published_at) = match date_of(&file.name) {
        Some(found) => found,
        None => {
            return None;
        },
    };
    match &file.text {
        Some(text) => match split_front_matter(text, title_key) {
            Some((title, body)) => Some(
                Article { key: file.name.clone(), title, body, published_at },
            ),
            None => None,
        },
        None => None,
    }
}

/// Is this a file that is looked at at all?
pub open spec fn looked_at(file: File) -> bool {
    ends_with(file.name@, ".md"@)
}

/// The articles among the files, without the drafts.
pub open spec fn articles_among(files: Seq<File>, title_key: Seq<char>, today: i64) -> Seq<
    ArticleView,
>
    decreases files.len(),
{
    if files.len() == 0 {
        Seq::empty()
    } else {
        let before = articles_among(files.drop_last(), title_key, today);
        match article_in(files.last(), title_key) {
            Some(article) if looked_at(files.last()) && article.published_at <= today => before.push(
                article,
            ),
            _ => before,
        }
    }
}

/// How many of the files should hold an article and hold none.
pub open spec fn skipped_among(files: Seq<File>, title_key: Seq<char>) -> nat
    decreases files.len(),
{
    if files.len() == 0 {
        0
    } else {
        skipped_among(files.drop_last(), title_key) + if looked_at(files.last()) && article_in(
            files.last(),
            title_key,
        ) is None {
            1nat
        } else {
            0nat
        }
    }
}

pub open spec fn articles_view(articles: Seq<Article>) -> Seq<ArticleView> {
    Seq::new(articles.len(), |i: int| articles[i]@)
}

/// What a look at the directory found.
#[derive(Debug)]
pub struct Found {
    pub articles: Vec<Article>,
    pub skipped: usize,
}

/// Reads the articles out of the files of a directory.
///
/// `today` is passed in rather than read from the clock, so the rule "a file
/// dated in the future is a draft" holds of any day. A draft is not stored at
/// all, so it cannot be reached by guessing an id either.
pub fn mirror(files: &[File], title_key: &str, today: &str) -> (r: Found)
    ensures
        articles_view(r.articles@) == articles_among(files@, title_key@, beginning(today@)),
        r.skipped == skipped_among(files@, title_key@),
{
    let start = day_start(today);
    let end = chars(".md");
    let mut articles: Vec<Article> = Vec::new();
    let mut skipped: usize = 0;
    let mut i: usize = 0;
    assert(articles_view(articles@) == articles_among(files@.take(0), title_key@, start));
    while i < files.len()
        invariant
            i <= files@.len(),
            end@ == ".md"@,
            start == beginning(today@),
            articles_view(articles@) == articles_among(
                files@.take(i as int),
                title_key@,
                start,
            ),
            skipped <= i,
            skipped == skipped_among(files@.take(i as int), title_key@),
        decreases files@.len() - i,
    {
        let file = &files[i];
        let ghost before = articles_view(articles@);
        assert(files@.take(i + 1).drop_last() == files@.take(i as int));
        assert(files@.take(i + 1).last() == *file);
        if ends(&chars(&file.name), &end) {
            match read_article(file, title_key) {
                Some(article) => {
                    if article.published_at <= start {
                        let ghost one = article@;
                        articles.push(article);
                        assert(articles_view(articles@) == before.push(one));
                    }
                },
                None => {
                    skipped += 1;
                },
            }
        }
        i += 1;
    }
    assert(files@.take(i as int) == files@);
    Found { articles, skipped }
}

/// Nothing dated later than today is shown, and what is shown came out of one
/// of the files.
pub proof fn a_file_of_tomorrow_is_a_draft(
    files: Seq<File>,
    title_key: Seq<char>,
    today: i64,
    i: int,
)
    requires
        0 <= i < articles_among(files, title_key, today).len(),
    ensures
        ({
            let article = articles_among(files, title_key, today)[i];
            &&& article.published_at <= today
            &&& exists|k: int|
                0 <= k < files.len() && #[trigger] article_in(files[k], title_key) == Some(article)
        }),
    decreases files.len(),
{
    let front = files.drop_last();
    let before = articles_among(front, title_key, today);
    let article = articles_among(files, title_key, today)[i];
    if i < before.len() {
        a_file_of_tomorrow_is_a_draft(front, title_key, today, i);
        let k = choose|k: int|
            0 <= k < front.len() && #[trigger] article_in(front[k], title_key) == Some(article);
        assert(files[k] == front[k]);
        assert(article_in(files[k], title_key) == Some(article));
    } else {
        let k = files.len() - 1;
        assert(article_in(files[k], title_key) == Some(article));
    }
}

/// A topic that came out of a file.
#[derive(Debug)]
pub struct StoredArticle {
    pub id: i64,
    pub updated_at: i64,
    /// The first post of the topic, which is the article.
    pub opening: Option<i64>,
}

/// What a topic says after its file was read.
#[derive(Debug)]
pub struct TopicWrite {
    /// The topic to change, or none where one is made.
    pub id: Option<i64>,
    pub space: String,
    pub category: String,
    pub title: String,
    pub created_at: i64,
    pub updated_at: i64,
    pub source_key: String,
    pub hidden: bool,
}

/// What the opening post says after its file was read.
#[derive(Debug)]
pub struct PostWrite {
    /// The post to rewrite in place, or none where one is made.
    pub id: Option<i64>,
    pub body: String,
    pub updated_at: i64,
}

/// When a topic last moved, once its file was read.
pub open spec fn moment_after(stored: Option<i64>, published: i64) -> i64 {
    match stored {
        Some(moment) if moment > published => moment,
        _ => published,
    }
}

/// Brings a topic and its opening post in line with the file.
///
/// The file wins over the topic, and a withdrawn topic comes back: a file that
/// returns brings its article back with its comments. The opening post is the
/// article. It is the FIRST post of the topic, and it is rewritten in place:
/// the comments after it keep their order.
pub fn upsert(
    existing: &Option<StoredArticle>,
    space: &str,
    category: &str,
    article: &Article,
) -> (r: (TopicWrite, PostWrite))
    ensures
        r.0.id == match *existing {
            Some(stored) => Some(stored.id),
            None => None,
        },
        r.0.space@ == space@,
        r.0.category@ == category@,
        r.0.title@ == article@.title,
        r.0.created_at == article@.published_at,
        r.0.updated_at == moment_after(
            match *existing {
                Some(stored) => Some(stored.updated_at),
                None => None,
            },
            article@.published_at,
        ),
        r.0.source_key@ == article@.key,
        !r.0.hidden,
        r.1.id == match *existing {
            Some(stored) => stored.opening,
            None => None,
        },
        r.1.body@ == article@.body,
        r.1.updated_at == article@.published_at,
{
    let mut id: Option<i64> = None;
    let mut opening: Option<i64> = None;
    let mut updated_at: i64 = article.published_at;
    match existing {
        Some(stored) => {
            id = Some(stored.id);
            opening = stored.opening;
            if stored.updated_at > updated_at {
                updated_at = stored.updated_at;
            }
        },
        None => {},
    }
    (
        TopicWrite {
            id,
            space: space.to_owned(),
            category: category.to_owned(),
            title: article.title.clone(),
            created_at: article.published_at,
            updated_at,
            source_key: article.key.clone(),
            hidden: false,
        },
        PostWrite { id: opening, body: article.body.clone(), updated_at: article.published_at },
    )
}

/// Reading the same file again changes nothing: the topic keeps its moment, and
/// a later one is never put back.
pub proof fn reading_a_file_twice_changes_nothing(stored: Option<i64>, published: i64)
    ensures
        moment_after(Some(moment_after(stored, published)), published) == moment_after(
            stored,
            published,
        ),
        stored is Some ==> moment_after(stored, published) >= stored->0,
{
}

/// Where the articles of a space are, and the category they go to: its first.
#[derive(Debug)]
pub struct Source {
    pub directory: String,
    pub category: String,
}

/// Where the articles of a space come from, if they come from anywhere. A
/// space without a category has nowhere to put them, which is an error and not
/// an empty blog.
pub fn source_of(space: &Space) -> (r: Result<Option<Source>, String>)
    ensures
        match r {
            Ok(None) => space@.articles is None,
            Ok(Some(source)) => space@.articles == Some(source.directory@)
                && space@.categories.len() > 0 && source.category@ == space@.categories[0].slug,
            Err(why) => space@.articles is Some && space@.categories.len() == 0 && why@
                == space@.host + ": articles are configured but the space has no category"@,
        },
{
    match &space.articles {
        None => Ok(None),
        Some(directory) => if space.categories.len() == 0 {
            Err(
                space.host.clone().concat(
                    ": articles are configured but the space has no category",
                ),
            )
        } else {
            assert(space@.categories[0] == space.categories@[0]@);
            Ok(
                Some(
                    Source {
                        directory: directory.clone(),
                        category: space.categories[0].slug.clone(),
                    },
                ),
            )
        },
    }
}

/// A topic in sight that came out of a file.
#[derive(Debug)]
pub struct Shown {
    pub id: i64,
    pub source_key: String,
}

/// The topics whose file is gone.
pub open spec fn missing_among(shown: Seq<Shown>, present: Seq<Seq<char>>) -> Seq<i64>
    decreases shown.len(),
{
    if shown.len() == 0 {
        Seq::empty()
    } else {
        let before = missing_among(shown.drop_last(), present);
        if present.contains(shown.last().source_key@) {
            before
        } else {
            before.push(shown.last().id)
        }
    }
}

/// Articles whose file is gone are hidden, never deleted: deleting would take
/// the comments with them, and what people wrote is not ours to remove because
/// a file moved. Returns the topics to hide.
pub fn hide_missing(shown: &[Shown], present: &[String]) -> (r: Vec<i64>)
    ensures
        r@ == missing_among(shown@, texts(present@)),
{
    let mut out: Vec<i64> = Vec::new();
    let mut i: usize = 0;
    assert(out@ == missing_among(shown@.take(0), texts(present@)));
    while i < shown.len()
        invariant
            i <= shown@.len(),
            out@ == missing_among(shown@.take(i as int), texts(present@)),
        decreases shown@.len() - i,
    {
        assert(shown@.take(i + 1).drop_last() == shown@.take(i as int));
        assert(shown@.take(i + 1).last() == shown@[i as int]);
        if !listed(present, &shown[i].source_key) {
            out.push(shown[i].id);
        }
        i += 1;
    }
    assert(shown@.take(i as int) == shown@);
    out
}

/// An article stays in sight exactly as long as its file is there.
pub proof fn only_the_missing_are_hidden(shown: Seq<Shown>, present: Seq<Seq<char>>, k: int)
    requires
        forall|a: int, b: int|
            0 <= a < b < shown.len() ==> (#[trigger] shown[a]).id != (#[trigger] shown[b]).id,
        0 <= k < shown.len(),
    ensures
        missing_among(shown, present).contains(shown[k].id) <==> !present.contains(
            shown[k].source_key@,
        ),
    decreases shown.len(),
{
    let front = shown.drop_last();
    let before = missing_among(front, present);
    let after = missing_among(shown, present);
    assert forall|a: int, b: int| 0 <= a < b < front.len() implies (#[trigger] front[a]).id != (
    #[trigger] front[b]).id by {
        assert(front[a] == shown[a] && front[b] == shown[b]);
    }
    if k < front.len() {
        only_the_missing_are_hidden(front, present, k);
        assert(front[k] == shown[k]);
        if before.contains(shown[k].id) {
            let j = choose|j: int| 0 <= j < before.len() && before[j] == shown[k].id;
            assert(after[j] == shown[k].id);
        }
        if after.contains(shown[k].id) {
            let j = choose|j: int| 0 <= j < after.len() && after[j] == shown[k].id;
            assert(shown[k].id != shown[shown.len() - 1].id);
            assert(j < before.len());
            assert(before[j] == shown[k].id);
        }
    } else {
        if !present.contains(shown[k].source_key@) {
            assert(after[before.len() as int] == shown[k].id);
        } else if after.contains(shown[k].id) {
            let j = choose|j: int| 0 <= j < before.len() && before[j] == shown[k].id;
            missing_come_from(front, present, j);
            let m = choose|m: int| 0 <= m < front.len() && (#[trigger] front[m]).id == before[j];
            assert(shown[m].id != shown[k].id);
        }
    }
}

proof fn missing_come_from(shown: Seq<Shown>, present: Seq<Seq<char>>, j: int)
    requires
        0 <= j < missing_among(shown, present).len(),
    ensures
        exists|m: int|
            0 <= m < shown.len() && (#[trigger] shown[m]).id == missing_among(shown, present)[j],
    decreases shown.len(),
{
    let front = shown.drop_last();
    let before = missing_among(front, present);
    if j < before.len() {
        missing_come_from(front, present, j);
        let m = choose|m: int| 0 <= m < front.len() && (#[trigger] front[m]).id == before[j];
        assert(shown[m].id == before[j]);
    } else {
        assert(shown[shown.len() - 1].id == missing_among(shown, present)[j]);
    }
}

} // verus!
