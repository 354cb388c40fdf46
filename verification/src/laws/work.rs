//! What the library does for its callers: each law here speaks of every answer
//! that a function can give.
use crate::articles::split_front_matter;
use crate::db::inbox::{
    entries, entries_view, rows_view, stored_view, unread_count, Entry, Row, Stored,
};
use crate::db::search::{as_fts_query, query_of, terms_of, words_of};
use crate::laws::inbox::{is_new, is_true, when_it_was};
use crate::laws::media::{
    jpeg_fits, jpeg_of, jpeg_parts_left, png_chunks_left, png_fits, png_of, unannounced,
    webp_chunks_left, webp_fits, webp_header, webp_of, JpegPart, PngChunk, WebpChunk,
};
use crate::laws::search::{all_of, all_typed_fit, typed_text, words_typed, Typed};
use crate::laws::text::{blank, solid};
use crate::laws::markup::is_mention;
use crate::markup::{mention_spans, Span};
use crate::media::{detect, is_jpeg_metadata, strip_metadata, MediaType};
use crate::mentions::to_tell;
use crate::notify::mail::escape;
use crate::order::sorted;
use crate::text::{ascii_lower, decimal, hex, number_in, texts, trim};
use vstd::prelude::*;
use vstd::string::*;

verus! {

/// In a JPEG, fourteen kinds of segments may tell something of whoever took the
/// picture. Every other kind makes up the picture.
pub proof fn which_segments_tell(marker: u8, r: bool)
    requires
        call_ensures(is_jpeg_metadata, (marker,), r),
    ensures
        r <==> marker == 0xE1 || marker == 0xE3 || marker == 0xE4 || marker == 0xE5 || marker == 0xE6
            || marker == 0xE7 || marker == 0xE8 || marker == 0xE9 || marker == 0xEA || marker
            == 0xEB || marker == 0xEC || marker == 0xED || marker == 0xEF || marker == 0xFE,
{
}

/// Whatever picture is handed in comes back with everything that makes it up,
/// and with nothing else.
pub proof fn a_picture_comes_back(
    data: &[u8],
    parts: Seq<JpegPart>,
    picture: Seq<u8>,
    chunks: Seq<PngChunk>,
    others: Seq<WebpChunk>,
    behind: Seq<u8>,
    r: Vec<u8>,
)
    ensures
        call_ensures(strip_metadata, (data, MediaType::Jpeg), r) && jpeg_fits(parts, picture)
            && data@ == jpeg_of(parts, picture) ==> r@ == jpeg_of(jpeg_parts_left(parts), picture),
        call_ensures(strip_metadata, (data, MediaType::Png), r) && png_fits(chunks) && data@
            == png_of(chunks) ==> r@ == png_of(png_chunks_left(chunks)),
        call_ensures(strip_metadata, (data, MediaType::Webp), r) && webp_fits(others) && (forall|
            i: int,
        |
            0 <= i < others.len() && webp_header(#[trigger] others[i]) ==> others[i].held.len()
                > 0) && data@ == webp_of(others) + behind ==> r@ == webp_of(
            unannounced(webp_chunks_left(others)),
        ),
        call_ensures(strip_metadata, (data, MediaType::Gif), r) ==> r@ == data@,
{
    if jpeg_fits(parts, picture) {
        crate::laws::media::a_jpeg_keeps_its_picture(parts, picture);
    }
    if png_fits(chunks) {
        crate::laws::media::a_png_keeps_its_picture(chunks);
    }
    if webp_fits(others) && (forall|i: int|
        0 <= i < others.len() && webp_header(#[trigger] others[i]) ==> others[i].held.len() > 0) {
        crate::laws::media::a_webp_keeps_its_picture(others, behind);
    }
    crate::laws::media::a_gif_is_untouched(data@);
}

/// A picture is known by how it begins.
pub proof fn a_picture_is_known(data: &[u8], r: Option<MediaType>)
    requires
        call_ensures(detect, (data,), r),
    ensures
        r == Some(MediaType::Jpeg) <==> data@.len() >= 3 && data@[0] == 0xFF && data@[1] == 0xD8
            && data@[2] == 0xFF,
        r == Some(MediaType::Gif) ==> data@.len() >= 6 && data@[0] == 0x47 && data@[1] == 0x49
            && data@[2] == 0x46 && data@[3] == 0x38,
        r == Some(MediaType::Png) ==> data@.len() >= 8 && data@[0] == 0x89 && data@[1] == 0x50,
        r == Some(MediaType::Webp) ==> data@.len() >= 12 && data@[0] == 0x52 && data@[8] == 0x57,
{
    crate::laws::media::four_kinds_and_no_other(data@);
    let head = seq![0xFFu8, 0xD8, 0xFF];
    if data@.len() >= 3 && data@[0] == 0xFF && data@[1] == 0xD8 && data@[2] == 0xFF {
        assert(data@ == head + data@.skip(3));
    }
}

/// An article that is written into a file is read out of it, with its whole
/// text.
pub proof fn an_article_comes_back(
    file: &str,
    key: &str,
    title: Seq<char>,
    body: Seq<char>,
    r: Option<(String, String)>,
)
    requires
        call_ensures(split_front_matter, (file, key), r),
        file@ == "---\n"@ + key@ + ": "@ + title + "\n---\n\n"@ + body + "\n"@,
        crate::laws::articles::one_line(key@),
        key@.len() > 0 ==> key@[0] != '\r',
        crate::laws::articles::one_line(title),
        solid(title),
        forall|i: int| 0 <= i < title.len() ==> (#[trigger] title[i]) != '"',
        solid(body),
    ensures
        r matches Some((read, text)) && read@ == title && text@ == body,
{
    crate::laws::articles::what_is_written_is_read(key@, title, body);
}

/// What is typed is searched for, word by word.
pub proof fn a_search_is_for_every_word(
    typed: &str,
    all: Seq<Typed>,
    end: Seq<char>,
    r: Option<String>,
)
    requires
        call_ensures(as_fts_query, (typed,), r),
        all_typed_fit(all),
        blank(end),
        typed@ == typed_text(all, end),
    ensures
        r is Some <==> words_typed(all).len() > 0,
        r is Some ==> r->0@ == all_of(words_typed(all)),
{
    crate::laws::search::what_is_typed_is_searched_for(all, end);
    assert(terms_of(words_of(typed@)) == words_typed(all));
    assert(query_of(terms_of(words_of(typed@))) == all_of(words_typed(all)));
}

/// Every entry on the page says what happened, and what is new stands first.
pub proof fn a_page_says_what_happened(
    rows: &[Row],
    events: &[Stored],
    spaces: &[String],
    limit: i64,
    r: Vec<Entry>,
    i: int,
    j: int,
)
    requires
        rows@.len() <= i64::MAX,
        call_ensures(entries, (rows, events, spaces, limit), r),
        0 <= i < j < r@.len(),
    ensures
        is_true(rows_view(rows@), stored_view(events@), texts(spaces@), r@[i]@),
        is_true(rows_view(rows@), stored_view(events@), texts(spaces@), r@[j]@),
        is_new(r@[j]@) ==> is_new(r@[i]@),
        is_new(r@[i]@) == is_new(r@[j]@) ==> when_it_was(r@[i]@) >= when_it_was(r@[j]@),
{
    let (a, b, c) = (rows_view(rows@), stored_view(events@), texts(spaces@));
    let shown = entries_view(r@);
    assert(shown.len() == r@.len());
    assert(shown[i] == r@[i]@ && shown[j] == r@[j]@);
    crate::laws::inbox::what_the_page_says_is_true(a, b, c, limit, i);
    crate::laws::inbox::what_the_page_says_is_true(a, b, c, limit, j);
    crate::laws::inbox::what_is_new_comes_first(a, b, c, limit, i, j);
}

/// Every mention in a text is found where it stands, and nothing else is.
pub proof fn every_mention_is_found(text: &[char], r: Vec<Span>, i: int, end: int)
    requires
        call_ensures(mention_spans, (text,), r),
    ensures
        is_mention(text@, i, end) ==> exists|k: int|
            0 <= k < r@.len() && (#[trigger] r@[k]).start == i && r@[k].end == end && r@[k].handle@
                == ascii_lower(text@.subrange(i + 1, end)),
{
    crate::laws::markup::whoever_is_named_is_mentioned(text@, i, end);
    let spans = crate::markup::spans_view(r@);
    let one = crate::markup::SpanView {
        start: i,
        end,
        handle: ascii_lower(text@.subrange(i + 1, end)),
    };
    if is_mention(text@, i, end) {
        let k = choose|k: int| 0 <= k < spans.len() && spans[k] == one;
        assert(r@[k]@ == one);
        assert(r@[k].start == i);
    }
}

/// Texts are written so that they are read again: a number as the number it is,
/// a byte as two digits, and without the space around them.
pub proof fn texts_are_read_again(
    n: i64,
    number: String,
    bytes: &[u8],
    digits: String,
    text: &str,
    front: Seq<char>,
    middle: Seq<char>,
    back: Seq<char>,
    kept: String,
)
    ensures
        call_ensures(decimal, (n,), number) && n >= 0 ==> number_in(number@) == Some(n as nat),
        call_ensures(hex, (bytes,), digits) ==> digits@.len() == 2 * bytes@.len(),
        call_ensures(trim, (text,), kept) && text@ == front + middle + back && blank(front)
            && blank(back) && solid(middle) ==> kept@ == middle,
        call_ensures(trim, (text,), kept) && blank(text@) ==> kept@.len() == 0,
{
    crate::laws::codec::a_number_reads_as_itself(n as int);
    if blank(front) && blank(back) && solid(middle) {
        crate::laws::text::trimming_leaves_the_middle(front, middle, back);
    }
    if blank(text@) {
        crate::laws::text::trimming_leaves_nothing_of_nothing(text@);
    }
}

/// Somebody's text in a mail means itself, character by character.
pub proof fn a_text_in_a_mail(before: &str, after: &str, c: char, a: String, b: String)
    requires
        call_ensures(escape, (before,), a),
        call_ensures(escape, (after,), b),
        after@ == before@.push(c),
    ensures
        c == '&' ==> b@ == a@ + seq!['&', 'a', 'm', 'p', ';'],
        c == '<' ==> b@ == a@ + seq!['&', 'l', 't', ';'],
        c == '>' ==> b@ == a@ + seq!['&', 'g', 't', ';'],
        c == '"' ==> b@ == a@ + seq!['&', 'q', 'u', 'o', 't', ';'],
        c != '&' && c != '<' && c != '>' && c != '"' ==> b@ == a@.push(c),
{
    crate::laws::codec::one_more_character_in_html(before@, c);
}

/// Sorting keeps every text, and puts none before one that comes first.
pub proof fn sorting_loses_nothing(list: Vec<String>, r: Vec<String>, x: Seq<char>)
    requires
        call_ensures(sorted, (list,), r),
    ensures
        texts(r@).contains(x) <==> texts(list@).contains(x),
        r@.len() == list@.len(),
{
    crate::order::sorting_keeps(texts(list@), x);
    assert(texts(r@).len() == r@.len());
    assert(texts(list@).len() == list@.len());
}

/// Whoever wrote a text is not told of it.
pub proof fn nobody_is_told_of_their_own_text(
    accounts: &[crate::db::accounts::Known],
    space: &crate::config::Space,
    writer: &str,
    markdown: &str,
    r: Vec<String>,
    i: int,
)
    requires
        call_ensures(to_tell, (accounts, space, writer, markdown), r),
        0 <= i < r@.len(),
    ensures
        r@[i]@ != writer@,
        exists|k: int|
            0 <= k < accounts@.len() && (#[trigger] accounts@[k]).subject@ == r@[i]@
                && crate::markup::mentioned(markdown@).contains(accounts@[k].handle@),
{
    let known = crate::db::accounts::known_view(accounts@);
    crate::mentions::told_are_the_mentioned_readers(known, space@, writer@, markdown@);
    let all = crate::mentions::told(known, space@, writer@, markdown@);
    assert(all == texts(r@));
    assert(all[i] == r@[i]@);
    assert(all.contains(r@[i]@));
    let k = choose|k: crate::db::accounts::KnownView| #[trigger]
        crate::mentions::may_be_told(k, known, space@, crate::markup::mentioned(markdown@))
            && k.subject == r@[i]@;
    assert(known.contains(k));
    let at = choose|at: int| 0 <= at < known.len() && known[at] == k;
    assert(accounts@[at]@ == k);
    assert(accounts@[at].subject@ == r@[i]@);
}

/// The bell shows as much as is new.
pub proof fn the_bell_shows_what_is_new(
    rows: &[Row],
    events: &[Stored],
    spaces: &[String],
    r: i64,
) -> (topics: Seq<i64>)
    requires
        rows@.len() <= 0x1000000000000000,
        events@.len() <= 0x1000000000000000,
        call_ensures(unread_count, (rows, events, spaces), r),
    ensures
        r == topics.len() + crate::laws::inbox::new_among(
            rows_view(rows@),
            texts(spaces@),
            crate::db::inbox::Reason::Mention,
        ) + crate::laws::inbox::new_among(
            rows_view(rows@),
            texts(spaces@),
            crate::db::inbox::Reason::Like,
        ) + crate::laws::inbox::new_events(stored_view(events@), texts(spaces@)),
        topics.no_duplicates(),
        forall|topic: i64| #[trigger]
            topics.contains(topic) <==> exists|k: int|
                0 <= k < rows_view(rows@).len() && crate::laws::inbox::answers(
                    #[trigger] rows_view(rows@)[k],
                    texts(spaces@),
                    topic,
                    true,
                ),
{
    crate::laws::inbox::the_bell_counts_what_is_new(
        rows_view(rows@),
        stored_view(events@),
        texts(spaces@),
    )
}

} // verus!
