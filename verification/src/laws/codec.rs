//! How numbers, bytes and texts are written down, and put in order.
use crate::codec::{percent_bytes, percent_encoded};
use crate::i18n::{lang_of, looked_up, Lang};
use crate::order::{page_of, text_before};
use crate::text::{decimal_text, digits, hex_text, html_text, number_in, trimmed};
use vstd::prelude::*;
use vstd::string::*;
use vstd::utf8::*;

verus! {

proof fn digits_are_read(n: nat)
    ensures
        number_in(digits(n)) == Some(n),
        digits(n).len() > 0,
        digits(n)[0] != '-',
        n > 0 ==> digits(n)[0] != '0',
    decreases n,
{
    if n < 10 {
        assert(digits(n).drop_last() == Seq::<char>::empty());
        assert(number_in(digits(n).drop_last()) == Some(0nat));
    } else {
        digits_are_read(n / 10);
        assert(digits(n).drop_last() == digits(n / 10));
    }
}

/// A number that is written down reads as the number it is, and only a number
/// below nothing begins with a dash.
pub proof fn a_number_reads_as_itself(n: int)
    ensures
        n >= 0 ==> number_in(decimal_text(n)) == Some(n as nat),
        n < 0 ==> decimal_text(n)[0] == '-' && number_in(decimal_text(n).skip(1)) == Some(
            (-n) as nat,
        ),
        n > 0 ==> decimal_text(n)[0] != '0',
{
    if n >= 0 {
        digits_are_read(n as nat);
    } else {
        digits_are_read((-n) as nat);
        assert(decimal_text(n).skip(1) == digits((-n) as nat));
    }
}

/// A number is read digit by digit, and what holds anything else is none.
pub proof fn one_more_digit(front: Seq<char>, c: char)
    ensures
        number_in(front) is None ==> number_in(front.push(c)) is None,
        number_in(front) is Some && c == '0' ==> number_in(front.push(c)) == Some(
            number_in(front)->0 * 10,
        ),
        number_in(front) is Some && '0' <= c <= '9' ==> number_in(front.push(c)) == Some(
            (number_in(front)->0 * 10 + (c as int - '0' as int)) as nat,
        ),
        c < '0' || c > '9' ==> number_in(front.push(c)) is None,
{
    assert(front.push(c).drop_last() == front);
}

/// The sixteen digits of a byte in hexadecimal.
pub open spec fn sixteen() -> Seq<char> {
    seq!['0', '1', '2', '3', '4', '5', '6', '7', '8', '9', 'a', 'b', 'c', 'd', 'e', 'f']
}

/// Two digits stand for a byte: sixteen times the first and the second.
pub proof fn two_digits_for_a_byte(bytes: Seq<u8>, i: int, high: int, low: int)
    requires
        0 <= i < bytes.len(),
        0 <= high < 16,
        0 <= low < 16,
        bytes[i] == 16 * high + low,
    ensures
        hex_text(bytes).len() == 2 * bytes.len(),
        hex_text(bytes)[2 * i] == sixteen()[high],
        hex_text(bytes)[2 * i + 1] == sixteen()[low],
{
    assert((2 * i) / 2 == i && (2 * i) % 2 == 0);
    assert((2 * i + 1) / 2 == i && (2 * i + 1) % 2 == 1);
    assert(bytes[i] / 16 == high && bytes[i] % 16 == low);
}

/// In an address a letter or a digit stands for itself, and any other byte is
/// written as a percent sign and its two digits, in capitals.
pub proof fn one_more_byte_in_an_address(front: Seq<u8>, b: u8, high: int, low: int)
    requires
        0 <= high < 16,
        0 <= low < 16,
        b == 16 * high + low,
    ensures
        percent_bytes(Seq::empty()) == Seq::<char>::empty(),
        'a' as int <= b <= 'z' as int || 'A' as int <= b <= 'Z' as int || '0' as int <= b
            <= '9' as int ==> percent_bytes(front.push(b)) == percent_bytes(front).push(b as char),
        !('a' as int <= b <= 'z' as int || 'A' as int <= b <= 'Z' as int || '0' as int <= b
            <= '9' as int) ==> percent_bytes(front.push(b)) == percent_bytes(front) + seq![
            '%',
            "0123456789ABCDEF"@[high],
            "0123456789ABCDEF"@[low],
        ],
        percent_encoded(Seq::empty()) == percent_bytes(encode_utf8(Seq::empty())),
{
    reveal_strlit("0123456789ABCDEF");
    assert(front.push(b).drop_last() == front);
    assert(b / 16 == high && b % 16 == low);
}

/// Four characters mean something in HTML, and each is written so that it means
/// itself; every other character stands as it is.
pub proof fn one_more_character_in_html(front: Seq<char>, c: char)
    ensures
        html_text(Seq::empty()) == Seq::<char>::empty(),
        html_text(front.push('&')) == html_text(front) + seq!['&', 'a', 'm', 'p', ';'],
        html_text(front.push('<')) == html_text(front) + seq!['&', 'l', 't', ';'],
        html_text(front.push('>')) == html_text(front) + seq!['&', 'g', 't', ';'],
        html_text(front.push('"')) == html_text(front) + seq!['&', 'q', 'u', 'o', 't', ';'],
        c != '&' && c != '<' && c != '>' && c != '"' ==> html_text(front.push(c)) == html_text(
            front,
        ).push(c),
{
    reveal_strlit("&amp;");
    reveal_strlit("&lt;");
    reveal_strlit("&gt;");
    reveal_strlit("&quot;");
    assert(front.push('&').drop_last() == front);
    assert(front.push('<').drop_last() == front);
    assert(front.push('>').drop_last() == front);
    assert(front.push('"').drop_last() == front);
    assert(front.push(c).drop_last() == front);
    assert("&amp;"@ == seq!['&', 'a', 'm', 'p', ';']);
    assert("&lt;"@ == seq!['&', 'l', 't', ';']);
    assert("&gt;"@ == seq!['&', 'g', 't', ';']);
    assert("&quot;"@ == seq!['&', 'q', 'u', 'o', 't', ';']);
}

/// Texts are in order by the first character in which they differ, and a text
/// stands before what it begins.
pub proof fn texts_are_in_order(front: Seq<char>, a: char, x: Seq<char>, b: char, y: Seq<char>)
    requires
        a < b,
    ensures
        text_before(front.push(a) + x, front.push(b) + y),
        !text_before(front.push(b) + y, front.push(a) + x),
        text_before(front, front.push(a) + x),
        !text_before(front.push(a) + x, front),
        !text_before(front, front),
    decreases front.len(),
{
    let (s, t) = (front.push(a) + x, front.push(b) + y);
    if front.len() > 0 {
        let rest = front.drop_first();
        texts_are_in_order(rest, a, x, b, y);
        assert(s.drop_first() == rest.push(a) + x);
        assert(t.drop_first() == rest.push(b) + y);
        assert(s[0] == front[0] && t[0] == front[0]);
    } else {
        assert(s[0] == a && t[0] == b);
    }
}

/// A page is what follows on the ones before it, and no more than its length.
pub proof fn a_page_of_a_list<T>(front: Seq<T>, page: Seq<T>, back: Seq<T>)
    ensures
        page_of(front + page + back, page.len() as int, front.len() as int) == page,
        page_of(front + page, (page.len() + back.len()) as int, front.len() as int) == page,
        page_of(front, page.len() as int, (front.len() + back.len()) as int) == Seq::<T>::empty(),
{
    assert((front + page + back).subrange(
        front.len() as int,
        (front.len() + page.len()) as int,
    ) == page);
    assert((front + page).subrange(front.len() as int, (front.len() + page.len()) as int) == page);
    assert(front.subrange(front.len() as int, front.len() as int) == Seq::<T>::empty());
}

/// Whatever is behind a comma in a list of languages does not matter where the
/// part before it names a language that is spoken here, and decides where not.
pub proof fn the_first_language_that_is_spoken(part: Seq<char>, rest: Seq<char>)
    requires
        !part.contains(','),
        !part.contains(';'),
        !part.contains('-'),
    ensures
        crate::text::ascii_lower(trimmed(part)) == seq!['d', 'e'] ==> lang_of(
            part + seq![','] + rest,
        ) == Lang::De && lang_of(part) == Lang::De,
        crate::text::ascii_lower(trimmed(part)) == seq!['e', 'n'] ==> lang_of(
            part + seq![','] + rest,
        ) == Lang::En && lang_of(part) == Lang::En,
        crate::text::ascii_lower(trimmed(part)) != seq!['d', 'e'] && crate::text::ascii_lower(
            trimmed(part),
        ) != seq!['e', 'n'] ==> lang_of(part + seq![','] + rest) == lang_of(rest) && lang_of(part)
            == Lang::En,
{
    reveal_strlit("de");
    reveal_strlit("en");
    assert("de"@ == seq!['d', 'e']);
    assert("en"@ == seq!['e', 'n']);
    let all = part + seq![','] + rest;
    let n = part.len() as int;
    assert forall|i: int| 0 <= i < n implies all[i] != ',' by {
        assert(part.contains(part[i]));
    }
    crate::text::first_at_found(all, ',', n);
    assert forall|i: int| 0 <= i < n implies part[i] != ',' && part[i] != ';' && part[i]
        != '-' by {
        assert(part.contains(part[i]));
    }
    crate::text::first_at_found(part, ',', n);
    crate::text::first_at_found(part, ';', n);
    assert(all.take(n) == part);
    assert(part.take(n) == part);
    assert(all.skip(n + 1) == rest);
    let tag = trimmed(part);
    trimming_picks(part);
    assert forall|i: int| 0 <= i < tag.len() implies tag[i] != '-' by {
        assert(part.contains(tag[i]));
    }
    crate::text::first_at_found(tag, '-', tag.len() as int);
    assert(tag.take(tag.len() as int) == tag);
}

proof fn start_picks(s: Seq<char>)
    ensures
        forall|c: char| #[trigger] crate::text::trim_start(s).contains(c) ==> s.contains(c),
    decreases s.len(),
{
    if s.len() > 0 && crate::text::white(s[0]) {
        start_picks(s.drop_first());
        assert forall|c: char| #[trigger] s.drop_first().contains(c) implies s.contains(c) by {
            let i = choose|i: int| 0 <= i < s.drop_first().len() && s.drop_first()[i] == c;
            assert(s[i + 1] == c);
        }
        assert(crate::text::trim_start(s) == crate::text::trim_start(s.drop_first()));
        assert forall|c: char| #[trigger] crate::text::trim_start(s).contains(c) implies s.contains(
            c,
        ) by {
            assert(s.drop_first().contains(c));
        }
    }
}

proof fn end_picks(s: Seq<char>)
    ensures
        forall|c: char| #[trigger] crate::text::trim_end(s).contains(c) ==> s.contains(c),
    decreases s.len(),
{
    if s.len() > 0 && crate::text::white(s.last()) {
        end_picks(s.drop_last());
        assert forall|c: char| #[trigger] s.drop_last().contains(c) implies s.contains(c) by {
            let i = choose|i: int| 0 <= i < s.drop_last().len() && s.drop_last()[i] == c;
            assert(s[i] == c);
        }
        assert(crate::text::trim_end(s) == crate::text::trim_end(s.drop_last()));
        assert forall|c: char| #[trigger] crate::text::trim_end(s).contains(c) implies s.contains(
            c,
        ) by {
            assert(s.drop_last().contains(c));
        }
    }
}

proof fn trimming_picks(s: Seq<char>)
    ensures
        forall|i: int| 0 <= i < trimmed(s).len() ==> s.contains(#[trigger] trimmed(s)[i]),
{
    start_picks(s);
    end_picks(crate::text::trim_start(s));
    assert forall|i: int| 0 <= i < trimmed(s).len() implies s.contains(#[trigger] trimmed(s)[i]) by {
        assert(trimmed(s).contains(trimmed(s)[i]));
    }
}

/// What stands behind a language's code, after a dash or a semicolon, does not
/// matter.
pub proof fn a_dialect_is_its_language(code: Seq<char>, rest: Seq<char>)
    requires
        code.len() == 2,
        'a' <= code[0] <= 'z',
        'a' <= code[1] <= 'z',
        !rest.contains(','),
    ensures
        lang_of(code + seq!['-'] + rest) == lang_of(code),
        lang_of(code + seq![';'] + rest) == lang_of(code),
        lang_of(code) == if code == seq!['d', 'e'] {
            Lang::De
        } else {
            Lang::En
        },
{
    reveal_strlit("de");
    reveal_strlit("en");
    assert("de"@ == seq!['d', 'e']);
    assert("en"@ == seq!['e', 'n']);
    a_code_is_read(code, code);
    let dash = code + seq!['-'] + rest;
    let semi = code + seq![';'] + rest;
    assert forall|i: int| 0 <= i < dash.len() implies dash[i] != ',' by {
        if i >= 3 {
            assert(rest.contains(rest[i - 3]));
        }
    }
    assert forall|i: int| 0 <= i < semi.len() implies semi[i] != ',' by {
        if i >= 3 {
            assert(rest.contains(rest[i - 3]));
        }
    }
    crate::text::first_at_found(dash, ',', dash.len() as int);
    crate::text::first_at_found(semi, ',', semi.len() as int);
    assert(dash.take(dash.len() as int) == dash);
    assert(semi.take(semi.len() as int) == semi);
    crate::text::first_at_found(semi, ';', 2);
    assert(semi.take(2) == code);
    a_code_is_read(code, semi);
    a_dash_is_read(code, rest);
}

proof fn a_code_is_read(code: Seq<char>, part: Seq<char>)
    requires
        code.len() == 2,
        'a' <= code[0] <= 'z',
        'a' <= code[1] <= 'z',
        part.take(crate::text::first_at(part, ';')) == code || part == code,
    ensures
        crate::i18n::primary_tag(part) == code,
        part == code ==> lang_of(part) == if code == seq!['d', 'e'] {
            Lang::De
        } else {
            Lang::En
        },
{
    reveal_strlit("de");
    reveal_strlit("en");
    assert("de"@ == seq!['d', 'e']);
    assert("en"@ == seq!['e', 'n']);
    if part == code {
        crate::text::first_at_found(part, ';', 2);
        crate::text::first_at_found(part, ',', 2);
        assert(part.take(2) == part);
    }
    assert(crate::text::trim_start(code) == code);
    assert(crate::text::trim_end(code) == code);
    crate::text::first_at_found(code, '-', 2);
    assert(code.take(2) == code);
    assert(crate::text::ascii_lower(code) == code);
}

proof fn start_is_kept(code: Seq<char>, rest: Seq<char>)
    requires
        code.len() == 2,
        'a' <= code[0] <= 'z',
        'a' <= code[1] <= 'z',
    ensures
        ({
            let t = crate::text::trim_end(code + seq!['-'] + rest);
            &&& t.len() >= 3
            &&& t.take(3) == code + seq!['-']
        }),
    decreases rest.len(),
{
    let s = code + seq!['-'] + rest;
    if rest.len() == 0 {
        assert(s == code + seq!['-']);
        assert(s.last() == '-');
        assert(s.take(3) == s);
    } else if crate::text::white(s.last()) {
        assert(s.drop_last() == code + seq!['-'] + rest.drop_last());
        start_is_kept(code, rest.drop_last());
    } else {
        assert(s.take(3) == code + seq!['-']);
    }
}

proof fn a_dash_is_read(code: Seq<char>, rest: Seq<char>)
    requires
        code.len() == 2,
        'a' <= code[0] <= 'z',
        'a' <= code[1] <= 'z',
    ensures
        crate::i18n::primary_tag(code + seq!['-'] + rest) == code,
{
    let part = code + seq!['-'] + rest;
    let n = crate::text::first_at(part, ';');
    crate::text::first_at_is_first(part, ';');
    assert(part[0] == code[0] && part[1] == code[1] && part[2] == '-');
    let cut = part.take(n);
    assert(n >= 3) by {
        if n < 3 {
            assert(n < part.len());
            assert(part[n] == ';');
        }
    }
    let short = rest.take(n - 3);
    assert(cut == code + seq!['-'] + short);
    assert(crate::text::trim_start(cut) == cut);
    start_is_kept(code, short);
    let tag = trimmed(cut);
    assert(tag.take(3)[0] == tag[0] && tag.take(3)[1] == tag[1] && tag.take(3)[2] == tag[2]);
    crate::text::first_at_found(tag, '-', 2);
    assert(tag.take(2) == code);
    assert(crate::text::ascii_lower(code) == code);
}

/// A word is looked up by its key, in the language asked for.
pub proof fn the_first_word_of_that_name(
    front: Seq<(Seq<char>, Seq<char>, Seq<char>)>,
    key: Seq<char>,
    de: Seq<char>,
    en: Seq<char>,
    back: Seq<(Seq<char>, Seq<char>, Seq<char>)>,
)
    requires
        forall|i: int| 0 <= i < front.len() ==> (#[trigger] front[i]).0 != key,
    ensures
        looked_up(front.push((key, de, en)) + back, Lang::De, key) == Some(de),
        looked_up(front.push((key, de, en)) + back, Lang::En, key) == Some(en),
        looked_up(front, Lang::De, key) is None,
        looked_up(front, Lang::En, key) is None,
    decreases front.len(),
{
    let all = front.push((key, de, en)) + back;
    if front.len() > 0 {
        let rest = front.skip(1);
        assert forall|i: int| 0 <= i < rest.len() implies (#[trigger] rest[i]).0 != key by {
            assert(rest[i] == front[i + 1]);
        }
        the_first_word_of_that_name(rest, key, de, en, back);
        assert(all.skip(1) == rest.push((key, de, en)) + back);
        assert(all[0] == front[0]);
    } else {
        assert(all[0] == (key, de, en));
    }
}

} // verus!
