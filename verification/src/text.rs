//! Strings as sequences of characters, and the few operations on them that
//! everything else is written in.
use vstd::prelude::*;
use vstd::string::*;
use vstd::utf8::*;

verus! {

/// `String::push` appends one character.
pub assume_specification[ String::push ](s: &mut String, c: char)
    ensures
        final(s)@ == old(s)@.push(c),
;

/// The contents of a list of strings.
pub open spec fn texts(list: Seq<String>) -> Seq<Seq<char>> {
    Seq::new(list.len(), |i: int| list[i]@)
}

/// The contents of a string that may be missing.
pub open spec fn text_of(value: Option<String>) -> Option<Seq<char>> {
    match value {
        Some(s) => Some(s@),
        None => None,
    }
}

/// The characters of a string, one by one.
pub fn chars(s: &str) -> (out: Vec<char>)
    ensures
        out@ == s@,
{
    let mut out: Vec<char> = Vec::new();
    for c in it: s.chars()
        invariant
            it.seq() == s@,
            out@ == s@.take(it.index() as int),
    {
        out.push(c);
    }
    out
}

/// A string made of the characters from `from` up to `to`.
pub fn slice_string(chars: &[char], from: usize, to: usize) -> (out: String)
    requires
        from <= to <= chars@.len(),
    ensures
        out@ == chars@.subrange(from as int, to as int),
{
    let mut out = String::new();
    let mut i: usize = from;
    while i < to
        invariant
            from <= i <= to <= chars@.len(),
            out@ == chars@.subrange(from as int, i as int),
        decreases to - i,
    {
        out.push(chars[i]);
        i += 1;
        assert(chars@.subrange(from as int, i as int) == chars@.subrange(
            from as int,
            i - 1,
        ).push(chars@[i - 1]));
    }
    out
}

/// Do two strings hold the same characters?
pub fn same(a: &str, b: &str) -> (r: bool)
    ensures
        r == (a@ == b@),
{
    let x = a.as_bytes();
    let y = b.as_bytes();
    proof {
        encode_utf8_decode_utf8(a@);
        encode_utf8_decode_utf8(b@);
    }
    if x.len() != y.len() {
        return false;
    }
    let mut i: usize = 0;
    while i < x.len()
        invariant
            i <= x.len(),
            x@.len() == y@.len(),
            x@ == a.spec_bytes(),
            y@ == b.spec_bytes(),
            forall|j: int| 0 <= j < i ==> x@[j] == y@[j],
        decreases x.len() - i,
    {
        if x[i] != y[i] {
            return false;
        }
        i += 1;
    }
    assert(x@ == y@);
    true
}

/// Where the character first stands, or the length if it stands nowhere.
pub open spec fn first_at(s: Seq<char>, c: char) -> int
    decreases s.len(),
{
    if s.len() == 0 {
        0
    } else if s[0] == c {
        0
    } else {
        1 + first_at(s.drop_first(), c)
    }
}

/// `first_at` is the smallest index at which the character stands.
pub proof fn first_at_is_first(s: Seq<char>, c: char)
    ensures
        0 <= first_at(s, c) <= s.len(),
        first_at(s, c) < s.len() ==> s[first_at(s, c)] == c,
        forall|i: int| 0 <= i < first_at(s, c) ==> s[i] != c,
    decreases s.len(),
{
    if s.len() > 0 && s[0] != c {
        let rest = s.drop_first();
        first_at_is_first(rest, c);
        assert forall|i: int| 0 <= i < first_at(s, c) implies s[i] != c by {
            if i > 0 {
                assert(rest[i - 1] == s[i]);
            }
        }
    }
}

/// Only the first place counts, whatever way it was found.
pub proof fn first_at_found(s: Seq<char>, c: char, at: int)
    requires
        0 <= at <= s.len(),
        at < s.len() ==> s[at] == c,
        forall|i: int| 0 <= i < at ==> s[i] != c,
    ensures
        first_at(s, c) == at,
{
    first_at_is_first(s, c);
}

pub fn find_char(s: &[char], c: char) -> (at: usize)
    ensures
        at == first_at(s@, c),
        at <= s@.len(),
{
    let mut i: usize = 0;
    while i < s.len()
        invariant
            i <= s@.len(),
            forall|k: int| 0 <= k < i ==> s@[k] != c,
        decreases s@.len() - i,
    {
        if s[i] == c {
            proof {
                first_at_found(s@, c, i as int);
            }
            return i;
        }
        i += 1;
    }
    proof {
        first_at_found(s@, c, i as int);
    }
    i
}

/// An ASCII capital as the small letter; everything else as it is.
pub open spec fn lower_char(c: char) -> char {
    if 'A' <= c <= 'Z' {
        (c as u8 + 32) as u8 as char
    } else {
        c
    }
}

/// Every ASCII capital as the small letter.
pub open spec fn ascii_lower(s: Seq<char>) -> Seq<char> {
    Seq::new(s.len(), |i: int| lower_char(s[i]))
}

pub fn to_lower_char(c: char) -> (r: char)
    ensures
        r == lower_char(c),
{
    if c >= 'A' && c <= 'Z' {
        (c as u8 + 32) as char
    } else {
        c
    }
}

pub fn to_ascii_lower(s: &[char]) -> (out: String)
    ensures
        out@ == ascii_lower(s@),
{
    let mut out = String::new();
    let mut i: usize = 0;
    while i < s.len()
        invariant
            i <= s@.len(),
            out@ == ascii_lower(s@).take(i as int),
        decreases s@.len() - i,
    {
        out.push(to_lower_char(s[i]));
        i += 1;
        assert(ascii_lower(s@).take(i as int) == ascii_lower(s@).take(i - 1).push(
            lower_char(s@[i - 1]),
        ));
    }
    assert(ascii_lower(s@).take(i as int) == ascii_lower(s@));
    out
}

/// Lower-casing twice is lower-casing once.
pub proof fn ascii_lower_idempotent(s: Seq<char>)
    ensures
        ascii_lower(ascii_lower(s)) == ascii_lower(s),
{
    assert forall|i: int| 0 <= i < s.len() implies lower_char(lower_char(s[i])) == lower_char(
        s[i],
    ) by {
        if 'A' <= s[i] <= 'Z' {
            assert(!('A' <= lower_char(s[i]) <= 'Z'));
        }
    }
    assert(ascii_lower(ascii_lower(s)) =~= ascii_lower(s));
}

/// A copy of a list of strings.
pub fn copied(list: &[String]) -> (out: Vec<String>)
    ensures
        texts(out@) == texts(list@),
{
    let mut out: Vec<String> = Vec::new();
    let mut i: usize = 0;
    while i < list.len()
        invariant
            i <= list@.len(),
            out@ == list@.take(i as int),
        decreases list@.len() - i,
    {
        out.push(list[i].clone());
        i += 1;
    }
    assert(out@ == list@);
    out
}

/// White space, as Unicode has it.
pub open spec fn white(c: char) -> bool {
    ||| '\u{9}' <= c <= '\u{d}'
    ||| c == ' '
    ||| c == '\u{85}'
    ||| c == '\u{a0}'
    ||| c == '\u{1680}'
    ||| '\u{2000}' <= c <= '\u{200a}'
    ||| c == '\u{2028}'
    ||| c == '\u{2029}'
    ||| c == '\u{202f}'
    ||| c == '\u{205f}'
    ||| c == '\u{3000}'
}

pub fn is_white(c: char) -> (r: bool)
    ensures
        r == white(c),
{
    ('\u{9}' <= c && c <= '\u{d}') || c == ' ' || c == '\u{85}' || c == '\u{a0}' || c
        == '\u{1680}' || ('\u{2000}' <= c && c <= '\u{200a}') || c == '\u{2028}' || c
        == '\u{2029}' || c == '\u{202f}' || c == '\u{205f}' || c == '\u{3000}'
}

/// Without the white space in front.
pub open spec fn trim_start(s: Seq<char>) -> Seq<char>
    decreases s.len(),
{
    if s.len() > 0 && white(s[0]) {
        trim_start(s.drop_first())
    } else {
        s
    }
}

/// Without the white space at the end.
pub open spec fn trim_end(s: Seq<char>) -> Seq<char>
    decreases s.len(),
{
    if s.len() > 0 && white(s.last()) {
        trim_end(s.drop_last())
    } else {
        s
    }
}

/// Without the white space at either end.
pub open spec fn trimmed(s: Seq<char>) -> Seq<char> {
    trim_end(trim_start(s))
}

/// The bounds of what is left of the characters when white space at either end
/// is left out.
pub fn trim_bounds(s: &[char]) -> (r: (usize, usize))
    ensures
        r.0 <= r.1 <= s@.len(),
        s@.subrange(r.0 as int, r.1 as int) == trimmed(s@),
{
    let mut from: usize = 0;
    assert(s@.skip(0) == s@);
    while from < s.len() && is_white(s[from])
        invariant
            from <= s@.len(),
            trim_start(s@) == trim_start(s@.skip(from as int)),
        decreases s@.len() - from,
    {
        assert(s@.skip(from as int)[0] == s@[from as int]);
        assert(s@.skip(from as int).drop_first() == s@.skip(from + 1));
        from += 1;
    }
    let ghost rest = s@.skip(from as int);
    assert(from < s@.len() ==> rest[0] == s@[from as int]);
    assert(trim_start(s@) == rest);
    let mut to: usize = s.len();
    assert(s@.subrange(from as int, to as int) == rest);
    while from < to && is_white(s[to - 1])
        invariant
            from <= to <= s@.len(),
            trimmed(s@) == trim_end(s@.subrange(from as int, to as int)),
        decreases to - from,
    {
        let ghost now = s@.subrange(from as int, to as int);
        assert(now.last() == s@[to - 1]);
        assert(now.drop_last() == s@.subrange(from as int, to - 1));
        to -= 1;
    }
    assert(from < to ==> s@.subrange(from as int, to as int).last() == s@[to - 1]);
    (from, to)
}

/// A copy without the white space at either end.
pub fn trim(s: &str) -> (r: String)
    ensures
        r@ == trimmed(s@),
{
    let all = chars(s);
    let (from, to) = trim_bounds(&all);
    slice_string(&all, from, to)
}

/// What is trimmed begins and ends with something to be seen.
pub proof fn trimmed_ends(s: Seq<char>)
    ensures
        trimmed(s).len() > 0 ==> !white(trimmed(s)[0]) && !white(trimmed(s).last()),
        trimmed(s).len() <= s.len(),
{
    trim_start_front(s);
    trim_end_back(trim_start(s));
}

proof fn trim_start_front(s: Seq<char>)
    ensures
        trim_start(s).len() > 0 ==> !white(trim_start(s)[0]),
        trim_start(s).len() <= s.len(),
    decreases s.len(),
{
    if s.len() > 0 && white(s[0]) {
        trim_start_front(s.drop_first());
    }
}

proof fn trim_end_back(s: Seq<char>)
    ensures
        trim_end(s).len() > 0 ==> !white(trim_end(s).last()),
        trim_end(s).len() > 0 ==> trim_end(s)[0] == s[0],
        trim_end(s).len() <= s.len(),
    decreases s.len(),
{
    if s.len() > 0 && white(s.last()) {
        trim_end_back(s.drop_last());
    }
}

/// Trimming twice is trimming once.
pub proof fn trimming_twice(s: Seq<char>)
    ensures
        trimmed(trimmed(s)) == trimmed(s),
{
    trimmed_ends(s);
}

/// One digit.
pub open spec fn digit(n: int) -> char {
    (48 + n) as u8 as char
}

/// A number that is not negative, in decimal.
pub open spec fn digits(n: nat) -> Seq<char>
    decreases n,
{
    if n < 10 {
        seq![digit(n as int)]
    } else {
        digits(n / 10).push(digit((n % 10) as int))
    }
}

/// A number in decimal.
pub open spec fn decimal_text(n: int) -> Seq<char> {
    if n < 0 {
        seq!['-'] + digits((-n) as nat)
    } else {
        digits(n as nat)
    }
}

fn push_digits(out: &mut String, n: u64)
    ensures
        final(out)@ == old(out)@ + digits(n as nat),
    decreases n,
{
    let ghost before = out@;
    if n >= 10 {
        push_digits(out, n / 10);
        assert(before + digits((n / 10) as nat).push(digit((n % 10) as int)) == (before + digits(
            (n / 10) as nat,
        )).push(digit((n % 10) as int)));
    } else {
        assert(before + seq![digit(n as int)] == before.push(digit(n as int)));
    }
    out.push((48 + (n % 10) as u8) as char);
}

/// A count in decimal.
pub fn decimal_count(n: usize) -> (r: String)
    ensures
        r@ == decimal_text(n as int),
{
    let mut out = String::new();
    push_digits(&mut out, n as u64);
    assert(out@ == digits(n as nat));
    out
}

pub fn decimal(n: i64) -> (r: String)
    ensures
        r@ == decimal_text(n as int),
{
    let mut out = String::new();
    if n < 0 {
        out.push('-');
        let size: u64 = (-(n as i128)) as u64;
        push_digits(&mut out, size);
        assert(out@ == seq!['-'] + digits((-n) as nat));
    } else {
        push_digits(&mut out, n as u64);
        assert(out@ == digits(n as nat));
    }
    out
}

/// The digit for a number below sixteen.
pub open spec fn hex_digit(n: u8) -> char {
    if n < 10 {
        (48 + n) as u8 as char
    } else {
        (87 + n) as u8 as char
    }
}

/// Two digits for every byte.
pub open spec fn hex_text(bytes: Seq<u8>) -> Seq<char> {
    Seq::new(
        2 * bytes.len(),
        |i: int|
            if i % 2 == 0 {
                hex_digit(bytes[i / 2] / 16)
            } else {
                hex_digit(bytes[i / 2] % 16)
            },
    )
}

fn to_hex_digit(n: u8) -> (r: char)
    requires
        n < 16,
    ensures
        r == hex_digit(n),
{
    if n < 10 {
        (48 + n) as char
    } else {
        (87 + n) as char
    }
}

pub fn hex(bytes: &[u8]) -> (r: String)
    ensures
        r@ == hex_text(bytes@),
{
    let mut out = String::new();
    let mut i: usize = 0;
    while i < bytes.len()
        invariant
            i <= bytes@.len(),
            out@ == hex_text(bytes@).take(2 * i),
        decreases bytes@.len() - i,
    {
        let b = bytes[i];
        let ghost whole = hex_text(bytes@);
        assert(whole[2 * i] == hex_digit(b / 16));
        assert(whole[2 * i + 1] == hex_digit(b % 16));
        out.push(to_hex_digit(b / 16));
        out.push(to_hex_digit(b % 16));
        assert(whole.take(2 * i + 2) == whole.take(2 * i as int).push(whole[2 * i]).push(
            whole[2 * i + 1],
        ));
        i += 1;
    }
    assert(hex_text(bytes@).take(2 * i) == hex_text(bytes@));
    out
}

/// Different bytes read differently.
pub proof fn hex_tells_bytes_apart(a: Seq<u8>, b: Seq<u8>)
    requires
        hex_text(a) == hex_text(b),
    ensures
        a == b,
{
    assert(hex_text(a).len() == 2 * a.len() && hex_text(b).len() == 2 * b.len());
    assert forall|i: int| 0 <= i < a.len() implies a[i] == b[i] by {
        assert(hex_text(a)[2 * i] == hex_digit(a[i] / 16));
        assert(hex_text(b)[2 * i] == hex_digit(b[i] / 16));
        assert(hex_text(a)[2 * i + 1] == hex_digit(a[i] % 16));
        assert(hex_text(b)[2 * i + 1] == hex_digit(b[i] % 16));
        hex_digit_tells_apart(a[i] / 16, b[i] / 16);
        hex_digit_tells_apart(a[i] % 16, b[i] % 16);
    }
    assert(a =~= b);
}

proof fn hex_digit_tells_apart(m: u8, n: u8)
    requires
        m < 16,
        n < 16,
        hex_digit(m) == hex_digit(n),
    ensures
        m == n,
{
    assert(hex_digit(m) as int == if m < 10 { 48 + m } else { 87 + m });
    assert(hex_digit(n) as int == if n < 10 { 48 + n } else { 87 + n });
}

/// Does the text begin like this?
pub open spec fn starts_with(s: Seq<char>, start: Seq<char>) -> bool {
    start.len() <= s.len() && s.take(start.len() as int) == start
}

/// Does the text end like this?
pub open spec fn ends_with(s: Seq<char>, end: Seq<char>) -> bool {
    end.len() <= s.len() && s.skip(s.len() - end.len()) == end
}

/// Does the text begin like this?
pub fn begins(s: &[char], start: &[char]) -> (r: bool)
    ensures
        r == starts_with(s@, start@),
{
    if start.len() > s.len() {
        return false;
    }
    let mut i: usize = 0;
    while i < start.len()
        invariant
            i <= start@.len() <= s@.len(),
            forall|k: int| 0 <= k < i ==> s@[k] == start@[k],
        decreases start@.len() - i,
    {
        if s[i] != start[i] {
            assert(s@.take(start@.len() as int)[i as int] != start@[i as int]);
            return false;
        }
        i += 1;
    }
    assert(s@.take(start@.len() as int) == start@);
    true
}

/// Does the text end like this?
pub fn ends(s: &[char], end: &[char]) -> (r: bool)
    ensures
        r == ends_with(s@, end@),
{
    if end.len() > s.len() {
        return false;
    }
    let at: usize = s.len() - end.len();
    let ghost tail = s@.skip(at as int);
    let mut i: usize = 0;
    while i < end.len()
        invariant
            i <= end@.len() <= s@.len() <= usize::MAX,
            at == s@.len() - end@.len(),
            tail == s@.skip(at as int),
            forall|k: int| 0 <= k < i ==> tail[k] == end@[k],
        decreases end@.len() - i,
    {
        assert(tail[i as int] == s@[at + i]);
        if s[at + i] != end[i] {
            return false;
        }
        i += 1;
    }
    assert(tail == end@);
    true
}

/// Where this stands in the text for the first time.
pub open spec fn place_of(s: Seq<char>, part: Seq<char>) -> Option<int>
    decreases s.len(),
{
    if starts_with(s, part) {
        Some(0)
    } else if s.len() == 0 {
        None
    } else {
        match place_of(s.skip(1), part) {
            Some(at) => Some(at + 1),
            None => None,
        }
    }
}

/// Where this stands in the text for the first time.
pub fn find_text(s: &[char], part: &[char]) -> (r: Option<usize>)
    ensures
        r is Some == place_of(s@, part@) is Some,
        r is Some ==> r->0 == place_of(s@, part@)->0 && r->0 <= s@.len(),
{
    let mut i: usize = 0;
    assert(s@.skip(0) == s@);
    while i < s.len()
        invariant
            i <= s@.len(),
            place_of(s@, part@) == match place_of(s@.skip(i as int), part@) {
                Some(at) => Some(at + i),
                None => None,
            },
        decreases s@.len() - i,
    {
        assert(s@.subrange(i as int, s@.len() as int) == s@.skip(i as int));
        if begins(&s[i..s.len()], part) {
            return Some(i);
        }
        assert(s@.skip(i as int).skip(1) == s@.skip(i + 1));
        i += 1;
    }
    assert(s@.skip(i as int) == Seq::<char>::empty());
    if part.len() == 0 {
        assert(s@.skip(i as int).take(0) == part@);
        Some(i)
    } else {
        None
    }
}

/// What is found in a text fits into it.
pub proof fn found_fits(s: Seq<char>, part: Seq<char>)
    requires
        place_of(s, part) is Some,
    ensures
        0 <= place_of(s, part)->0,
        place_of(s, part)->0 + part.len() <= s.len(),
    decreases s.len(),
{
    if !starts_with(s, part) && s.len() > 0 {
        found_fits(s.skip(1), part);
    }
}

/// Without this character at either end.
pub open spec fn stripped(s: Seq<char>, c: char) -> Seq<char>
    decreases s.len(),
{
    if s.len() > 0 && s[0] == c {
        stripped(s.skip(1), c)
    } else if s.len() > 0 && s.last() == c {
        stripped(s.drop_last(), c)
    } else {
        s
    }
}

/// The bounds of what is left when a character is left out at either end.
pub fn strip_bounds(s: &[char], c: char) -> (r: (usize, usize))
    ensures
        r.0 <= r.1 <= s@.len(),
        s@.subrange(r.0 as int, r.1 as int) == stripped(s@, c),
{
    let mut from: usize = 0;
    let mut to: usize = s.len();
    assert(s@.subrange(0, s@.len() as int) == s@);
    while from < to && (s[from] == c || s[to - 1] == c)
        invariant
            from <= to <= s@.len(),
            stripped(s@, c) == stripped(s@.subrange(from as int, to as int), c),
        decreases to - from,
    {
        let ghost now = s@.subrange(from as int, to as int);
        assert(now[0] == s@[from as int] && now.last() == s@[to - 1]);
        if s[from] == c {
            assert(now.skip(1) == s@.subrange(from + 1, to as int));
            from += 1;
        } else {
            assert(now.drop_last() == s@.subrange(from as int, to - 1));
            to -= 1;
        }
    }
    proof {
        let now = s@.subrange(from as int, to as int);
        if from < to {
            assert(now[0] == s@[from as int] && now.last() == s@[to - 1]);
        }
    }
    (from, to)
}

/// A character of somebody's text, as it is written in HTML.
pub open spec fn html_char(c: char) -> Seq<char> {
    if c == '&' {
        "&amp;"@
    } else if c == '<' {
        "&lt;"@
    } else if c == '>' {
        "&gt;"@
    } else if c == '"' {
        "&quot;"@
    } else {
        seq![c]
    }
}

/// Somebody's text, as it is written in HTML.
pub open spec fn html_text(s: Seq<char>) -> Seq<char>
    decreases s.len(),
{
    if s.len() == 0 {
        Seq::empty()
    } else {
        html_text(s.drop_last()) + html_char(s.last())
    }
}

/// Somebody's text cannot become markup: no bracket and no quote is left of it.
pub proof fn somebodys_text_is_no_markup(s: Seq<char>, i: int)
    requires
        0 <= i < html_text(s).len(),
    ensures
        html_text(s)[i] != '<',
        html_text(s)[i] != '>',
        html_text(s)[i] != '"',
    decreases s.len(),
{
    reveal_strlit("&amp;");
    reveal_strlit("&lt;");
    reveal_strlit("&gt;");
    reveal_strlit("&quot;");
    let before = html_text(s.drop_last());
    if i < before.len() {
        somebodys_text_is_no_markup(s.drop_last(), i);
    } else {
        assert(html_text(s)[i] == html_char(s.last())[i - before.len()]);
    }
}

/// A whole number written in decimal digits.
pub open spec fn number_in(s: Seq<char>) -> Option<nat>
    decreases s.len(),
{
    if s.len() == 0 {
        Some(0)
    } else {
        match number_in(s.drop_last()) {
            Some(n) if '0' <= s.last() <= '9' => Some(n * 10 + (s.last() as nat - 48) as nat),
            _ => None,
        }
    }
}

} // verus!
