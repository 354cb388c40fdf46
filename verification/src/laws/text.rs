//! What trimming and finding come to.
use crate::text::{
    ascii_lower, lower_char, place_of, starts_with, stripped, trim_end, trim_start, trimmed, white,
};
use vstd::prelude::*;

verus! {

/// Is it nothing but white space?
pub open spec fn blank(s: Seq<char>) -> bool {
    forall|i: int| 0 <= i < s.len() ==> white(#[trigger] s[i])
}

/// Does it begin and end with something to be seen?
pub open spec fn solid(s: Seq<char>) -> bool {
    s.len() > 0 && !white(s[0]) && !white(s.last())
}

/// White space is the space, the five ASCII controls that move the pen, and
/// what Unicode adds to them: nothing else in ASCII is, and no letter or digit
/// or punctuation mark.
pub proof fn white_space_in_ascii(c: char)
    requires
        c as int <= 0x7f,
    ensures
        white(c) <==> (c == ' ' || c == '\t' || c == '\n' || c == '\u{b}' || c == '\u{c}' || c
            == '\r'),
{
}

/// Beyond ASCII these are white space, and nothing else is.
pub proof fn white_space_beyond_ascii(c: char)
    requires
        c as int > 0x7f,
    ensures
        white(c) <==> seq![
            0x85int,
            0xa0,
            0x1680,
            0x2000,
            0x2001,
            0x2002,
            0x2003,
            0x2004,
            0x2005,
            0x2006,
            0x2007,
            0x2008,
            0x2009,
            0x200a,
            0x2028,
            0x2029,
            0x202f,
            0x205f,
            0x3000,
        ].contains(c as int),
{
    let list = seq![
        0x85int,
        0xa0,
        0x1680,
        0x2000,
        0x2001,
        0x2002,
        0x2003,
        0x2004,
        0x2005,
        0x2006,
        0x2007,
        0x2008,
        0x2009,
        0x200a,
        0x2028,
        0x2029,
        0x202f,
        0x205f,
        0x3000,
    ];
    let n = c as int;
    assert(list[0] == 0x85 && list[1] == 0xa0 && list[2] == 0x1680 && list[3] == 0x2000);
    assert(list[4] == 0x2001 && list[5] == 0x2002 && list[6] == 0x2003 && list[7] == 0x2004);
    assert(list[8] == 0x2005 && list[9] == 0x2006 && list[10] == 0x2007 && list[11] == 0x2008);
    assert(list[12] == 0x2009 && list[13] == 0x200a && list[14] == 0x2028 && list[15] == 0x2029);
    assert(list[16] == 0x202f && list[17] == 0x205f && list[18] == 0x3000);
    if list.contains(n) {
        let k = choose|k: int| 0 <= k < list.len() && list[k] == n;
        assert(list[k] == n);
    }
}

proof fn front_goes(front: Seq<char>, rest: Seq<char>)
    requires
        blank(front),
        rest.len() > 0 ==> !white(rest[0]),
    ensures
        trim_start(front + rest) == rest,
    decreases front.len(),
{
    if front.len() > 0 {
        let shorter = front.drop_first();
        assert(white(front[0]));
        assert forall|i: int| 0 <= i < shorter.len() implies white(#[trigger] shorter[i]) by {
            assert(shorter[i] == front[i + 1]);
        }
        front_goes(shorter, rest);
        assert((front + rest).drop_first() == shorter + rest);
        assert((front + rest)[0] == front[0]);
    } else {
        assert(front + rest == rest);
    }
}

proof fn back_goes(rest: Seq<char>, back: Seq<char>)
    requires
        blank(back),
        rest.len() > 0 ==> !white(rest.last()),
    ensures
        trim_end(rest + back) == rest,
    decreases back.len(),
{
    if back.len() > 0 {
        let shorter = back.drop_last();
        assert(white(back[back.len() - 1]));
        assert forall|i: int| 0 <= i < shorter.len() implies white(#[trigger] shorter[i]) by {
            assert(shorter[i] == back[i]);
        }
        back_goes(rest, shorter);
        assert((rest + back).drop_last() == rest + shorter);
        assert((rest + back).last() == back.last());
    } else {
        assert(rest + back == rest);
    }
}

/// Trimming takes away the white space in front and behind, and nothing of what
/// stands between.
pub proof fn trimming_leaves_the_middle(front: Seq<char>, middle: Seq<char>, back: Seq<char>)
    requires
        blank(front),
        blank(back),
        solid(middle),
    ensures
        trimmed(front + middle + back) == middle,
{
    assert(front + middle + back == front + (middle + back));
    assert((middle + back)[0] == middle[0]);
    front_goes(front, middle + back);
    back_goes(middle, back);
}

/// Of nothing but white space nothing is left.
pub proof fn trimming_leaves_nothing_of_nothing(s: Seq<char>)
    requires
        blank(s),
    ensures
        trimmed(s) == Seq::<char>::empty(),
{
    front_goes(s, Seq::empty());
    assert(s + Seq::<char>::empty() == s);
}

/// Every text is white space, something that is not, and white space, or it is
/// nothing but white space: trimming is said of every text.
pub proof fn every_text_has_a_middle(s: Seq<char>) -> (r: (Seq<char>, Seq<char>, Seq<char>))
    ensures
        s == r.0 + r.1 + r.2,
        blank(r.0),
        blank(r.2),
        solid(r.1) || r.1.len() == 0,
        r.1 == trimmed(s),
    decreases s.len(),
{
    if s.len() == 0 {
        assert(s == s + s + s);
        (s, s, s)
    } else if white(s[0]) {
        let (a, b, c) = every_text_has_a_middle(s.drop_first());
        let front = seq![s[0]] + a;
        assert(s == seq![s[0]] + s.drop_first());
        assert(seq![s[0]] + (a + b + c) == front + b + c);
        assert forall|i: int| 0 <= i < front.len() implies white(#[trigger] front[i]) by {
            if i > 0 {
                assert(front[i] == a[i - 1]);
            }
        }
        if b.len() > 0 {
            trimming_leaves_the_middle(front, b, c);
        } else {
            assert(front + b + c == front + c);
            assert forall|i: int| 0 <= i < s.len() implies white(#[trigger] s[i]) by {
                assert(s[i] == (front + c)[i]);
                if i >= front.len() {
                    assert(s[i] == c[i - front.len()]);
                } else {
                    assert(s[i] == front[i]);
                }
            }
            trimming_leaves_nothing_of_nothing(s);
        }
        (front, b, c)
    } else if white(s.last()) {
        let (a, b, c) = every_text_has_a_middle(s.drop_last());
        let back = c.push(s.last());
        assert(s == s.drop_last().push(s.last()));
        assert((a + b + c).push(s.last()) == a + b + back);
        assert forall|i: int| 0 <= i < back.len() implies white(#[trigger] back[i]) by {
            if i < c.len() {
                assert(back[i] == c[i]);
            }
        }
        if a.len() > 0 {
            assert(a[0] == s[0]);
            assert(white(a[0]));
        }
        if b.len() > 0 {
            trimming_leaves_the_middle(a, b, back);
        } else {
            assert(s[0] == s.drop_last()[0] || s.len() == 1);
            if s.len() > 1 {
                assert(c[0] == s[0]);
                assert(white(c[0]));
            }
        }
        (a, b, back)
    } else {
        let none = Seq::<char>::empty();
        assert(s == none + s + none);
        trimming_leaves_the_middle(none, s, none);
        (none, s, none)
    }
}

/// What stands first stands there, and nowhere before.
pub proof fn the_first_place(s: Seq<char>, part: Seq<char>, at: int)
    requires
        0 <= at <= s.len(),
        starts_with(s.skip(at), part),
        forall|i: int| 0 <= i < at ==> !starts_with(#[trigger] s.skip(i), part),
    ensures
        place_of(s, part) == Some(at),
    decreases s.len(),
{
    assert(s.skip(0) == s);
    if at > 0 {
        let rest = s.skip(1);
        assert(rest.skip(at - 1) == s.skip(at));
        assert forall|i: int| 0 <= i < at - 1 implies !starts_with(#[trigger] rest.skip(i), part) by {
            assert(rest.skip(i) == s.skip(i + 1));
        }
        the_first_place(rest, part, at - 1);
    }
}

/// What stands nowhere is not found.
pub proof fn no_place_at_all(s: Seq<char>, part: Seq<char>)
    requires
        forall|i: int| 0 <= i <= s.len() ==> !starts_with(#[trigger] s.skip(i), part),
    ensures
        place_of(s, part) is None,
    decreases s.len(),
{
    assert(s.skip(0) == s);
    if s.len() > 0 {
        let rest = s.skip(1);
        assert forall|i: int| 0 <= i <= rest.len() implies !starts_with(
            #[trigger] rest.skip(i),
            part,
        ) by {
            assert(rest.skip(i) == s.skip(i + 1));
        }
        no_place_at_all(rest, part);
    }
}

/// Taking a character off both ends leaves what stands between.
pub proof fn stripping_leaves_the_middle(
    front: Seq<char>,
    middle: Seq<char>,
    back: Seq<char>,
    c: char,
)
    requires
        forall|i: int| 0 <= i < front.len() ==> (#[trigger] front[i]) == c,
        forall|i: int| 0 <= i < back.len() ==> (#[trigger] back[i]) == c,
        middle.len() > 0,
        middle[0] != c,
        middle.last() != c,
    ensures
        stripped(front + middle + back, c) == middle,
    decreases front.len() + back.len(),
{
    let s = front + middle + back;
    if front.len() > 0 {
        assert(s[0] == front[0]);
        assert(s.skip(1) == front.skip(1) + middle + back);
        stripping_leaves_the_middle(front.skip(1), middle, back, c);
    } else {
        assert(s[0] == middle[0]);
        if back.len() > 0 {
            assert(s.last() == back[back.len() - 1]);
            assert(s.drop_last() == front + middle + back.drop_last());
            stripping_leaves_the_middle(front, middle, back.drop_last(), c);
        } else {
            assert(s == middle);
        }
    }
}

/// `A` to `Z` become `a` to `z`, each in its place, and every other character
/// stays what it is.
pub proof fn small_letters(s: Seq<char>, i: int)
    requires
        0 <= i < s.len(),
    ensures
        ascii_lower(s).len() == s.len(),
        'A' <= s[i] <= 'Z' ==> ascii_lower(s)[i] as int - 'a' as int == s[i] as int - 'A' as int,
        !('A' <= s[i] <= 'Z') ==> ascii_lower(s)[i] == s[i],
{
    assert(ascii_lower(s)[i] == lower_char(s[i]));
}

} // verus!
