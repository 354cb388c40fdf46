//! Putting a list in order, so that what is equal stays in the order in which
//! it came, and taking each entry once.
use crate::authz::listed;
use crate::text::{chars, texts};
use vstd::prelude::*;

verus! {

/// Where `x` goes in an ordered list: in front of the first entry that it
/// comes before.
pub open spec fn spot<T>(list: Seq<T>, x: T, before: spec_fn(T, T) -> bool) -> int
    decreases list.len(),
{
    if list.len() == 0 {
        0
    } else if before(x, list[0]) {
        0
    } else {
        1 + spot(list.drop_first(), x, before)
    }
}

/// The list in order.
pub open spec fn arranged<T>(list: Seq<T>, before: spec_fn(T, T) -> bool) -> Seq<T>
    decreases list.len(),
{
    if list.len() == 0 {
        Seq::empty()
    } else {
        let front = arranged(list.drop_last(), before);
        front.insert(spot(front, list.last(), before), list.last())
    }
}

/// An order in which two entries may be equal.
pub open spec fn is_order<T>(before: spec_fn(T, T) -> bool) -> bool {
    &&& forall|a: T| !#[trigger] before(a, a)
    &&& forall|a: T, b: T, c: T| #[trigger]
        before(a, b) && #[trigger] before(b, c) ==> before(a, c)
    &&& forall|a: T, b: T, c: T| !#[trigger] before(a, b) && !#[trigger] before(b, c) ==> !before(
        a,
        c,
    )
}

/// Nothing comes before what stands in front of it.
pub open spec fn in_order<T>(list: Seq<T>, before: spec_fn(T, T) -> bool) -> bool {
    forall|i: int, j: int|
        0 <= i < j < list.len() ==> !before(#[trigger] list[j], #[trigger] list[i])
}

pub proof fn spot_bounds<T>(list: Seq<T>, x: T, before: spec_fn(T, T) -> bool)
    ensures
        0 <= spot(list, x, before) <= list.len(),
        forall|i: int| 0 <= i < spot(list, x, before) ==> !before(x, #[trigger] list[i]),
        spot(list, x, before) < list.len() ==> before(x, list[spot(list, x, before)]),
    decreases list.len(),
{
    if list.len() > 0 && !before(x, list[0]) {
        let rest = list.drop_first();
        spot_bounds(rest, x, before);
        assert forall|i: int| 0 <= i < spot(list, x, before) implies !before(
            x,
            #[trigger] list[i],
        ) by {
            if i > 0 {
                assert(rest[i - 1] == list[i]);
            }
        }
    }
}

proof fn spot_found<T>(list: Seq<T>, x: T, before: spec_fn(T, T) -> bool, at: int)
    requires
        0 <= at <= list.len(),
        forall|i: int| 0 <= i < at ==> !before(x, #[trigger] list[i]),
        at < list.len() ==> before(x, list[at]),
    ensures
        spot(list, x, before) == at,
{
    spot_bounds(list, x, before);
}

/// What is arranged is in order, and holds what was there.
pub proof fn arranging_orders<T>(list: Seq<T>, before: spec_fn(T, T) -> bool)
    requires
        is_order(before),
    ensures
        in_order(arranged(list, before), before),
        arranged(list, before).len() == list.len(),
        arranged(list, before).to_multiset() == list.to_multiset(),
    decreases list.len(),
{
    broadcast use vstd::seq_lib::group_to_multiset_ensures;

    if list.len() > 0 {
        let rest = list.drop_last();
        let x = list.last();
        arranging_orders(rest, before);
        let front = arranged(rest, before);
        let at = spot(front, x, before);
        spot_bounds(front, x, before);
        let all = front.insert(at, x);
        assert forall|i: int, j: int| 0 <= i < j < all.len() implies !before(
            #[trigger] all[j],
            #[trigger] all[i],
        ) by {
            let a = if i < at {
                front[i]
            } else if i == at {
                x
            } else {
                front[i - 1]
            };
            let b = if j < at {
                front[j]
            } else if j == at {
                x
            } else {
                front[j - 1]
            };
            assert(all[i] == a && all[j] == b);
            if i == at {
                // Everything behind the spot comes after x, or at least not
                // before it.
                assert(before(x, front[at]));
                if j - 1 > at {
                    assert(!before(front[j - 1], front[at]));
                }
                if before(b, x) {
                    assert(before(b, front[at]));
                }
            }
        }
        assert(list == rest.push(x));
        assert(list.to_multiset() == rest.to_multiset().insert(x));
        assert(all.to_multiset() == front.to_multiset().insert(x));
    } else {
        assert(list == Seq::<T>::empty());
    }
}

/// Entries that are equal in the order stay in the order in which they came:
/// whatever a class of equal entries is told apart by, its members come out as
/// they went in.
pub proof fn arranging_is_stable<T>(
    list: Seq<T>,
    before: spec_fn(T, T) -> bool,
    class: spec_fn(T) -> bool,
)
    requires
        is_order(before),
        forall|a: T, b: T| class(a) && class(b) ==> !#[trigger] before(a, b),
        forall|a: T, b: T|
            class(a) && !#[trigger] before(a, b) && !before(b, a) ==> class(b),
    ensures
        arranged(list, before).filter(class) == list.filter(class),
    decreases list.len(),
{
    reveal(Seq::filter);
    if list.len() > 0 {
        let rest = list.drop_last();
        let x = list.last();
        arranging_is_stable(rest, before, class);
        arranging_orders(rest, before);
        let front = arranged(rest, before);
        let at = spot(front, x, before);
        spot_bounds(front, x, before);
        filter_of_insert(front, at, x, class);
        if class(x) {
            let tail = front.skip(at);
            assert forall|i: int| 0 <= i < tail.len() implies !class(#[trigger] tail[i]) by {
                assert(tail[i] == front[at + i]);
                assert(before(x, front[at]));
                if i > 0 {
                    assert(!before(front[at + i], front[at]));
                    if class(tail[i]) {
                        assert(!before(x, tail[i]));
                        assert(!before(x, front[at]));
                    }
                }
            }
            filter_of_none(tail, class);
            assert(front.take(at) + tail == front);
            filter_of_sum(front.take(at), tail, class);
            assert(front.take(at).filter(class) + Seq::<T>::empty() == front.take(at).filter(
                class,
            ));
            assert(front.take(at).filter(class).push(x) + Seq::<T>::empty() == front.filter(
                class,
            ).push(x));
        } else {
            filter_of_sum(front.take(at), front.skip(at), class);
            assert(front.take(at) + front.skip(at) == front);
        }
    }
}

proof fn filter_of_sum<T>(a: Seq<T>, b: Seq<T>, class: spec_fn(T) -> bool)
    ensures
        (a + b).filter(class) == a.filter(class) + b.filter(class),
    decreases b.len(),
{
    reveal(Seq::filter);
    if b.len() == 0 {
        assert(a + b == a);
        assert(a.filter(class) + b.filter(class) == a.filter(class));
    } else {
        filter_of_sum(a, b.drop_last(), class);
        assert((a + b).drop_last() == a + b.drop_last());
        assert((a + b).last() == b.last());
        assert(a.filter(class) + b.drop_last().filter(class).push(b.last()) == (a.filter(class)
            + b.drop_last().filter(class)).push(b.last()));
    }
}

proof fn filter_of_none<T>(list: Seq<T>, class: spec_fn(T) -> bool)
    requires
        forall|i: int| 0 <= i < list.len() ==> !class(#[trigger] list[i]),
    ensures
        list.filter(class) == Seq::<T>::empty(),
    decreases list.len(),
{
    reveal(Seq::filter);
    if list.len() > 0 {
        assert(!class(list[list.len() - 1]));
        assert forall|i: int| 0 <= i < list.drop_last().len() implies !class(
            #[trigger] list.drop_last()[i],
        ) by {
            assert(list.drop_last()[i] == list[i]);
        }
        filter_of_none(list.drop_last(), class);
    }
}

proof fn filter_of_insert<T>(list: Seq<T>, at: int, x: T, class: spec_fn(T) -> bool)
    requires
        0 <= at <= list.len(),
    ensures
        list.insert(at, x).filter(class) == (if class(x) {
            list.take(at).filter(class).push(x)
        } else {
            list.take(at).filter(class)
        }) + list.skip(at).filter(class),
{
    reveal(Seq::filter);
    let front = list.take(at).push(x);
    assert(list.insert(at, x) == front + list.skip(at));
    filter_of_sum(front, list.skip(at), class);
    assert(front.drop_last() == list.take(at));
    assert(front.last() == x);
}

/// Looking at the entries through a view does not change the order, if the
/// order looks only at the view.
pub proof fn arranging_views<T, U>(
    list: Seq<T>,
    view: spec_fn(T) -> U,
    before: spec_fn(T, T) -> bool,
    seen_before: spec_fn(U, U) -> bool,
)
    requires
        forall|a: T, b: T| #[trigger] before(a, b) == seen_before(view(a), view(b)),
    ensures
        arranged(list, before).map_values(view) == arranged(list.map_values(view), seen_before),
        arranged(list, before).len() == list.len(),
    decreases list.len(),
{
    if list.len() > 0 {
        let rest = list.drop_last();
        let x = list.last();
        arranging_views(rest, view, before, seen_before);
        let front = arranged(rest, before);
        spot_of_views(front, x, view, before, seen_before);
        spot_bounds(front, x, before);
        let at = spot(front, x, before);
        assert(list.map_values(view).drop_last() == rest.map_values(view));
        assert(list.map_values(view).last() == view(x));
        assert(front.insert(at, x).map_values(view) == front.map_values(view).insert(at, view(x)));
    } else {
        assert(list.map_values(view) == Seq::<U>::empty());
        assert(Seq::<T>::empty().map_values(view) == Seq::<U>::empty());
    }
}

proof fn spot_of_views<T, U>(
    list: Seq<T>,
    x: T,
    view: spec_fn(T) -> U,
    before: spec_fn(T, T) -> bool,
    seen_before: spec_fn(U, U) -> bool,
)
    requires
        forall|a: T, b: T| #[trigger] before(a, b) == seen_before(view(a), view(b)),
    ensures
        spot(list, x, before) == spot(list.map_values(view), view(x), seen_before),
{
    let seen = list.map_values(view);
    spot_bounds(list, x, before);
    let at = spot(list, x, before);
    assert forall|i: int| 0 <= i < at implies !seen_before(view(x), #[trigger] seen[i]) by {
        assert(!before(x, list[i]));
    }
    if at < list.len() {
        assert(before(x, list[at]));
    }
    spot_found(seen, view(x), seen_before, at);
}

/// The list in order.
pub(crate) fn arrange<T, F: Fn(&T, &T) -> bool>(
    list: Vec<T>,
    comes_before: F,
    Ghost(before): Ghost<spec_fn(T, T) -> bool>,
) -> (r: Vec<T>)
    requires
        forall|a: T, b: T| call_requires(comes_before, (&a, &b)),
        forall|a: T, b: T, c: bool|
            call_ensures(comes_before, (&a, &b), c) ==> c == before(a, b),
    ensures
        r@ == arranged(list@, before),
{
    let ghost given = list@;
    let mut rest = list;
    let mut out: Vec<T> = Vec::new();
    assert(given.take(0) == Seq::<T>::empty());
    assert(given.skip(0) == given);
    while rest.len() > 0
        invariant
            forall|a: T, b: T| call_requires(comes_before, (&a, &b)),
            forall|a: T, b: T, c: bool|
                call_ensures(comes_before, (&a, &b), c) ==> c == before(a, b),
            rest@.len() <= given.len(),
            rest@ == given.skip(given.len() - rest@.len()),
            out@ == arranged(given.take(given.len() - rest@.len()), before),
        decreases rest@.len(),
    {
        let ghost done = given.len() - rest@.len();
        let x = rest.remove(0);
        assert(x == given[done]);
        assert(rest@ == given.skip(done + 1));
        let mut at: usize = 0;
        while at < out.len() && !comes_before(&x, &out[at])
            invariant
                forall|a: T, b: T| call_requires(comes_before, (&a, &b)),
                forall|a: T, b: T, c: bool|
                    call_ensures(comes_before, (&a, &b), c) ==> c == before(a, b),
                at <= out@.len(),
                forall|i: int| 0 <= i < at ==> !before(x, #[trigger] out@[i]),
            decreases out@.len() - at,
        {
            at += 1;
        }
        proof {
            spot_found(out@, x, before, at as int);
            assert(given.take(done + 1).drop_last() == given.take(done));
            assert(given.take(done + 1).last() == x);
        }
        out.insert(at, x);
    }
    assert(given.take(given.len() as int) == given);
    out
}

/// Does the first text come before the second, character by character?
pub open spec fn text_before(a: Seq<char>, b: Seq<char>) -> bool
    decreases a.len(),
{
    if b.len() == 0 {
        false
    } else if a.len() == 0 {
        true
    } else if a[0] != b[0] {
        a[0] < b[0]
    } else {
        text_before(a.drop_first(), b.drop_first())
    }
}

pub fn comes_before(a: &[char], b: &[char]) -> (r: bool)
    ensures
        r == text_before(a@, b@),
{
    let mut i: usize = 0;
    assert(a@.skip(0) == a@ && b@.skip(0) == b@);
    while i < a.len() && i < b.len()
        invariant
            i <= a@.len(),
            i <= b@.len(),
            text_before(a@, b@) == text_before(a@.skip(i as int), b@.skip(i as int)),
        decreases a@.len() - i,
    {
        let ghost (x, y) = (a@.skip(i as int), b@.skip(i as int));
        assert(x[0] == a@[i as int] && y[0] == b@[i as int]);
        assert(x.drop_first() == a@.skip(i + 1) && y.drop_first() == b@.skip(i + 1));
        if a[i] != b[i] {
            return a[i] < b[i];
        }
        i += 1;
    }
    i < b.len()
}

pub proof fn text_before_irreflexive(a: Seq<char>)
    ensures
        !text_before(a, a),
    decreases a.len(),
{
    if a.len() > 0 {
        text_before_irreflexive(a.drop_first());
    }
}

pub proof fn text_before_transitive(a: Seq<char>, b: Seq<char>, c: Seq<char>)
    requires
        text_before(a, b),
        text_before(b, c),
    ensures
        text_before(a, c),
    decreases a.len(),
{
    if a.len() > 0 && b.len() > 0 && c.len() > 0 && a[0] == b[0] && b[0] == c[0] {
        text_before_transitive(a.drop_first(), b.drop_first(), c.drop_first());
    }
}

/// Of two different texts one comes first.
pub proof fn text_before_total(a: Seq<char>, b: Seq<char>)
    ensures
        a == b || text_before(a, b) || text_before(b, a),
        !(text_before(a, b) && text_before(b, a)),
    decreases a.len(),
{
    if a.len() > 0 && b.len() > 0 && a[0] == b[0] {
        text_before_total(a.drop_first(), b.drop_first());
        if a.drop_first() == b.drop_first() {
            assert(a =~= seq![a[0]] + a.drop_first());
            assert(b =~= seq![b[0]] + b.drop_first());
        }
    } else if a.len() == 0 && b.len() == 0 {
        assert(a =~= b);
    }
}

pub proof fn text_before_is_order()
    ensures
        is_order(|a: Seq<char>, b: Seq<char>| text_before(a, b)),
{
    let before = |a: Seq<char>, b: Seq<char>| text_before(a, b);
    assert forall|a: Seq<char>| !#[trigger] before(a, a) by {
        text_before_irreflexive(a);
    }
    assert forall|a: Seq<char>, b: Seq<char>, c: Seq<char>| #[trigger]
        before(a, b) && #[trigger] before(b, c) implies before(a, c) by {
        text_before_transitive(a, b, c);
    }
    assert forall|a: Seq<char>, b: Seq<char>, c: Seq<char>|
        !#[trigger] before(a, b) && !#[trigger] before(b, c) implies !before(a, c) by {
        text_before_total(a, b);
        text_before_total(b, c);
        text_before_irreflexive(a);
        if before(a, c) {
            if a == b {
            } else if b == c {
            } else {
                text_before_transitive(c, b, a);
                text_before_total(a, c);
            }
        }
    }
}

/// Each entry once, where it first stood.
pub open spec fn once_each(list: Seq<Seq<char>>) -> Seq<Seq<char>>
    decreases list.len(),
{
    if list.len() == 0 {
        Seq::empty()
    } else {
        let before = once_each(list.drop_last());
        if before.contains(list.last()) {
            before
        } else {
            before.push(list.last())
        }
    }
}

/// The list with every later repetition left out.
pub fn first_of_each(list: &[String]) -> (r: Vec<String>)
    ensures
        texts(r@) == once_each(texts(list@)),
{
    let ghost all = texts(list@);
    let mut out: Vec<String> = Vec::new();
    let mut i: usize = 0;
    assert(texts(out@) == once_each(all.take(0)));
    while i < list.len()
        invariant
            i <= list@.len(),
            all == texts(list@),
            texts(out@) == once_each(all.take(i as int)),
        decreases list@.len() - i,
    {
        assert(all.take(i + 1).drop_last() == all.take(i as int));
        assert(all.take(i + 1).last() == list@[i as int]@);
        if !listed(&out, &list[i]) {
            let ghost before = texts(out@);
            out.push(list[i].clone());
            assert(texts(out@) == before.push(list@[i as int]@));
        }
        i += 1;
    }
    assert(all.take(i as int) == all);
    out
}

/// Taking each entry once neither adds nor loses one.
pub proof fn each_once(list: Seq<Seq<char>>)
    ensures
        once_each(list).no_duplicates(),
        forall|x: Seq<char>| once_each(list).contains(x) == #[trigger] list.contains(x),
    decreases list.len(),
{
    if list.len() > 0 {
        let front = list.drop_last();
        let last = list.last();
        each_once(front);
        let before = once_each(front);
        assert forall|x: Seq<char>| once_each(list).contains(x) == #[trigger] list.contains(x) by {
            assert(front.contains(x) == before.contains(x));
            if front.contains(x) {
                let j = choose|j: int| 0 <= j < front.len() && front[j] == x;
                assert(list[j] == x);
            }
            if list.contains(x) {
                let j = choose|j: int| 0 <= j < list.len() && list[j] == x;
                if j < front.len() {
                    assert(front[j] == x);
                } else {
                    assert(x == last);
                }
            }
            if before.contains(x) {
                let j = choose|j: int| 0 <= j < before.len() && before[j] == x;
                assert(once_each(list)[j] == x);
            }
            if !before.contains(last) {
                assert(before.push(last)[before.len() as int] == last);
            }
            assert(list[list.len() - 1] == last);
            if once_each(list).contains(x) {
                let j = choose|j: int| 0 <= j < once_each(list).len() && once_each(list)[j] == x;
                if j < before.len() {
                    assert(before[j] == x);
                }
            }
        }
    }
}

/// The texts in their order.
pub open spec fn sorted_texts(list: Seq<Seq<char>>) -> Seq<Seq<char>> {
    arranged(list, |a: Seq<char>, b: Seq<char>| text_before(a, b))
}

/// Puts texts in their order.
pub fn sorted(list: Vec<String>) -> (r: Vec<String>)
    ensures
        texts(r@) == sorted_texts(texts(list@)),
{
    let ghost before = |a: String, b: String| text_before(a@, b@);
    let ghost seen_before = |a: Seq<char>, b: Seq<char>| text_before(a, b);
    let ghost given = list@;
    let first = |a: &String, b: &String| -> (r: bool)
        ensures
            r == text_before(a@, b@),
        { comes_before(&chars(a), &chars(b)) };
    let out = arrange(list, first, Ghost(before));
    proof {
        arranging_views(given, |text: String| text@, before, seen_before);
        assert(given.map_values(|text: String| text@) == texts(given));
        assert(out@.map_values(|text: String| text@) == texts(out@));
    }
    out
}

/// Sorting texts neither adds nor loses one, and leaves them in their order.
pub proof fn sorting_keeps(list: Seq<Seq<char>>, x: Seq<char>)
    ensures
        sorted_texts(list).contains(x) == list.contains(x),
        sorted_texts(list).len() == list.len(),
        in_order(sorted_texts(list), |a: Seq<char>, b: Seq<char>| text_before(a, b)),
{
    broadcast use vstd::seq_lib::group_to_multiset_ensures;

    text_before_is_order();
    arranging_orders(list, |a: Seq<char>, b: Seq<char>| text_before(a, b));
    assert(sorted_texts(list).to_multiset().count(x) == list.to_multiset().count(x));
}

/// A page of a list: at most `limit` entries, behind the first `offset`.
pub open spec fn page_of<T>(all: Seq<T>, limit: int, offset: int) -> Seq<T> {
    let from = if offset < all.len() {
        offset
    } else {
        all.len() as int
    };
    let to = if from + limit < all.len() {
        from + limit
    } else {
        all.len() as int
    };
    all.subrange(from, to)
}

/// A page of a list.
pub(crate) fn paged<T>(all: Vec<T>, limit: i64, offset: i64) -> (r: Vec<T>)
    requires
        limit >= 0,
        offset >= 0,
    ensures
        r@ == page_of(all@, limit as int, offset as int),
{
    let mut all = all;
    let size: usize = all.len();
    let from: usize = if (offset as u64) < size as u64 {
        offset as usize
    } else {
        size
    };
    let mut page = all.split_off(from);
    if (limit as u64) < page.len() as u64 {
        page.truncate(limit as usize);
    }
    page
}

/// Two neighbouring pages are one long page: paging leaves nothing out and
/// shows nothing twice.
pub proof fn pages_join<T>(all: Seq<T>, first: int, second: int, offset: int)
    requires
        first >= 0,
        second >= 0,
        offset >= 0,
    ensures
        page_of(all, first, offset) + page_of(all, second, offset + first) == page_of(
            all,
            first + second,
            offset,
        ),
{
    assert(page_of(all, first, offset) + page_of(all, second, offset + first) =~= page_of(
        all,
        first + second,
        offset,
    ));
}

} // verus!
