//! `@handle`: from the text of a post to the people who may be told.
//!
//! Three layers meet here and nowhere else, the Markdown (`markup`), the
//! accounts (`db::accounts`) and the rule (`authz`), so that "who is told" and
//! "what is highlighted" are the SAME answer. If they were decided in two
//! places, the page could highlight a name whose owner was never told, or the
//! other way round, and the second is a leak.
use crate::authz::{listed, shares_group, Identity};
use crate::config::{Space, SpaceView};
use crate::db::accounts::{answering, by_handles, known_view, Known, KnownView};
use crate::markup::{mentioned, mentions};
use crate::order::{
    arrange, arranged, arranging_orders, arranging_views, comes_before, each_once, in_order,
    is_order, once_each, text_before, text_before_irreflexive, text_before_total, text_before_transitive,
};
use crate::text::{chars, copied, same, texts};
use vstd::prelude::*;

verus! {

/// May this account, as it signed in last, read the space?
pub open spec fn known_reads(known: KnownView, space: SpaceView) -> bool {
    shares_group(known.groups, space.read)
}

/// THE rule, once: may this account, as it signed in last, read the space?
pub fn may_read(known: &Known, space: &Space) -> (r: bool)
    ensures
        r == known_reads(known@, space@),
{
    let as_they_were = Identity {
        subject: known.subject.clone(),
        name: String::new(),
        groups: copied(&known.groups),
        email: None,
        handle: Some(known.handle.clone()),
    };
    crate::authz::may_read(&as_they_were, space)
}

/// Those among the accounts who may read the space.
pub open spec fn reading(accounts: Seq<KnownView>, space: SpaceView) -> Seq<KnownView>
    decreases accounts.len(),
{
    if accounts.len() == 0 {
        Seq::empty()
    } else {
        let before = reading(accounts.drop_last(), space);
        if known_reads(accounts.last(), space) {
            before.push(accounts.last())
        } else {
            before
        }
    }
}

/// The accounts behind `handles` that may read `space`.
pub open spec fn readers_of(
    accounts: Seq<KnownView>,
    space: SpaceView,
    handles: Seq<Seq<char>>,
) -> Seq<KnownView> {
    reading(answering(accounts, handles), space)
}

/// The accounts behind `handles` that may read `space`, by the groups of their
/// last sign-in. Everybody else, unknown, without a handle, without the groups,
/// is left out, and nothing says which of those it was.
pub fn readers(accounts: &[Known], space: &Space, handles: &[String]) -> (r: Vec<Known>)
    ensures
        known_view(r@) == readers_of(known_view(accounts@), space@, texts(handles@)),
{
    let found = by_handles(accounts, handles);
    let ghost all = known_view(found@);
    let mut out: Vec<Known> = Vec::new();
    let mut i: usize = 0;
    assert(known_view(out@) == reading(all.take(0), space@));
    while i < found.len()
        invariant
            i <= found@.len(),
            all == known_view(found@),
            known_view(out@) == reading(all.take(i as int), space@),
        decreases found@.len() - i,
    {
        assert(all.take(i + 1).drop_last() == all.take(i as int));
        assert(all.take(i + 1).last() == found@[i as int]@);
        if may_read(&found[i], space) {
            let ghost before = known_view(out@);
            out.push(found[i].copy());
            assert(known_view(out@) == before.push(found@[i as int]@));
        }
        i += 1;
    }
    assert(all.take(i as int) == all);
    out
}

/// The subjects of these accounts, one of them left out.
pub open spec fn subjects_but(known: Seq<KnownView>, one: Seq<char>) -> Seq<Seq<char>>
    decreases known.len(),
{
    if known.len() == 0 {
        Seq::empty()
    } else {
        let before = subjects_but(known.drop_last(), one);
        if known.last().subject == one {
            before
        } else {
            before.push(known.last().subject)
        }
    }
}

/// The subjects to tell about a post: mentioned, readers of the space, and not
/// the writer.
pub open spec fn told(
    accounts: Seq<KnownView>,
    space: SpaceView,
    writer: Seq<char>,
    markdown: Seq<char>,
) -> Seq<Seq<char>> {
    subjects_but(readers_of(accounts, space, mentioned(markdown)), writer)
}

/// The subjects to tell about these mentions.
pub fn to_tell_of(accounts: &[Known], space: &Space, writer: &str, handles: &[String]) -> (r: Vec<
    String,
>)
    ensures
        texts(r@) == subjects_but(
            readers_of(known_view(accounts@), space@, texts(handles@)),
            writer@,
        ),
{
    let found = readers(accounts, space, handles);
    let ghost all = known_view(found@);
    let mut out: Vec<String> = Vec::new();
    let mut i: usize = 0;
    assert(texts(out@) == subjects_but(all.take(0), writer@));
    while i < found.len()
        invariant
            i <= found@.len(),
            all == known_view(found@),
            texts(out@) == subjects_but(all.take(i as int), writer@),
        decreases found@.len() - i,
    {
        assert(all.take(i + 1).drop_last() == all.take(i as int));
        assert(all.take(i + 1).last() == found@[i as int]@);
        if !same(&found[i].subject, writer) {
            let ghost before = texts(out@);
            out.push(found[i].subject.clone());
            assert(texts(out@) == before.push(found@[i as int].subject@));
        }
        i += 1;
    }
    assert(all.take(i as int) == all);
    out
}

/// The subjects to tell about a post: mentioned, readers of the space, and not
/// the writer.
pub fn to_tell(accounts: &[Known], space: &Space, writer: &str, markdown: &str) -> (r: Vec<String>)
    ensures
        texts(r@) == told(known_view(accounts@), space@, writer@, markdown@),
{
    let handles = mentions(markdown);
    to_tell_of(accounts, space, writer, &handles)
}

/// The handles that the posts mention, in order.
pub open spec fn mentioned_by(bodies: Seq<Seq<char>>) -> Seq<Seq<char>>
    decreases bodies.len(),
{
    if bodies.len() == 0 {
        Seq::empty()
    } else {
        mentioned_by(bodies.drop_last()) + mentioned(bodies.last())
    }
}

/// The handles of these accounts.
pub open spec fn handles_among(known: Seq<KnownView>) -> Seq<Seq<char>> {
    Seq::new(known.len(), |i: int| known[i].handle)
}

/// The handles on a page that are highlighted.
pub open spec fn marked_on(
    accounts: Seq<KnownView>,
    space: SpaceView,
    bodies: Seq<Seq<char>>,
) -> Seq<Seq<char>> {
    handles_among(readers_of(accounts, space, once_each(mentioned_by(bodies))))
}

/// The handles of the accounts that may read the space, behind these handles.
pub fn highlighted_of(accounts: &[Known], space: &Space, handles: &[String]) -> (r: Vec<String>)
    ensures
        texts(r@) == handles_among(readers_of(known_view(accounts@), space@, texts(handles@))),
{
    let found = readers(accounts, space, handles);
    let ghost wanted = handles_among(known_view(found@));
    let mut out: Vec<String> = Vec::new();
    let mut i: usize = 0;
    while i < found.len()
        invariant
            i <= found@.len(),
            wanted == handles_among(known_view(found@)),
            texts(out@) == wanted.take(i as int),
        decreases found@.len() - i,
    {
        let ghost before = texts(out@);
        out.push(found[i].handle.clone());
        assert(texts(out@) == before.push(found@[i as int].handle@));
        assert(wanted.take(i + 1) == wanted.take(i as int).push(found@[i as int].handle@));
        i += 1;
    }
    assert(wanted.take(i as int) == wanted);
    out
}

/// The handles on a page that are highlighted: the same rule as `to_tell`,
/// asked once for all posts on it. The writer is NOT removed here: your own
/// name in your own post is still a name that may read the space.
pub fn highlighted(accounts: &[Known], space: &Space, bodies: &[String]) -> (r: Vec<String>)
    ensures
        texts(r@) == marked_on(known_view(accounts@), space@, texts(bodies@)),
{
    let ghost all = texts(bodies@);
    let ghost mut done: Seq<Seq<char>> = Seq::empty();
    let mut handles: Vec<String> = Vec::new();
    let mut i: usize = 0;
    assert(texts(handles@) == once_each(done));
    while i < bodies.len()
        invariant
            i <= bodies@.len(),
            all == texts(bodies@),
            done == mentioned_by(all.take(i as int)),
            texts(handles@) == once_each(done),
        decreases bodies@.len() - i,
    {
        assert(all.take(i + 1).drop_last() == all.take(i as int));
        assert(all.take(i + 1).last() == bodies@[i as int]@);
        let found = mentions(&bodies[i]);
        let ghost start = done;
        let mut k: usize = 0;
        assert(start + texts(found@).take(0) == start);
        while k < found.len()
            invariant
                k <= found@.len(),
                done == start + texts(found@).take(k as int),
                texts(handles@) == once_each(done),
            decreases found@.len() - k,
        {
            let handle = &found[k];
            proof {
                let next = done.push(handle@);
                assert(next.drop_last() == done);
                assert(texts(found@).take(k + 1) == texts(found@).take(k as int).push(handle@));
                assert(start + texts(found@).take(k + 1) == next);
                done = next;
            }
            let ghost before = texts(handles@);
            if !listed(&handles, handle) {
                handles.push(handle.clone());
                assert(texts(handles@) == before.push(handle@));
            }
            k += 1;
        }
        assert(texts(found@).take(k as int) == texts(found@));
        i += 1;
    }
    assert(all.take(i as int) == all);
    highlighted_of(accounts, space, &handles)
}

/// One line of the suggestion list: what the overlay shows, and what it
/// writes. Nothing else leaves the server, no subject, no address.
#[derive(Debug, Clone)]
pub struct Offer {
    pub name: String,
    pub handle: String,
}

pub struct OfferView {
    pub name: Seq<char>,
    pub handle: Seq<char>,
}

impl View for Offer {
    type V = OfferView;

    open spec fn view(&self) -> OfferView {
        OfferView { name: self.name@, handle: self.handle@ }
    }
}

pub open spec fn offers_view(offers: Seq<Offer>) -> Seq<OfferView> {
    offers.map_values(|offer: Offer| offer@)
}

/// A text in small letters, by Unicode's rules.
pub uninterp spec fn lowercased(s: Seq<char>) -> Seq<char>;

/// `str::to_lowercase`: a function of the text alone.
pub assume_specification[ str::to_lowercase ](s: &str) -> (r: String)
    ensures
        r@ == lowercased(s@),
;

/// By name, whatever the case, and then by handle.
pub open spec fn offer_before(a: OfferView, b: OfferView) -> bool {
    let (x, y) = (lowercased(a.name), lowercased(b.name));
    text_before(x, y) || (x == y && text_before(a.handle, b.handle))
}

/// What may be offered, in the order in which the accounts are known.
pub open spec fn offerable(
    accounts: Seq<(Seq<char>, KnownView)>,
    space: SpaceView,
    except: Seq<char>,
) -> Seq<OfferView>
    decreases accounts.len(),
{
    if accounts.len() == 0 {
        Seq::empty()
    } else {
        let before = offerable(accounts.drop_last(), space, except);
        let (name, known) = accounts.last();
        if known.subject != except && known_reads(known, space) {
            before.push(OfferView { name, handle: known.handle })
        } else {
            before
        }
    }
}

pub open spec fn named_view(accounts: Seq<(String, Known)>) -> Seq<(Seq<char>, KnownView)> {
    Seq::new(accounts.len(), |i: int| (accounts[i].0@, accounts[i].1@))
}

fn offer_first(a: &Offer, b: &Offer) -> (r: bool)
    ensures
        r == offer_before(a@, b@),
{
    let x = chars(&a.name.as_str().to_lowercase());
    let y = chars(&b.name.as_str().to_lowercase());
    if comes_before(&x, &y) {
        return true;
    }
    proof {
        text_before_total(x@, y@);
        text_before_irreflexive(x@);
    }
    !comes_before(&y, &x) && comes_before(&chars(&a.handle), &chars(&b.handle))
}

/// Everybody who could be mentioned in this space, by name: the same rule as
/// `to_tell` and `highlighted`, asked of every account with a handle. A list
/// that showed more would say who exists, which the mention itself is careful
/// never to do.
///
/// `except` is whoever asks: mentioning yourself does nothing, so offering
/// yourself is noise.
pub fn offered(accounts: &[(String, Known)], space: &Space, except: &str) -> (r: Vec<Offer>)
    ensures
        offers_view(r@) == arranged(
            offerable(named_view(accounts@), space@, except@),
            |a: OfferView, b: OfferView| offer_before(a, b),
        ),
{
    let ghost all = named_view(accounts@);
    let mut out: Vec<Offer> = Vec::new();
    let mut i: usize = 0;
    assert(offers_view(out@) == offerable(all.take(0), space@, except@));
    while i < accounts.len()
        invariant
            i <= accounts@.len(),
            all == named_view(accounts@),
            offers_view(out@) == offerable(all.take(i as int), space@, except@),
        decreases accounts@.len() - i,
    {
        assert(all.take(i + 1).drop_last() == all.take(i as int));
        assert(all.take(i + 1).last() == all[i as int]);
        let (name, known) = &accounts[i];
        if !same(&known.subject, except) && may_read(known, space) {
            let ghost before = offers_view(out@);
            let offer = Offer { name: name.clone(), handle: known.handle.clone() };
            let ghost seen = offer@;
            out.push(offer);
            assert(offers_view(out@) == before.push(seen));
        }
        i += 1;
    }
    assert(all.take(i as int) == all);
    let ghost before = |a: Offer, b: Offer| offer_before(a@, b@);
    let ghost seen_before = |a: OfferView, b: OfferView| offer_before(a, b);
    let ghost given = out@;
    let first = |a: &Offer, b: &Offer| -> (r: bool)
        ensures
            r == offer_before(a@, b@),
        { offer_first(a, b) };
    let sorted = arrange(out, first, Ghost(before));
    proof {
        arranging_views(given, |offer: Offer| offer@, before, seen_before);
    }
    sorted
}

/// Is this account among those to be told or highlighted for these handles?
pub open spec fn may_be_told(
    known: KnownView,
    accounts: Seq<KnownView>,
    space: SpaceView,
    handles: Seq<Seq<char>>,
) -> bool {
    accounts.contains(known) && handles.contains(known.handle) && known_reads(known, space)
}

proof fn answering_holds(accounts: Seq<KnownView>, handles: Seq<Seq<char>>)
    ensures
        forall|k: KnownView| #[trigger]
            answering(accounts, handles).contains(k) <==> accounts.contains(k)
                && handles.contains(k.handle),
    decreases accounts.len(),
{
    if accounts.len() > 0 {
        let front = accounts.drop_last();
        answering_holds(front, handles);
        let before = answering(front, handles);
        let after = answering(accounts, handles);
        assert forall|k: KnownView| #[trigger] after.contains(k) <==> accounts.contains(k)
            && handles.contains(k.handle) by {
            assert(before.contains(k) <==> front.contains(k) && handles.contains(k.handle));
            member_of_extended(front, accounts, k);
            if handles.contains(accounts.last().handle) {
                assert(after.drop_last() == before);
                member_of_extended(before, after, k);
            }
        }
    }
}

proof fn member_of_extended(front: Seq<KnownView>, all: Seq<KnownView>, k: KnownView)
    requires
        all.len() == front.len() + 1,
        all.drop_last() == front,
    ensures
        all.contains(k) <==> front.contains(k) || k == all.last(),
{
    if front.contains(k) {
        let j = choose|j: int| 0 <= j < front.len() && front[j] == k;
        assert(all[j] == k);
    }
    if all.contains(k) {
        let j = choose|j: int| 0 <= j < all.len() && all[j] == k;
        if j < front.len() {
            assert(front[j] == k);
        }
    }
    assert(all[all.len() - 1] == all.last());
}

proof fn reading_holds(accounts: Seq<KnownView>, space: SpaceView)
    ensures
        forall|k: KnownView| #[trigger]
            reading(accounts, space).contains(k) <==> accounts.contains(k) && known_reads(k, space),
    decreases accounts.len(),
{
    if accounts.len() > 0 {
        let front = accounts.drop_last();
        reading_holds(front, space);
        let before = reading(front, space);
        let after = reading(accounts, space);
        assert forall|k: KnownView| #[trigger] after.contains(k) <==> accounts.contains(k)
            && known_reads(k, space) by {
            assert(before.contains(k) <==> front.contains(k) && known_reads(k, space));
            member_of_extended(front, accounts, k);
            if known_reads(accounts.last(), space) {
                assert(after.drop_last() == before);
                member_of_extended(before, after, k);
            }
        }
    }
}

/// Readers are exactly the accounts that hold one of the handles and may read
/// the space.
pub proof fn readers_are_those_who_may_read(
    accounts: Seq<KnownView>,
    space: SpaceView,
    handles: Seq<Seq<char>>,
)
    ensures
        forall|k: KnownView| #[trigger]
            readers_of(accounts, space, handles).contains(k) <==> may_be_told(
                k,
                accounts,
                space,
                handles,
            ),
{
    answering_holds(accounts, handles);
    reading_holds(answering(accounts, handles), space);
}

proof fn subjects_but_holds(known: Seq<KnownView>, one: Seq<char>)
    ensures
        forall|s: Seq<char>| #[trigger]
            subjects_but(known, one).contains(s) <==> s != one && exists|k: KnownView| #[trigger]
                known.contains(k) && k.subject == s,
    decreases known.len(),
{
    if known.len() > 0 {
        let front = known.drop_last();
        subjects_but_holds(front, one);
        let before = subjects_but(front, one);
        let after = subjects_but(known, one);
        let last = known.last();
        assert forall|s: Seq<char>| #[trigger] after.contains(s) <==> s != one && exists|
            k: KnownView,
        | #[trigger] known.contains(k) && k.subject == s by {
            assert(before.contains(s) <==> s != one && exists|k: KnownView| #[trigger]
                front.contains(k) && k.subject == s);
            if exists|k: KnownView| #[trigger] front.contains(k) && k.subject == s {
                let k = choose|k: KnownView| #[trigger] front.contains(k) && k.subject == s;
                member_of_extended(front, known, k);
                assert(known.contains(k));
            }
            if exists|k: KnownView| #[trigger] known.contains(k) && k.subject == s {
                let k = choose|k: KnownView| #[trigger] known.contains(k) && k.subject == s;
                member_of_extended(front, known, k);
            }
            member_of_extended(front, known, last);
            if last.subject != one {
                assert(after[before.len() as int] == last.subject);
                if before.contains(s) {
                    let j = choose|j: int| 0 <= j < before.len() && before[j] == s;
                    assert(after[j] == s);
                }
                if after.contains(s) {
                    let j = choose|j: int| 0 <= j < after.len() && after[j] == s;
                    if j < before.len() {
                        assert(before[j] == s);
                    }
                }
            }
        }
    }
}

/// A mention tells exactly those who are mentioned, may read the space, and
/// did not write the post.
pub proof fn told_are_the_mentioned_readers(
    accounts: Seq<KnownView>,
    space: SpaceView,
    writer: Seq<char>,
    markdown: Seq<char>,
)
    ensures
        forall|s: Seq<char>| #[trigger]
            told(accounts, space, writer, markdown).contains(s) <==> s != writer && exists|
                k: KnownView,
            | #[trigger]
                may_be_told(k, accounts, space, mentioned(markdown)) && k.subject == s,
{
    let handles = mentioned(markdown);
    let known = readers_of(accounts, space, handles);
    readers_are_those_who_may_read(accounts, space, handles);
    subjects_but_holds(known, writer);
    assert forall|s: Seq<char>| #[trigger]
        told(accounts, space, writer, markdown).contains(s) <==> s != writer && exists|
            k: KnownView,
        | #[trigger] may_be_told(k, accounts, space, handles) && k.subject == s by {
        if exists|k: KnownView| #[trigger] known.contains(k) && k.subject == s {
            let k = choose|k: KnownView| #[trigger] known.contains(k) && k.subject == s;
            assert(may_be_told(k, accounts, space, handles));
        }
        if exists|k: KnownView| #[trigger]
            may_be_told(k, accounts, space, handles) && k.subject == s {
            let k = choose|k: KnownView| #[trigger]
                may_be_told(k, accounts, space, handles) && k.subject == s;
            assert(known.contains(k));
        }
    }
}

/// What is highlighted on a page is exactly the handles that are mentioned on
/// it by somebody and held by an account that may read the space.
pub proof fn highlighted_are_the_mentioned_readers(
    accounts: Seq<KnownView>,
    space: SpaceView,
    bodies: Seq<Seq<char>>,
)
    ensures
        forall|h: Seq<char>| #[trigger]
            marked_on(accounts, space, bodies).contains(h) <==> exists|k: KnownView| #[trigger]
                may_be_told(k, accounts, space, mentioned_by(bodies)) && k.handle == h,
{
    let all = mentioned_by(bodies);
    let handles = once_each(all);
    each_once(all);
    let known = readers_of(accounts, space, handles);
    readers_are_those_who_may_read(accounts, space, handles);
    let marked = marked_on(accounts, space, bodies);
    assert forall|h: Seq<char>| #[trigger] marked.contains(h) <==> exists|k: KnownView| #[trigger]
        may_be_told(k, accounts, space, all) && k.handle == h by {
        if marked.contains(h) {
            let j = choose|j: int| 0 <= j < marked.len() && marked[j] == h;
            let k = known[j];
            assert(known.contains(k));
            assert(handles.contains(k.handle) == all.contains(k.handle));
            assert(may_be_told(k, accounts, space, all));
        }
        if exists|k: KnownView| #[trigger]
            may_be_told(k, accounts, space, all) && k.handle == h {
            let k = choose|k: KnownView| #[trigger]
                may_be_told(k, accounts, space, all) && k.handle == h;
            assert(handles.contains(k.handle) == all.contains(k.handle));
            assert(may_be_told(k, accounts, space, handles));
            assert(known.contains(k));
            let j = choose|j: int| 0 <= j < known.len() && known[j] == k;
            assert(marked[j] == h);
        }
    }
}

/// "Who is told" and "what is highlighted" are the same answer: of a post,
/// everybody who is told is highlighted, and everybody who is highlighted is
/// told, unless they wrote it.
pub proof fn told_and_highlighted_agree(
    accounts: Seq<KnownView>,
    space: SpaceView,
    writer: Seq<char>,
    markdown: Seq<char>,
    known: KnownView,
)
    requires
        accounts.contains(known),
    ensures
        may_be_told(known, accounts, space, mentioned(markdown)) ==> {
            &&& marked_on(accounts, space, seq![markdown]).contains(known.handle)
            &&& known.subject != writer ==> told(accounts, space, writer, markdown).contains(
                known.subject,
            )
        },
        told(accounts, space, writer, markdown).contains(known.subject) ==> exists|k: KnownView|
            k.subject == known.subject && #[trigger] marked_on(
                accounts,
                space,
                seq![markdown],
            ).contains(k.handle) && accounts.contains(k),
{
    let one = seq![markdown];
    reveal_with_fuel(mentioned_by, 2);
    assert(one.drop_last() == Seq::<Seq<char>>::empty());
    assert(mentioned_by(one) == mentioned(markdown)) by {
        assert(Seq::<Seq<char>>::empty() + mentioned(markdown) == mentioned(markdown));
    }
    told_are_the_mentioned_readers(accounts, space, writer, markdown);
    highlighted_are_the_mentioned_readers(accounts, space, one);
    let marked = marked_on(accounts, space, one);
    if may_be_told(known, accounts, space, mentioned(markdown)) {
        assert(marked.contains(known.handle));
    }
    if told(accounts, space, writer, markdown).contains(known.subject) {
        let k = choose|k: KnownView| #[trigger]
            may_be_told(k, accounts, space, mentioned(markdown)) && k.subject == known.subject;
        assert(marked.contains(k.handle));
    }
}

proof fn offer_order()
    ensures
        is_order(|a: OfferView, b: OfferView| offer_before(a, b)),
{
    let before = |a: OfferView, b: OfferView| offer_before(a, b);
    assert forall|a: OfferView| !#[trigger] before(a, a) by {
        text_before_irreflexive(lowercased(a.name));
        text_before_irreflexive(a.handle);
    }
    assert forall|a: OfferView, b: OfferView, c: OfferView| #[trigger]
        before(a, b) && #[trigger] before(b, c) implies before(a, c) by {
        let (x, y, z) = (lowercased(a.name), lowercased(b.name), lowercased(c.name));
        if text_before(x, y) && text_before(y, z) {
            text_before_transitive(x, y, z);
        }
        if text_before(a.handle, b.handle) && text_before(b.handle, c.handle) {
            text_before_transitive(a.handle, b.handle, c.handle);
        }
    }
    assert forall|a: OfferView, b: OfferView, c: OfferView|
        !#[trigger] before(a, b) && !#[trigger] before(b, c) implies !before(a, c) by {
        let (x, y, z) = (lowercased(a.name), lowercased(b.name), lowercased(c.name));
        text_before_total(x, y);
        text_before_total(y, z);
        text_before_total(x, z);
        text_before_total(a.handle, b.handle);
        text_before_total(b.handle, c.handle);
        text_before_total(a.handle, c.handle);
        if text_before(z, y) && text_before(y, x) {
            text_before_transitive(z, y, x);
        }
        if text_before(c.handle, b.handle) && text_before(b.handle, a.handle) {
            text_before_transitive(c.handle, b.handle, a.handle);
        }
        text_before_irreflexive(x);
        text_before_irreflexive(a.handle);
    }
}

/// The offers come by name, and nobody is offered to themselves: an offer is
/// an account that may read the space and is not the one who asks.
pub proof fn offers_are_in_order(
    accounts: Seq<(Seq<char>, KnownView)>,
    space: SpaceView,
    except: Seq<char>,
)
    ensures
        ({
            let before = |a: OfferView, b: OfferView| offer_before(a, b);
            in_order(arranged(offerable(accounts, space, except), before), before)
        }),
        forall|i: int|
            0 <= i < offerable(accounts, space, except).len() ==> exists|j: int|
                {
                    &&& 0 <= j < accounts.len()
                    &&& (#[trigger] accounts[j]).0 == (#[trigger] offerable(
                        accounts,
                        space,
                        except,
                    )[i]).name
                    &&& accounts[j].1.handle == offerable(accounts, space, except)[i].handle
                    &&& accounts[j].1.subject != except
                    &&& known_reads(accounts[j].1, space)
                },
{
    offer_order();
    arranging_orders(
        offerable(accounts, space, except),
        |a: OfferView, b: OfferView| offer_before(a, b),
    );
    offerable_from(accounts, space, except);
}

proof fn offerable_from(
    accounts: Seq<(Seq<char>, KnownView)>,
    space: SpaceView,
    except: Seq<char>,
)
    ensures
        forall|i: int|
            0 <= i < offerable(accounts, space, except).len() ==> exists|j: int|
                {
                    &&& 0 <= j < accounts.len()
                    &&& (#[trigger] accounts[j]).0 == (#[trigger] offerable(
                        accounts,
                        space,
                        except,
                    )[i]).name
                    &&& accounts[j].1.handle == offerable(accounts, space, except)[i].handle
                    &&& accounts[j].1.subject != except
                    &&& known_reads(accounts[j].1, space)
                },
    decreases accounts.len(),
{
    if accounts.len() > 0 {
        let front = accounts.drop_last();
        offerable_from(front, space, except);
        let before = offerable(front, space, except);
        let after = offerable(accounts, space, except);
        assert forall|i: int| 0 <= i < after.len() implies exists|j: int|
            {
                &&& 0 <= j < accounts.len()
                &&& (#[trigger] accounts[j]).0 == (#[trigger] after[i]).name
                &&& accounts[j].1.handle == after[i].handle
                &&& accounts[j].1.subject != except
                &&& known_reads(accounts[j].1, space)
            } by {
            if i < before.len() {
                assert(after[i] == before[i]);
                let j = choose|j: int|
                    {
                        &&& 0 <= j < front.len()
                        &&& (#[trigger] front[j]).0 == before[i].name
                        &&& front[j].1.handle == before[i].handle
                        &&& front[j].1.subject != except
                        &&& known_reads(front[j].1, space)
                    };
                assert(accounts[j] == front[j]);
            } else {
                assert(accounts[accounts.len() - 1] == accounts.last());
            }
        }
    }
}

} // verus!
