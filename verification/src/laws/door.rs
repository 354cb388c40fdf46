//! Who is let in, and what they may do once they are.
use crate::auth::oidc::{middle_part, payload_of, TokenError};
use crate::auth::{decided, email_claimed, groups_claimed, groups_stored, session_stands_for};
use crate::auth::{handle_of, SessionRow};
use crate::authz::IdentityView;
use crate::config::{category_named, CategoryView, ConfigView, EventsView, SpaceView};
use crate::db::events::{CheckedView, RawView};
use crate::laws::people::{a_group_gives_the_right, in_one_of};
use crate::laws::text::{
    blank, solid, trimming_leaves_nothing_of_nothing, trimming_leaves_the_middle,
};
use crate::media::{detected, stripped};
use crate::text::{first_at, starts_with, text_of, trimmed};
use crate::tree::{entry, json_parsed, texts_among, TreeView};
use crate::web::internal::{bell_owner, carries, groups_in, taking, EventAnswerView};
use crate::web::{
    answer_refused, attaching, body_of, callback_of, door_for, not_borrowed, open_path, opening,
    picture_text, replying, return_place, safe_path, sign_in_place, title_of, topic_place, Door,
    Refusal,
};
use vstd::prelude::*;
use vstd::string::*;
use vstd::utf8::*;

verus! {

/// Three kinds of pages are there for everybody: those for signing in, those
/// that make up the interface, and the way out of a subscription.
pub proof fn which_pages_are_open(path: Seq<char>, rest: Seq<char>)
    ensures
        open_path(seq!['/', 'a', 'u', 't', 'h', '/'] + rest),
        open_path(seq!['/', 'a', 's', 's', 'e', 't', 's', '/'] + rest),
        open_path(seq!['/', 'u', '/'] + rest),
        open_path(path) ==> path.len() >= 3 && path[0] == '/' && (path[1] == 'a' || path[1] == 'u'
            && path[2] == '/'),
        open_path(path) && path[1] == 'a' ==> path.len() >= 6 && (path[2] == 'u' && path[3] == 't'
            && path[4] == 'h' && path[5] == '/' || path.len() >= 8 && path[2] == 's' && path[3]
            == 's' && path[4] == 'e' && path[5] == 't' && path[6] == 's' && path[7] == '/'),
{
    reveal_strlit("/auth/");
    reveal_strlit("/assets/");
    reveal_strlit("/u/");
    let (a, b, c) = (
        seq!['/', 'a', 'u', 't', 'h', '/'],
        seq!['/', 'a', 's', 's', 'e', 't', 's', '/'],
        seq!['/', 'u', '/'],
    );
    assert("/auth/"@ == a);
    assert("/assets/"@ == b);
    assert("/u/"@ == c);
    assert((a + rest).take(6) == a);
    assert((b + rest).take(8) == b);
    assert((c + rest).take(3) == c);
    if starts_with(path, a) {
        assert(forall|i: int| 0 <= i < 6 ==> path[i] == path.take(6)[i]);
        assert(path[0] == a[0] && path[1] == a[1] && path[2] == a[2] && path[3] == a[3] && path[4]
            == a[4] && path[5] == a[5]);
    }
    if starts_with(path, b) {
        assert(forall|i: int| 0 <= i < 8 ==> path[i] == path.take(8)[i]);
        assert(path[0] == b[0] && path[1] == b[1] && path[2] == b[2] && path[3] == b[3] && path[4]
            == b[4] && path[5] == b[5] && path[6] == b[6] && path[7] == b[7]);
    }
    if starts_with(path, c) {
        assert(forall|i: int| 0 <= i < 3 ==> path[i] == path.take(3)[i]);
        assert(path[0] == c[0] && path[1] == c[1] && path[2] == c[2]);
    }
}

/// Somebody is let through to a page if the host is known, if the request does
/// not come from another site, and if they are signed in or the page is open;
/// and is otherwise told which of these fails first.
pub proof fn who_is_let_through(known_host: bool, own_site: bool, path: Seq<char>, signed_in: bool)
    ensures
        door_for(known_host, own_site, path, signed_in) == Door::Pass <==> known_host && own_site
            && (signed_in || open_path(path)),
        !known_host ==> door_for(known_host, own_site, path, signed_in) == Door::Refuse(
            Refusal::UnknownHost,
        ),
        known_host && !own_site ==> door_for(known_host, own_site, path, signed_in)
            == Door::Refuse(Refusal::Foreign),
        known_host && own_site && !signed_in && !open_path(path) ==> door_for(
            known_host,
            own_site,
            path,
            signed_in,
        ) == Door::SignIn,
{
}

/// Whoever only looks may come from anywhere; whoever changes something comes
/// from a page of the same origin, or from a browser that does not say.
pub proof fn whoever_changes_something(method: Seq<char>, site: Seq<u8>)
    ensures
        not_borrowed(method, None),
        not_borrowed("GET"@, Some(site)),
        not_borrowed("HEAD"@, Some(site)),
        not_borrowed("OPTIONS"@, Some(site)),
        method != "GET"@ && method != "HEAD"@ && method != "OPTIONS"@ ==> (not_borrowed(
            method,
            Some(site),
        ) <==> site == encode_utf8("same-origin"@)),
{
}

/// A page to come back to is one of this site: it begins with one slash and not
/// with two, nor with a slash and a backslash, it is none of the sign-in's own,
/// and nothing in it is a control character.
pub proof fn where_to_come_back_to(path: Seq<char>)
    ensures
        safe_path(path) <==> path.len() > 0 && path[0] == '/' && (path.len() == 1 || path[1] != '/'
            && path[1] != '\\') && !(path.len() >= 6 && path[1] == 'a' && path[2] == 'u' && path[3]
            == 't' && path[4] == 'h' && path[5] == '/') && (forall|i: int|
            0 <= i < path.len() ==> ' ' <= #[trigger] path[i] && !('\u{7f}' <= path[i] && path[i]
                <= '\u{9f}')),
        safe_path(path) ==> return_place(Some(path)) == path,
        !safe_path(path) ==> return_place(Some(path)) == seq!['/'],
        return_place(None) == seq!['/'],
{
    reveal_strlit("/auth/");
    reveal_strlit("//");
    reveal_strlit("/\\");
    reveal_strlit("/");
    assert("/"@ == seq!['/']);
    let a = seq!['/', 'a', 'u', 't', 'h', '/'];
    let b = seq!['/', '/'];
    let c = seq!['/', '\\'];
    assert("/auth/"@ == a);
    assert("//"@ == b);
    assert("/\\"@ == c);
    if path.len() >= 2 && path[0] == '/' {
        assert(path.take(2)[0] == path[0] && path.take(2)[1] == path[1]);
        if path[1] == '/' {
            assert(path.take(2) == b);
        }
        if path[1] == '\\' {
            assert(path.take(2) == c);
        }
        if path.take(2) == b {
            assert(path[1] == b[1]);
        }
        if path.take(2) == c {
            assert(path[1] == c[1]);
        }
    }
    if path.len() >= 6 && path[0] == '/' {
        let t = path.take(6);
        assert(t[1] == path[1] && t[2] == path[2] && t[3] == path[3] && t[4] == path[4] && t[5]
            == path[5]);
        if path[1] == 'a' && path[2] == 'u' && path[3] == 't' && path[4] == 'h' && path[5] == '/' {
            assert(t == a);
        }
        if t == a {
            assert(path[1] == a[1] && path[2] == a[2] && path[3] == a[3] && path[4] == a[4]
                && path[5] == a[5]);
        }
    }
    assert(forall|c: char| crate::db::events::control(c) <==> !(' ' <= c) || ('\u{7f}' <= c && c
        <= '\u{9f}'));
}

/// Whoever has to sign in first comes back to the page they asked for, if it is
/// one to come back to and they were only looking.
pub proof fn what_is_asked_for_is_remembered(method: Seq<char>, page: Seq<char>)
    ensures
        method == "GET"@ && safe_path(page) && page.len() > 1 ==> sign_in_place(method, Some(page))
            == "/auth/login?next="@ + crate::codec::percent_encoded(page),
        method != "GET"@ ==> sign_in_place(method, Some(page)) == "/auth/login"@,
        !safe_path(page) ==> sign_in_place(method, Some(page)) == "/auth/login"@,
        sign_in_place(method, None) == "/auth/login"@,
{
    reveal_strlit("/");
}

/// The provider sends people back to the host they came from.
pub proof fn the_provider_sends_back_here(host: Seq<char>)
    ensures
        callback_of(host) == seq!['h', 't', 't', 'p', 's', ':', '/', '/'] + host + "/auth/callback"@,
{
    reveal_strlit("https://");
    assert("https://"@ == seq!['h', 't', 't', 'p', 's', ':', '/', '/']);
}

/// A title is kept without the space around it: if there is anything left, and
/// no more than two hundred characters.
pub proof fn a_title_is_kept(front: Seq<char>, title: Seq<char>, back: Seq<char>)
    requires
        blank(front),
        blank(back),
        solid(title),
    ensures
        title_of(front + title + back) == if title.len() <= 200 {
            Ok::<_, Refusal>(title)
        } else {
            Err(Refusal::LongTitle)
        },
        title_of(front) == Err::<Seq<char>, _>(Refusal::NoTitle),
        body_of(front + title + back) == if encode_utf8(title).len() <= 65536 {
            Ok::<_, Refusal>(title)
        } else {
            Err(Refusal::LongText)
        },
        body_of(front) == Err::<Seq<char>, _>(Refusal::NoText),
{
    trimming_leaves_the_middle(front, title, back);
    trimming_leaves_nothing_of_nothing(front);
}

/// A topic is opened by whoever may read the space and post in the category,
/// with the title and the text that are kept; anything else is refused, and for
/// the first thing that is wrong.
pub proof fn who_may_open_a_topic(
    space: SpaceView,
    category: CategoryView,
    slug: Seq<char>,
    who: IdentityView,
    title: Seq<char>,
    body: Seq<char>,
)
    requires
        category_named(space.categories, slug) == Some(category),
    ensures
        opening(space, slug, who, title, body) is Ok <==> in_one_of(who, space.read) && in_one_of(
            who,
            category.post,
        ) && title_of(title) is Ok && body_of(body) is Ok,
        opening(space, slug, who, title, body) matches Ok(kept) ==> kept.0 == title_of(title)->Ok_0
            && kept.1 == body_of(body)->Ok_0,
        !in_one_of(who, space.read) || !in_one_of(who, category.post) ==> opening(
            space,
            slug,
            who,
            title,
            body,
        ) == Err::<(Seq<char>, Seq<char>), _>(Refusal::Forbidden),
        in_one_of(who, space.read) && in_one_of(who, category.post) && title_of(title) is Err
            ==> opening(space, slug, who, title, body) == Err::<(Seq<char>, Seq<char>), _>(
            title_of(title)->Err_0,
        ),
{
    a_group_gives_the_right(who, space, category);
}

/// A reply is written, and a picture attached, by whoever may read the space
/// and reply in the category.
pub proof fn who_may_reply(
    space: SpaceView,
    category: CategoryView,
    slug: Seq<char>,
    who: IdentityView,
    body: Seq<char>,
    bytes: Seq<u8>,
)
    requires
        category_named(space.categories, slug) == Some(category),
    ensures
        ({
            let may = in_one_of(who, space.read) && in_one_of(who, category.reply);
            &&& replying(space, Some(slug), who, body) == if may {
                body_of(body)
            } else {
                Err(Refusal::Forbidden)
            }
            &&& !may ==> attaching(space, Some(slug), who, Some(bytes)) == Err::<
                (Seq<u8>, crate::media::MediaType),
                _,
            >(Refusal::Forbidden)
            &&& may ==> attaching(space, Some(slug), who, None) == Err::<
                (Seq<u8>, crate::media::MediaType),
                _,
            >(Refusal::NoFile)
            &&& may && bytes.len() > space.attachment_max_bytes ==> attaching(
                space,
                Some(slug),
                who,
                Some(bytes),
            ) == Err::<(Seq<u8>, crate::media::MediaType), _>(Refusal::TooLarge)
            &&& may && bytes.len() <= space.attachment_max_bytes && detected(bytes) is None
                ==> attaching(space, Some(slug), who, Some(bytes)) == Err::<
                (Seq<u8>, crate::media::MediaType),
                _,
            >(Refusal::Unsupported)
            &&& may && bytes.len() <= space.attachment_max_bytes && detected(bytes) is Some
                ==> attaching(space, Some(slug), who, Some(bytes)) == Ok::<_, Refusal>(
                (stripped(bytes, detected(bytes)->0), detected(bytes)->0),
            )
        }),
{
    a_group_gives_the_right(who, space, category);
}

/// What is in no category of the space is not found, whoever asks.
pub proof fn what_is_not_here_is_not_found(
    space: SpaceView,
    slug: Seq<char>,
    who: IdentityView,
    title: Seq<char>,
    body: Seq<char>,
    bytes: Option<Seq<u8>>,
)
    requires
        category_named(space.categories, slug) is None,
    ensures
        opening(space, slug, who, title, body) == Err::<(Seq<char>, Seq<char>), _>(
            Refusal::NotFound,
        ),
        replying(space, Some(slug), who, body) == Err::<Seq<char>, _>(Refusal::NotFound),
        replying(space, None, who, body) == Err::<Seq<char>, _>(Refusal::NotFound),
        attaching(space, Some(slug), who, bytes) == Err::<(Seq<u8>, crate::media::MediaType), _>(
            Refusal::NotFound,
        ),
        answer_refused(space, None, who) == Some(Refusal::NotFound),
{
}

/// The status of every refusal.
pub proof fn what_a_refusal_counts_as()
    ensures
        Refusal::UnknownHost.code() == 403,
        Refusal::Foreign.code() == 403,
        Refusal::Forbidden.code() == 403,
        Refusal::ProviderRefused.code() == 403,
        Refusal::NotFound.code() == 404,
        Refusal::HasReplies.code() == 409,
        Refusal::TooLarge.code() == 413,
        Refusal::Unsupported.code() == 415,
        Refusal::NotASwitch.code() == 400,
        Refusal::NoTitle.code() == 400,
        Refusal::LongTitle.code() == 400,
        Refusal::NoText.code() == 400,
        Refusal::LongText.code() == 400,
        Refusal::NoFile.code() == 400,
        Refusal::NotACallback.code() == 400,
        Refusal::NotBegun.code() == 400,
{
}

/// What every refusal says.
pub proof fn what_a_refusal_tells()
    ensures
        Refusal::UnknownHost.words() == "unknown host"@,
        Refusal::Foreign.words() == "that came from somewhere else"@,
        Refusal::Forbidden.words() == "not for you"@,
        Refusal::NotFound.words() == "not found"@,
        Refusal::NotASwitch.words() == "on is 1 or 0"@,
        Refusal::NoTitle.words() == "a topic needs a title"@,
        Refusal::LongTitle.words() == "that title is too long"@,
        Refusal::NoText.words() == "a post needs a text"@,
        Refusal::LongText.words() == "that text is too long"@,
        Refusal::NoFile.words() == "no file in the upload"@,
        Refusal::TooLarge.words() == "that file is too large"@,
        Refusal::Unsupported.words() == "only JPEG, PNG, GIF and WebP images can be attached"@,
        Refusal::HasReplies.words()
            == "other people have replied here; deleting this would delete their posts too"@,
        Refusal::ProviderRefused.words() == "the provider refused the sign-in"@,
        Refusal::NotACallback.words() == "not a callback"@,
        Refusal::NotBegun.words() == "this sign-in was not started here, or it took too long"@,
{
}

/// A picture is shown under what is said of it, and alone where nothing is.
pub proof fn a_picture_under_its_caption(
    front: Seq<char>,
    caption: Seq<char>,
    back: Seq<char>,
    id: Seq<char>,
)
    requires
        blank(front),
        blank(back),
        solid(caption),
    ensures
        picture_text(id, front) == "![](/a/"@ + id + ")"@,
        picture_text(id, front + caption + back) == caption + seq!['\n', '\n'] + picture_text(
            id,
            front,
        ),
{
    reveal_strlit("\n\n");
    assert("\n\n"@ == seq!['\n', '\n']);
    trimming_leaves_the_middle(front, caption, back);
    trimming_leaves_nothing_of_nothing(front);
}

/// A topic is found under its number, and what has none under the first page.
pub proof fn where_a_topic_is(id: i64)
    ensures
        topic_place(Some(id)) == seq!['/', 't', '/'] + crate::text::decimal_text(id as int),
        topic_place(None) == seq!['/'],
{
    reveal_strlit("/t/");
    reveal_strlit("/");
    assert("/t/"@ == seq!['/', 't', '/']);
    assert("/"@ == seq!['/']);
}

/// A request carries a token if it says `Bearer`, a space and the token, and no
/// other way.
pub proof fn a_token_is_carried(secret: Seq<char>, header: Seq<char>, token: Seq<u8>)
    ensures
        carries(Some(seq!['B', 'e', 'a', 'r', 'e', 'r', ' '] + secret), encode_utf8(secret)),
        carries(Some(seq!['B', 'e', 'a', 'r', 'e', 'r', ' '] + secret), token) ==> token
            == encode_utf8(secret),
        !carries(None, token),
        carries(Some(header), token) ==> header.len() >= 7 && header == seq![
            'B',
            'e',
            'a',
            'r',
            'e',
            'r',
            ' ',
        ] + header.skip(7),
{
    reveal_strlit("Bearer ");
    let word = seq!['B', 'e', 'a', 'r', 'e', 'r', ' '];
    assert("Bearer "@ == word);
    assert((word + secret).take(7) == word);
    assert((word + secret).skip(7) == secret);
    if carries(Some(header), token) {
        assert(header == header.take(7) + header.skip(7));
    }
}

/// Groups are named one after the other, with a bar between them, and what is
/// blank between two bars names none.
pub proof fn groups_between_bars(part: Seq<char>, rest: Seq<char>)
    requires
        !part.contains('|'),
    ensures
        groups_in(part + seq!['|'] + rest) == groups_in(part) + groups_in(rest),
        groups_in(part) == if trimmed(part).len() == 0 {
            Seq::empty()
        } else {
            seq![trimmed(part)]
        },
{
    let all = part + seq!['|'] + rest;
    let n = part.len() as int;
    assert forall|i: int| 0 <= i < n implies part[i] != '|' by {
        assert(part.contains(part[i]));
    }
    crate::text::first_at_found(all, '|', n);
    crate::text::first_at_found(part, '|', n);
    assert(all.take(n) == part);
    assert(part.take(n) == part);
    assert(all.skip(n + 1) == rest);
    assert(first_at(part, '|') == n);
}

/// A bell from outside is somebody's who has a handle, if the space of the
/// reports is there and one of the groups may read it.
pub proof fn whose_bell_it_is(
    config: ConfigView,
    events: EventsView,
    space: SpaceView,
    user: Seq<char>,
    groups: Seq<char>,
)
    requires
        config.events == Some(events),
        crate::config::space_hosted(config.spaces, crate::config::normalised(events.space))
            == Some(space),
    ensures
        bell_owner(config, user, groups) is Some <==> handle_of(user) is Some && exists|
            g: Seq<char>,
        | #[trigger]
            groups_in(groups).contains(g) && space.read.contains(g),
        bell_owner(config, user, groups) matches Some(found) ==> found.0 == handle_of(user)->0
            && found.1 == space,
{
    if handle_of(user) is Some {
        let who = crate::web::internal::named_person(handle_of(user)->0, groups_in(groups));
        a_group_gives_the_right(
            who,
            space,
            CategoryView {
                slug: Seq::empty(),
                title: Seq::empty(),
                post: Seq::empty(),
                reply: Seq::empty(),
            },
        );
        assert(who.groups == groups_in(groups));
        if in_one_of(who, space.read) {
            let g = choose|g: Seq<char>|
                #![trigger who.groups.contains(g)]
                who.groups.contains(g) && space.read.contains(g);
            assert(groups_in(groups).contains(g));
        }
        if exists|g: Seq<char>| #[trigger] groups_in(groups).contains(g) && space.read.contains(g) {
            let g = choose|g: Seq<char>| #[trigger]
                groups_in(groups).contains(g) && space.read.contains(g);
            assert(who.groups.contains(g));
        }
    }
}

/// A report is looked at only if there is a token and the request carries it,
/// and only if it is said where reports go.
pub proof fn when_a_report_is_looked_at(
    token: Seq<u8>,
    authorization: Option<Seq<char>>,
    events: EventsView,
    raw: RawView,
)
    ensures
        taking(None, authorization, Some(events), Some(raw)) == Err::<CheckedView, _>(
            EventAnswerView::NotFound,
        ),
        !carries(authorization, token) ==> taking(
            Some(token),
            authorization,
            Some(events),
            Some(raw),
        ) == Err::<CheckedView, _>(EventAnswerView::Unauthorized),
        carries(authorization, token) ==> taking(Some(token), authorization, None, Some(raw))
            == Err::<CheckedView, _>(EventAnswerView::Unconfigured),
        carries(authorization, token) ==> taking(Some(token), authorization, Some(events), None)
            == Err::<CheckedView, _>(EventAnswerView::Bad("not an event"@)),
        carries(authorization, token) ==> (taking(
            Some(token),
            authorization,
            Some(events),
            Some(raw),
        ) is Ok <==> crate::db::events::verdict(raw, events) is Ok),
        carries(authorization, token) && crate::db::events::verdict(raw, events) is Ok ==> taking(
            Some(token),
            authorization,
            Some(events),
            Some(raw),
        )->Ok_0 == crate::db::events::verdict(raw, events)->Ok_0,
{
}

/// The groups that are claimed are the texts in the list of that name: one more
/// text is one more group, and nothing else is one.
pub proof fn one_more_group_is_claimed(items: Seq<TreeView>, one: TreeView, group: Seq<char>)
    ensures
        texts_among(items.push(TreeView::Text(group))) == texts_among(items).push(group),
        !(one is Text) ==> texts_among(items.push(one)) == texts_among(items),
        texts_among(Seq::empty()) == Seq::<Seq<char>>::empty(),
{
    assert(items.push(TreeView::Text(group)).drop_last() == items);
    assert(items.push(one).drop_last() == items);
}

/// What is claimed is what the first claim of that name says.
pub proof fn what_is_claimed(
    table: Seq<(Seq<char>, TreeView)>,
    name: Seq<char>,
    items: Seq<TreeView>,
    front: Seq<char>,
    address: Seq<char>,
    back: Seq<char>,
)
    requires
        blank(front),
        blank(back),
        solid(address),
    ensures
        entry(table, name) == Some(TreeView::List(items)) ==> groups_claimed(
            TreeView::Table(table),
            name,
        ) == texts_among(items),
        entry(table, name) is None ==> groups_claimed(TreeView::Table(table), name).len() == 0,
        entry(table, name) matches Some(TreeView::Text(s)) ==> groups_claimed(
            TreeView::Table(table),
            name,
        ).len() == 0,
        entry(table, "email"@) == Some(TreeView::Text(front + address + back)) ==> email_claimed(
            TreeView::Table(table),
        ) == Some(address),
        entry(table, "email"@) == Some(TreeView::Text(front)) ==> email_claimed(
            TreeView::Table(table),
        ) is None,
        entry(table, "email"@) is None ==> email_claimed(TreeView::Table(table)) is None,
{
    trimming_leaves_the_middle(front, address, back);
    trimming_leaves_nothing_of_nothing(front);
}

/// A setting is decided if something stands in it that is to be seen.
pub proof fn what_is_decided(front: Seq<char>, value: Seq<char>, back: Seq<char>)
    requires
        blank(front),
        blank(back),
        solid(value),
    ensures
        decided(Some(front + value + back)),
        !decided(Some(front)),
        !decided(None),
{
    trimming_leaves_the_middle(front, value, back);
    trimming_leaves_nothing_of_nothing(front);
}

/// A session says of a person what was kept, until the moment it ends.
pub proof fn a_session_says_what_was_kept(row: SessionRow, now: i64)
    ensures
        session_stands_for(row, now) is Some <==> now < row.expires_at,
        session_stands_for(row, now) matches Some(who) ==> {
            &&& who.subject == row.subject@
            &&& who.name == row.name@
            &&& who.email == text_of(row.email)
            &&& who.handle == text_of(row.handle)
            &&& who.groups == groups_stored(encode_utf8(row.groups_json@))
        },
{
}

/// Groups that cannot be read are none, and the ones that can are the ones
/// that were written.
pub proof fn groups_that_can_be_read(bytes: Seq<u8>, groups: Seq<Seq<char>>, items: Seq<TreeView>, i: int)
    ensures
        json_parsed(bytes) is None ==> groups_stored(bytes).len() == 0,
        json_parsed(bytes) == Some(
            TreeView::List(Seq::new(groups.len(), |k: int| TreeView::Text(groups[k]))),
        ) ==> groups_stored(bytes) == groups,
        json_parsed(bytes) == Some(TreeView::List(items)) && 0 <= i < items.len() && !(
        items[i] is Text) ==> groups_stored(bytes).len() == 0,
        json_parsed(bytes) matches Some(TreeView::Table(t)) ==> groups_stored(bytes).len() == 0,
{
    let list = Seq::new(groups.len(), |k: int| TreeView::Text(groups[k]));
    assert(forall|k: int| 0 <= k < list.len() ==> (#[trigger] list[k]) is Text);
    assert(Seq::new(list.len(), |k: int| list[k]->Text_0) == groups);
}

/// A token is three parts with a dot between them, and what it says is in the
/// middle.
pub proof fn the_middle_of_a_token(head: Seq<char>, payload: Seq<char>, signature: Seq<char>)
    requires
        !head.contains('.'),
        !payload.contains('.'),
        !signature.contains('.'),
        signature.len() > 0,
    ensures
        middle_part(head + seq!['.'] + payload + seq!['.'] + signature) == Ok::<_, TokenError>(
            payload,
        ),
        middle_part(head + seq!['.'] + payload) == Err::<Seq<char>, _>(TokenError::NoSignature),
        middle_part(head) == Err::<Seq<char>, _>(TokenError::NoPayload),
        middle_part(head + seq!['.'] + payload + seq!['.']) == Err::<Seq<char>, _>(
            TokenError::NotThreeParts,
        ),
        crate::codec::base64url_decoded(payload) is None ==> payload_of(
            head + seq!['.'] + payload + seq!['.'] + signature,
        ) == Err::<TreeView, _>(TokenError::Encoding),
        crate::codec::base64url_decoded(payload) matches Some(bytes) ==> json_parsed(
            bytes,
        ) matches Some(tree) ==> payload_of(
            head + seq!['.'] + payload + seq!['.'] + signature,
        ) == Ok::<_, TokenError>(tree),
{
    let all = head + seq!['.'] + payload + seq!['.'] + signature;
    let two = head + seq!['.'] + payload;
    let open = head + seq!['.'] + payload + seq!['.'];
    let (n, m) = (head.len() as int, payload.len() as int);
    assert forall|i: int| 0 <= i < n implies head[i] != '.' by {
        assert(head.contains(head[i]));
    }
    assert forall|i: int| 0 <= i < m implies payload[i] != '.' by {
        assert(payload.contains(payload[i]));
    }
    assert forall|i: int| 0 <= i < signature.len() implies signature[i] != '.' by {
        assert(signature.contains(signature[i]));
    }
    crate::text::first_at_found(head, '.', n);
    crate::text::first_at_found(all, '.', n);
    crate::text::first_at_found(two, '.', n);
    crate::text::first_at_found(open, '.', n);
    assert(all.skip(n + 1) == payload + seq!['.'] + signature);
    assert(two.skip(n + 1) == payload);
    assert(open.skip(n + 1) == payload + seq!['.']);
    crate::text::first_at_found(payload + seq!['.'] + signature, '.', m);
    crate::text::first_at_found(payload, '.', m);
    crate::text::first_at_found(payload + seq!['.'], '.', m);
    assert((payload + seq!['.'] + signature).take(m) == payload);
    assert((payload + seq!['.'] + signature).skip(m + 1) == signature);
    assert((payload + seq!['.']).skip(m + 1).len() == 0);
    crate::text::first_at_found(signature, '.', signature.len() as int);
}

} // verus!
