//! What is answered, whatever way it is worked out: each law here speaks of
//! every answer that a function can give.
use crate::auth::{claims_to_identity, required, signed_in, SessionRow, Sessions, SettingsError};
use crate::authz::{may_modify, Identity};
use crate::config::Space;
use crate::db::attachments::{load, Attachment, StoredAttachment};
use crate::db::likes::Outcome;
use crate::db::outbox::{mark_failed, Failure, Owed};
use crate::db::topics::Deleted;
use crate::export::{export, ExportError};
use crate::laws::people::{a_group_gives_the_right, in_one_of};
use crate::media::MediaType;
use crate::notify::webhook::{authorization, refusal};
use crate::notify::{settle, Attempt, Verdict};
use crate::text::{decimal_text, text_of};
use crate::tree::Tree;
use crate::web::internal::{bell_refused, scim_refused, stored_status, Tokens};
use crate::web::{
    after_deleting, after_liking, callback, change_subscription, delete_question, edit_post,
    open_event, pending_cookie, searchable, session_cookie, set_mention_mail, space_category,
    space_index, unsubscribe_now, CallbackQuery, Cookie, EditPost, Front, MentionMail, Refusal,
    Returned, SameSite, Told, WayOut,
};
use vstd::prelude::*;
use vstd::string::*;

verus! {

/// The way out does what it says of the one it was sent to, and only with the
/// token of the row. Whether the row is still there is not told.
pub proof fn what_the_way_out_does(told: Told, r: WayOut)
    ensures
        call_ensures(unsubscribe_now, (false, Some(told)), r) ==> r == WayOut::NotFound,
        call_ensures(unsubscribe_now, (true, None), r) ==> r == WayOut::Nothing,
        call_ensures(unsubscribe_now, (true, Some(told)), r) && told.reason@ == "mention"@ ==> r
            == WayOut::MentionsOff(told.subject),
        call_ensures(unsubscribe_now, (true, Some(told)), r) && told.reason@ != "mention"@ ==> r
            == WayOut::Unfollow(told.subject, told.topic_id),
{
}

/// After a post is deleted its topic is shown, and after a topic the first page;
/// what was refused is said.
pub proof fn what_comes_after_deleting(topic: i64, r: Result<String, Refusal>)
    ensures
        call_ensures(after_deleting, (Deleted::Post, Some(topic)), r) ==> r is Ok && r->Ok_0@
            == seq!['/', 't', '/'] + decimal_text(topic as int),
        call_ensures(after_deleting, (Deleted::Topic, Some(topic)), r) ==> r is Ok && r->Ok_0@
            == seq!['/'],
        call_ensures(after_deleting, (Deleted::HasReplies, Some(topic)), r) ==> r is Err
            && r->Err_0 == Refusal::HasReplies,
        call_ensures(after_deleting, (Deleted::NotYours, Some(topic)), r) ==> r is Err && r->Err_0
            == Refusal::Forbidden,
{
    reveal_strlit("/t/");
    reveal_strlit("/");
    assert("/t/"@ == seq!['/', 't', '/']);
    assert("/"@ == seq!['/']);
}

/// After a click on the heart the post is shown that was clicked.
pub proof fn what_comes_after_liking(
    liked: bool,
    count: i64,
    topic_id: i64,
    post_id: i64,
    r: Result<String, Refusal>,
)
    ensures
        call_ensures(after_liking, (Outcome::Toggled { liked, count, topic_id }, post_id), r) ==> r
            is Ok && r->Ok_0@ == seq!['/', 't', '/'] + decimal_text(topic_id as int) + seq!['#', 'p']
            + decimal_text(post_id as int),
        call_ensures(after_liking, (Outcome::OwnPost, post_id), r) ==> r is Err && r->Err_0
            == Refusal::Forbidden,
        call_ensures(after_liking, (Outcome::NotFound, post_id), r) ==> r is Err && r->Err_0
            == Refusal::NotFound,
{
    reveal_strlit("/t/");
    reveal_strlit("#p");
    assert("/t/"@ == seq!['/', 't', '/']);
    assert("#p"@ == seq!['#', 'p']);
}

/// Whoever may read a space may ask to delete what they wrote in it, follow what
/// is there and say whether they want mail; nobody else may do any of these.
pub proof fn what_a_reader_may_do(
    space: &Space,
    who: &Identity,
    author: &str,
    found: bool,
    form: &MentionMail,
    asked: Option<Refusal>,
    switch: Result<bool, Refusal>,
)
    ensures
        ({
            let may = in_one_of(who@, space@.read);
            &&& call_ensures(delete_question, (space, who, Some(author)), asked) ==> (asked is None
                <==> may && who.subject@ == author@) && (asked is Some ==> asked->0
                == Refusal::Forbidden)
            &&& call_ensures(delete_question, (space, who, None), asked) && may ==> asked == Some(
                Refusal::NotFound,
            )
            &&& call_ensures(change_subscription, (space, who, found), asked) ==> (asked is None
                <==> may && found) && (!may ==> asked == Some(Refusal::Forbidden)) && (may && !found
                ==> asked == Some(Refusal::NotFound))
            &&& call_ensures(set_mention_mail, (space, who, form), switch) ==> {
                &&& !may ==> switch == Err::<bool, _>(Refusal::Forbidden)
                &&& may && form.on@ == seq!['1'] ==> switch == Ok::<_, Refusal>(true)
                &&& may && form.on@ == seq!['0'] ==> switch == Ok::<_, Refusal>(false)
                &&& may && form.on@ != seq!['1'] && form.on@ != seq!['0'] ==> switch == Err::<
                    bool,
                    _,
                >(Refusal::NotASwitch)
            }
        }),
{
    reveal_strlit("1");
    reveal_strlit("0");
    assert("1"@ == seq!['1']);
    assert("0"@ == seq!['0']);
    assert("1"@[0] != "0"@[0]);
    may_read_is(space, who);
}

proof fn may_read_is(space: &Space, who: &Identity)
    ensures
        crate::authz::reads(who@, space@) == in_one_of(who@, space@.read),
{
    a_group_gives_the_right(
        who@,
        space@,
        crate::config::CategoryView {
            slug: Seq::empty(),
            title: Seq::empty(),
            post: Seq::empty(),
            reply: Seq::empty(),
        },
    );
}

/// Whoever may read a space sees its first page, its categories and what can be
/// searched in it.
pub proof fn what_a_reader_sees(
    space: &Space,
    who: &Identity,
    slug: &str,
    front: Front,
    asked: Option<Refusal>,
    slugs: Result<Vec<String>, Refusal>,
    i: int,
)
    ensures
        ({
            let may = in_one_of(who@, space@.read);
            &&& call_ensures(space_index, (space, who), front) ==> {
                &&& !may ==> front == Front::Refuse(Refusal::Forbidden)
                &&& may && space.view == crate::config::View::Topics ==> front == Front::Sections
                &&& may && space.view == crate::config::View::Timeline
                    && space.categories@.len() > 0 ==> front is Entries && front->Entries_0@
                    == space.categories@[0].slug@
                &&& may && space.view == crate::config::View::Timeline
                    && space.categories@.len() == 0 ==> front == Front::Refuse(Refusal::NotFound)
            }
            &&& call_ensures(space_category, (space, who, slug), asked) ==> (asked is None <==> may
                && crate::config::category_named(space@.categories, slug@) is Some) && (
            crate::config::category_named(space@.categories, slug@) is None ==> asked == Some(
                Refusal::NotFound,
            ))
            &&& call_ensures(searchable, (space, who), slugs) ==> (slugs is Ok <==> may) && (slugs
                is Ok ==> slugs->Ok_0@.len() == space.categories@.len() && (0 <= i
                < space.categories@.len() ==> slugs->Ok_0@[i]@ == space.categories@[i].slug@)) && (
            slugs is Err ==> slugs->Err_0 == Refusal::Forbidden)
        }),
{
    may_read_is(space, who);
    if slugs is Ok {
        let texts = crate::text::texts(slugs->Ok_0@);
        assert(texts.len() == slugs->Ok_0@.len());
        if 0 <= i < space.categories@.len() {
            assert(crate::web::slugs_of(space@.categories)[i] == space.categories@[i].slug@);
            if i < texts.len() {
                assert(texts[i] == slugs->Ok_0@[i]@);
            }
        }
    }
}

/// A report that is opened leads where it says, and to the notifications where
/// it says nothing; a post is edited to what is kept of the text.
pub proof fn where_a_report_leads(
    space: &Space,
    who: &Identity,
    link: String,
    form: &EditPost,
    r: Result<String, Refusal>,
)
    ensures
        ({
            let may = in_one_of(who@, space@.read);
            &&& call_ensures(open_event, (space, who, Some(Some(link))), r) && may ==> r is Ok
                && r->Ok_0@ == link@
            &&& call_ensures(open_event, (space, who, Some(None)), r) && may ==> r is Ok && r->Ok_0@
                == "/notifications"@
            &&& call_ensures(open_event, (space, who, None), r) && may ==> r is Err && r->Err_0
                == Refusal::NotFound
            &&& call_ensures(open_event, (space, who, Some(Some(link))), r) && !may ==> r is Err
                && r->Err_0 == Refusal::Forbidden
            &&& call_ensures(edit_post, (space, who, form), r) ==> {
                &&& !may ==> r is Err && r->Err_0 == Refusal::Forbidden
                &&& may ==> (r is Ok <==> crate::web::body_of(form.body@) is Ok)
                &&& may && r is Ok ==> r->Ok_0@ == crate::web::body_of(form.body@)->Ok_0
            }
        }),
{
    may_read_is(space, who);
}

/// A sign-in that comes back with a code and a state goes on if it was begun
/// here, with what was remembered; one that was refused says so.
pub proof fn what_comes_back_from_the_provider(
    query: CallbackQuery,
    cookie: &str,
    r: Result<Returned, Refusal>,
)
    requires
        call_ensures(callback, (query, Some(cookie)), r),
    ensures
        query.error is Some ==> r is Err && r->Err_0 == Refusal::ProviderRefused,
        query.error is None && (query.code is None || query.state is None) ==> r is Err && r->Err_0
            == Refusal::NotACallback,
        r is Ok ==> query.code == Some(r->Ok_0.code) && query.state == Some(r->Ok_0.state),
        r is Ok ==> crate::web::pending_in(crate::web::lines_of(cookie@)) == Some(
            (
                r->Ok_0.pending.state@,
                r->Ok_0.pending.nonce@,
                r->Ok_0.pending.pkce_verifier@,
                r->Ok_0.return_to@,
            ),
        ),
        query.error is None && query.code is Some && query.state is Some && crate::web::pending_in(
            crate::web::lines_of(cookie@),
        ) is None ==> r is Err && r->Err_0 == Refusal::NotBegun,
{
}

/// What is kept in the browser is out of reach of scripts and of plain
/// connections.
pub proof fn what_is_kept_in_the_browser(value: String, session: Cookie, pending: Cookie)
    requires
        call_ensures(session_cookie, (value,), session),
        call_ensures(pending_cookie, (value,), pending),
    ensures
        session.name@ == "treff_session"@,
        pending.name@ == "treff_pending"@,
        session.value@ == value@,
        pending.value@ == value@,
        session.http_only && session.secure && pending.http_only && pending.secure,
        session.same_site == SameSite::Lax,
        pending.same_site == SameSite::Lax,
        session.path@ == "/"@,
        pending.path@ == "/auth"@,
        session.minutes is None,
        pending.minutes == Some(10i64),
{
}

/// A row that was sent, or had nothing to say, is done with; one that was
/// refused is tried again, later with every failure.
pub proof fn what_becomes_of_a_row(row: &Owed, attempt: &Attempt, now: i64, r: Verdict)
    requires
        row.attempts < i64::MAX,
        now <= i64::MAX - crate::db::outbox::LONGEST_WAIT,
        call_ensures(settle, (row, attempt, now), r),
    ensures
        attempt is Nothing ==> r == (Verdict::Done { delivered: false }),
        attempt is Delivered ==> r == (Verdict::Done { delivered: true }),
        attempt is Refused ==> r is Failed && r->Failed_0.attempts == row.attempts + 1
            && r->Failed_0.next_try_at == now + crate::db::outbox::wait_after(
            (row.attempts + 1) as i64,
        ),
{
}

/// A failure is remembered by its beginning.
pub proof fn what_is_remembered_of_a_failure(attempts: i64, now: i64, error: &str, r: Failure)
    requires
        attempts < i64::MAX,
        now <= i64::MAX - crate::db::outbox::LONGEST_WAIT,
        call_ensures(mark_failed, (attempts, now, error), r),
    ensures
        r.attempts == attempts + 1,
        r.next_try_at == now + crate::db::outbox::wait_after((attempts + 1) as i64),
        r.last_error@.is_prefix_of(error@),
        error@.len() <= 500 ==> r.last_error@ == error@,
        error@.len() > 500 ==> r.last_error@.len() == 500,
{
}

/// A signal carries its token the way one is asked for, and what comes back for
/// an answer is remembered by its beginning.
pub proof fn how_a_signal_is_sent(
    token: String,
    header: Option<String>,
    status: &str,
    answer: &str,
    r: String,
)
    ensures
        call_ensures(authorization, (&Some(token),), header) ==> header is Some && header->0@
            == seq!['B', 'e', 'a', 'r', 'e', 'r', ' '] + token@,
        call_ensures(authorization, (&None::<String>,), header) ==> header is None,
        call_ensures(refusal, (status, answer), r) && answer@.len() <= 200 ==> r@
            == "the webhook answered "@ + status@ + seq![':', ' '] + answer@,
        call_ensures(refusal, (status, answer), r) && answer@.len() > 200 ==> r@
            == "the webhook answered "@ + status@ + seq![':', ' '] + answer@.take(200),
{
    reveal_strlit("Bearer ");
    reveal_strlit(": ");
    assert("Bearer "@ == seq!['B', 'e', 'a', 'r', 'e', 'r', ' ']);
    assert(": "@ == seq![':', ' ']);
}

/// A picture is found in its own space, unless its topic was withdrawn, and is
/// what was stored of it.
pub proof fn when_a_picture_is_found(row: StoredAttachment, space: &str, r: Option<Attachment>)
    requires
        call_ensures(load, (Some(row), space), r),
    ensures
        r is Some ==> row.space@ == space@ && !row.hidden,
        row.space@ == space@ && !row.hidden && row.media_type@ == "image/png"@ ==> r is Some
            && r->0.media_type == MediaType::Png,
        row.space@ == space@ && !row.hidden && row.media_type@ == "image/jpeg"@ ==> r is Some
            && r->0.media_type == MediaType::Jpeg,
        row.space@ == space@ && !row.hidden && row.media_type@ == "image/gif"@ ==> r is Some
            && r->0.media_type == MediaType::Gif,
        row.space@ == space@ && !row.hidden && row.media_type@ == "image/webp"@ ==> r is Some
            && r->0.media_type == MediaType::Webp,
        r is Some ==> r->0.id@ == row.id@ && r->0.post_id == row.post_id && r->0.byte_size
            == row.byte_size,
{
    reveal_strlit("image/png");
    reveal_strlit("image/jpeg");
    reveal_strlit("image/gif");
    reveal_strlit("image/webp");
    assert("image/png"@.len() == 9 && "image/jpeg"@.len() == 10 && "image/gif"@.len() == 9
        && "image/webp"@.len() == 10);
    assert("image/png"@[6] != "image/gif"@[6] && "image/jpeg"@[6] != "image/webp"@[6]);
}

/// A copy is made where there is none, of a path that can be quoted.
pub proof fn when_a_copy_is_made(path: &str, exists: bool, r: Result<String, ExportError>)
    requires
        call_ensures(export, (path, exists), r),
    ensures
        r is Ok <==> !exists && !path@.contains('\'') && !path@.contains('\0'),
        r is Ok ==> r->Ok_0@ == "VACUUM INTO '"@ + path@ + seq!['\''],
        exists ==> r == Err::<String, _>(ExportError::Exists),
        !exists && r is Err ==> r == Err::<String, _>(ExportError::Unquotable),
{
    reveal_strlit("'");
    assert("'"@ == seq!['\'']);
}

/// A door from outside is there only with a token, and opens only to it.
pub proof fn which_doors_open(
    tokens: &Tokens,
    header: &str,
    scim: Option<u16>,
    bell: Option<u16>,
    status: u16,
)
    requires
        call_ensures(scim_refused, (tokens, Some(header)), scim),
        call_ensures(bell_refused, (tokens, Some(header)), bell),
    ensures
        tokens.scim is None ==> scim == Some(404u16),
        tokens.bell is None ==> bell == Some(404u16),
        tokens.scim is Some ==> (scim is None <==> crate::web::internal::carries(
            Some(header@),
            tokens.scim->0@,
        )),
        tokens.bell is Some ==> (bell is None <==> crate::web::internal::carries(
            Some(header@),
            tokens.bell->0@,
        )),
        tokens.scim is Some && scim is Some ==> scim == Some(401u16),
        tokens.bell is Some && bell is Some ==> bell == Some(401u16),
        call_ensures(stored_status, (true,), status) ==> status == 201,
        call_ensures(stored_status, (false,), status) ==> status == 200,
{
}

/// Whoever signs in is who the provider says, by the name it gives, or else the
/// one they prefer, or else their subject.
pub proof fn who_signs_in(
    subject: &str,
    name: &str,
    preferred: &str,
    claims: &Tree,
    group_claim: &str,
    r: Identity,
)
    ensures
        call_ensures(signed_in, (subject, Some(name), Some(preferred), claims, group_claim), r) ==> {
            &&& r.subject@ == subject@
            &&& r.name@ == name@
            &&& r@.groups == crate::auth::groups_claimed(claims@, group_claim@)
            &&& r@.email == crate::auth::email_claimed(claims@)
            &&& r@.handle == crate::auth::handle_of(preferred@)
        },
        call_ensures(signed_in, (subject, None, Some(preferred), claims, group_claim), r) ==> r.name@
            == preferred@ && r@.handle == crate::auth::handle_of(preferred@),
        call_ensures(signed_in, (subject, None, None, claims, group_claim), r) ==> r.name@
            == subject@ && r.handle is None,
        call_ensures(claims_to_identity, (subject, Some(name), claims, group_claim), r) ==> r.subject@
            == subject@ && r.name@ == name@ && r.handle is None && r@.groups
            == crate::auth::groups_claimed(claims@, group_claim@),
        call_ensures(claims_to_identity, (subject, None, claims, group_claim), r) ==> r.name@
            == subject@,
{
}

/// A session keeps who signed in, for twelve hours.
pub proof fn what_a_session_keeps(who: &Identity, now: i64, r: SessionRow)
    requires
        now <= i64::MAX - 43200,
        call_ensures(Sessions::create, (who, now), r),
    ensures
        r.subject@ == who.subject@,
        r.name@ == who.name@,
        text_of(r.email) == text_of(who.email),
        text_of(r.handle) == text_of(who.handle),
        crate::auth::groups_stored(vstd::utf8::encode_utf8(r.groups_json@)) == crate::text::texts(
            who.groups@,
        ),
        r.created_at == now,
        r.expires_at == now + 12 * 60 * 60,
{
}

/// A setting that has to be there is taken as it stands, and is missed by its
/// name; only an author may change what they wrote.
pub proof fn what_has_to_be_there(
    name: &str,
    value: String,
    r: Result<String, SettingsError>,
    id: &Identity,
    author: &str,
    may: bool,
)
    ensures
        call_ensures(required, (name, Some(value)), r) && crate::auth::decided(Some(value@)) ==> r
            is Ok && r->Ok_0@ == value@,
        call_ensures(required, (name, None), r) ==> r is Err && r->Err_0@
            == crate::auth::SettingsFault::Missing(name@),
        call_ensures(may_modify, (id, author), may) ==> (may <==> id.subject@ == author@),
{
}

} // verus!
