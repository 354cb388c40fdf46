//! Who hears about what.
//!
//! A subscription is a person and a topic. It is created by **writing** and
//! removed by asking, either in the forum or through the link in a
//! notification.
use crate::authz::listed;
use crate::db::inbox::{all_but, all_but_one, everybody_but};
use crate::order::{sorted, sorted_texts, sorting_keeps};
use crate::text::{copied, texts};
use vstd::prelude::*;

verus! {

/// The followers of a topic once this person follows it.
pub open spec fn following(followers: Seq<Seq<char>>, subject: Seq<char>) -> Seq<Seq<char>> {
    if followers.contains(subject) {
        followers
    } else {
        followers.push(subject)
    }
}

/// Follows a topic. Idempotent: a second call changes nothing rather than
/// bringing a second mail, and it is called on every reply.
pub fn follow(followers: &[String], subject: &str) -> (r: Vec<String>)
    ensures
        texts(r@) == following(texts(followers@), subject@),
{
    let mut out = copied(followers);
    if !listed(followers, subject) {
        let ghost before = texts(out@);
        out.push(subject.to_owned());
        assert(texts(out@) == before.push(subject@));
    }
    out
}

/// Stops following. Also idempotent: the link in a mail may be clicked twice,
/// and the second click must not be an error page.
pub fn unfollow(followers: &[String], subject: &str) -> (r: Vec<String>)
    ensures
        texts(r@) == all_but(texts(followers@), subject@),
{
    everybody_but(followers, subject)
}

pub fn is_following(followers: &[String], subject: &str) -> (r: bool)
    ensures
        r == texts(followers@).contains(subject@),
{
    listed(followers, subject)
}

/// Everybody following a topic **except** the writer, in the order of their
/// names.
///
/// The exception is not a nicety. A forum that mails you your own words
/// teaches people to filter it away, and then it teaches them nothing else.
pub fn followers_except(followers: &[String], writer: &str) -> (r: Vec<String>)
    ensures
        texts(r@) == sorted_texts(all_but(texts(followers@), writer@)),
{
    sorted(everybody_but(followers, writer))
}

/// Following twice is following once.
pub proof fn following_twice_is_following_once(followers: Seq<Seq<char>>, subject: Seq<char>)
    ensures
        following(following(followers, subject), subject) == following(followers, subject),
        following(followers, subject).contains(subject),
{
    if !followers.contains(subject) {
        assert(followers.push(subject)[followers.len() as int] == subject);
    }
}

/// Whoever stops following follows no more, everybody else still does, and
/// stopping twice is stopping once.
pub proof fn stopping_twice_is_stopping_once(
    followers: Seq<Seq<char>>,
    subject: Seq<char>,
    other: Seq<char>,
)
    ensures
        ({
            let once = all_but(followers, subject);
            &&& !once.contains(subject)
            &&& other != subject ==> once.contains(other) == followers.contains(other)
            &&& forall|x: Seq<char>| #[trigger]
                all_but(once, subject).contains(x) == once.contains(x)
        }),
{
    all_but_one(followers, subject);
    all_but_one(all_but(followers, subject), subject);
    let once = all_but(followers, subject);
    assert(once.contains(subject) <==> followers.contains(subject) && subject != subject);
    assert(once.contains(other) <==> followers.contains(other) && other != subject);
    assert forall|x: Seq<char>| #[trigger]
        all_but(once, subject).contains(x) == once.contains(x) by {
        assert(once.contains(x) <==> followers.contains(x) && x != subject);
    }
}

/// The writer is not told about their own post, and every other follower is.
pub proof fn the_writer_is_not_told(
    followers: Seq<Seq<char>>,
    writer: Seq<char>,
    x: Seq<char>,
)
    ensures
        sorted_texts(all_but(followers, writer)).contains(x) <==> followers.contains(x) && x
            != writer,
{
    all_but_one(followers, writer);
    sorting_keeps(all_but(followers, writer), x);
    assert(all_but(followers, writer).contains(x) <==> followers.contains(x) && x != writer);
}

} // verus!
