//! Who is known here, for the two questions a mention asks: which account
//! answers to this handle, and may it read the space?
//!
//! Somebody who never came has no row, no handle and no address: a mention of
//! them is plain text, which is also what it looks like.
use crate::auth::{groups_stored, Sessions};
use crate::authz::{listed, may_read, shares_group, Identity};
use crate::config::Space;
use crate::text::texts;
use vstd::prelude::*;
use vstd::string::*;

verus! {

/// An account that answers to a handle, with the groups of its last sign-in.
#[derive(Debug, Clone)]
pub struct Known {
    pub subject: String,
    pub handle: String,
    pub groups: Vec<String>,
}

pub struct KnownView {
    pub subject: Seq<char>,
    pub handle: Seq<char>,
    pub groups: Seq<Seq<char>>,
}

impl View for Known {
    type V = KnownView;

    open spec fn view(&self) -> KnownView {
        KnownView { subject: self.subject@, handle: self.handle@, groups: texts(self.groups@) }
    }
}

pub open spec fn known_view(list: Seq<Known>) -> Seq<KnownView> {
    Seq::new(list.len(), |i: int| list[i]@)
}

impl Known {
    /// An account as it is kept. Unreadable groups mean none.
    pub fn from_row(subject: String, handle: String, groups_json: &str) -> (r: Known)
        ensures
            r@ == (KnownView {
                subject: subject@,
                handle: handle@,
                groups: groups_stored(groups_json.spec_bytes()),
            }),
    {
        Known { subject, handle, groups: Sessions::stored_groups(groups_json) }
    }

    /// A copy that says the same.
    pub fn copy(&self) -> (r: Known)
        ensures
            r@ == self@,
    {
        Known {
            subject: self.subject.clone(),
            handle: self.handle.clone(),
            groups: crate::text::copied(&self.groups),
        }
    }
}

/// The accounts behind these handles.
pub open spec fn answering(accounts: Seq<KnownView>, handles: Seq<Seq<char>>) -> Seq<KnownView>
    decreases accounts.len(),
{
    if accounts.len() == 0 {
        Seq::empty()
    } else {
        let before = answering(accounts.drop_last(), handles);
        if handles.contains(accounts.last().handle) {
            before.push(accounts.last())
        } else {
            before
        }
    }
}

/// The accounts behind these handles. Handles that nobody holds are simply not
/// in the result.
pub fn by_handles(accounts: &[Known], handles: &[String]) -> (r: Vec<Known>)
    ensures
        known_view(r@) == answering(known_view(accounts@), texts(handles@)),
{
    let ghost all = known_view(accounts@);
    let mut out: Vec<Known> = Vec::new();
    let mut i: usize = 0;
    assert(known_view(out@) == answering(all.take(0), texts(handles@)));
    while i < accounts.len()
        invariant
            i <= accounts@.len(),
            all == known_view(accounts@),
            known_view(out@) == answering(all.take(i as int), texts(handles@)),
        decreases accounts@.len() - i,
    {
        assert(all.take(i + 1).drop_last() == all.take(i as int));
        assert(all.take(i + 1).last() == accounts@[i as int]@);
        if listed(handles, &accounts[i].handle) {
            let ghost before = known_view(out@);
            out.push(accounts[i].copy());
            assert(known_view(out@) == before.push(accounts@[i as int]@));
        }
        i += 1;
    }
    assert(all.take(i as int) == all);
    out
}

/// Whether the account may read `space` by the groups of its last sign-in. No
/// account means no.
pub fn may_read_now(groups_json: Option<&str>, space: &Space) -> (r: bool)
    ensures
        r == match groups_json {
            Some(text) => shares_group(groups_stored(text.spec_bytes()), space@.read),
            None => false,
        },
{
    match groups_json {
        Some(text) => {
            let who = Identity {
                subject: String::new(),
                name: String::new(),
                groups: Sessions::stored_groups(text),
                email: None,
                handle: None,
            };
            may_read(&who, space)
        },
        None => false,
    }
}

/// Whether this person wants a mail when mentioned. An account that is not
/// there has nobody to mail, which reads as no.
pub fn wants_mention_mail(on: Option<i64>) -> (r: bool)
    ensures
        r == (on == Some(1i64)),
{
    match on {
        Some(n) => n == 1,
        None => false,
    }
}

/// Who of these has a handle, and which.
pub open spec fn handles_among(
    accounts: Seq<KnownView>,
    subjects: Seq<Seq<char>>,
) -> Seq<(Seq<char>, Seq<char>)>
    decreases accounts.len(),
{
    if accounts.len() == 0 {
        Seq::empty()
    } else {
        let before = handles_among(accounts.drop_last(), subjects);
        if subjects.contains(accounts.last().subject) {
            before.push((accounts.last().subject, accounts.last().handle))
        } else {
            before
        }
    }
}

/// Subjects with their handles, for putting the handle next to a name.
pub fn handles_of(accounts: &[Known], subjects: &[String]) -> (r: Vec<(String, String)>)
    ensures
        r@.map_values(|pair: (String, String)| (pair.0@, pair.1@)) == handles_among(
            accounts@.map_values(|known: Known| known@),
            texts(subjects@),
        ),
{
    let ghost all = accounts@.map_values(|known: Known| known@);
    let mut out: Vec<(String, String)> = Vec::new();
    let mut i: usize = 0;
    assert(out@.map_values(|pair: (String, String)| (pair.0@, pair.1@)) =~= handles_among(
        all.take(0),
        texts(subjects@),
    ));
    while i < accounts.len()
        invariant
            i <= accounts@.len(),
            all == accounts@.map_values(|known: Known| known@),
            out@.map_values(|pair: (String, String)| (pair.0@, pair.1@)) == handles_among(
                all.take(i as int),
                texts(subjects@),
            ),
        decreases accounts@.len() - i,
    {
        let one = &accounts[i];
        assert(all.take(i + 1).drop_last() == all.take(i as int));
        assert(all.take(i + 1).last() == one@);
        if listed(subjects, &one.subject) {
            let ghost before = out@.map_values(|pair: (String, String)| (pair.0@, pair.1@));
            out.push((one.subject.clone(), one.handle.clone()));
            assert(out@.map_values(|pair: (String, String)| (pair.0@, pair.1@)) =~= before.push(
                (one.subject@, one.handle@),
            ));
        }
        i += 1;
    }
    assert(all.take(i as int) == all);
    out
}

} // verus!
