//! What a sign-in decides: that a callback whose `state` does not match is
//! refused before anything else happens, and what is read out of a token once
//! its signature has been checked.
use crate::codec::{base64url_decode, base64url_decoded};
use crate::text::{chars, find_char, first_at, slice_string};
use crate::tree::{json_parsed, parse_json, Tree, TreeView};
use vstd::prelude::*;
use vstd::string::*;
use vstd::utf8::*;

verus! {

/// What a sign-in needs to remember between the redirect out and the callback
/// back. It travels in a short-lived private cookie, never in a URL.
#[derive(Debug, Clone)]
pub struct PendingLogin {
    pub state: String,
    pub nonce: String,
    pub pkce_verifier: String,
}

pub struct LoginStart {
    pub url: String,
    pub pending: PendingLogin,
}

/// Compares two `state` values without an early exit.
///
/// An empty stored state is **not** a wildcard: a callback that arrives
/// without a login having started is refused, which is what makes this a
/// defence rather than a formality.
pub fn states_match(stored: &str, returned: &str) -> (r: bool)
    ensures
        r == (stored@.len() > 0 && stored@ == returned@),
{
    let a = stored.as_bytes();
    let b = returned.as_bytes();
    proof {
        encode_utf8_decode_utf8(stored@);
        encode_utf8_decode_utf8(returned@);
        if stored@.len() == 0 {
            assert(encode_utf8(stored@).len() == 0);
        } else {
            assert(stored.spec_bytes().len() > 0) by {
                if stored.spec_bytes().len() == 0 {
                    assert(decode_utf8(encode_utf8(stored@)).len() == 0);
                }
            }
        }
    }
    if a.len() == 0 || a.len() != b.len() {
        return false;
    }
    let mut difference: u8 = 0;
    let mut i: usize = 0;
    assert(a@.take(0) == b@.take(0));
    while i < a.len()
        invariant
            i <= a@.len(),
            a@.len() == b@.len(),
            (difference == 0) == (a@.take(i as int) == b@.take(i as int)),
        decreases a@.len() - i,
    {
        let x = a[i];
        let y = b[i];
        let ghost so_far = difference;
        difference = difference | (x ^ y);
        proof {
            assert((so_far | (x ^ y)) == 0 <==> so_far == 0 && x == y) by (bit_vector);
            assert(a@.take(i + 1) == a@.take(i as int).push(x));
            assert(b@.take(i + 1) == b@.take(i as int).push(y));
            if x != y {
                assert(a@.take(i + 1)[i as int] != b@.take(i + 1)[i as int]);
            }
            if a@.take(i as int) != b@.take(i as int) {
                assert(a@.take(i + 1).drop_last() == a@.take(i as int));
                assert(b@.take(i + 1).drop_last() == b@.take(i as int));
            }
        }
        i += 1;
    }
    assert(a@.take(i as int) == a@);
    assert(b@.take(i as int) == b@);
    difference == 0
}

/// What is wrong with a token.
#[derive(Debug, Clone, Copy, PartialEq, Eq, Structural)]
pub enum TokenError {
    NoPayload,
    NoSignature,
    NotThreeParts,
    /// The payload is not base64.
    Encoding,
    /// The payload is not JSON.
    Json,
}

/// The middle one of three parts with dots between them, the last of them not
/// empty.
pub open spec fn middle_part(jwt: Seq<char>) -> Result<Seq<char>, TokenError> {
    let one = first_at(jwt, '.');
    if one >= jwt.len() {
        Err(TokenError::NoPayload)
    } else {
        let rest = jwt.skip(one + 1);
        let two = first_at(rest, '.');
        if two >= rest.len() {
            Err(TokenError::NoSignature)
        } else {
            let signature = rest.skip(two + 1);
            if signature.len() == 0 || first_at(signature, '.') < signature.len() {
                Err(TokenError::NotThreeParts)
            } else {
                Ok(rest.take(two))
            }
        }
    }
}

/// The claims of a token: the middle part as base64, and that as JSON.
pub open spec fn payload_of(jwt: Seq<char>) -> Result<TreeView, TokenError> {
    match middle_part(jwt) {
        Err(e) => Err(e),
        Ok(part) => match base64url_decoded(part) {
            None => Err(TokenError::Encoding),
            Some(bytes) => match json_parsed(bytes) {
                None => Err(TokenError::Json),
                Some(tree) => Ok(tree),
            },
        },
    }
}

/// The payload's part of a token.
pub fn payload_part(jwt: &str) -> (r: Result<String, TokenError>)
    ensures
        r is Ok == middle_part(jwt@) is Ok,
        r is Ok ==> r->Ok_0@ == middle_part(jwt@)->Ok_0,
        r is Err ==> r->Err_0 == middle_part(jwt@)->Err_0,
{
    let all = chars(jwt);
    let one = find_char(&all, '.');
    if one >= all.len() {
        return Err(TokenError::NoPayload);
    }
    let rest = &all[one + 1..all.len()];
    assert(rest@ == jwt@.skip(one + 1));
    let two = find_char(rest, '.');
    if two >= rest.len() {
        return Err(TokenError::NoSignature);
    }
    let signature = &rest[two + 1..rest.len()];
    assert(signature@ == rest@.skip(two + 1));
    if signature.len() == 0 || find_char(signature, '.') < signature.len() {
        return Err(TokenError::NotThreeParts);
    }
    let part = slice_string(rest, 0, two);
    assert(part@ == rest@.take(two as int));
    Ok(part)
}

/// The payload of a token as plain JSON.
///
/// Only ever called on a token whose signature has already been checked: this
/// re-reads the same bytes. Something that is no token is an error and not an
/// empty set of claims, which would read exactly like a person who belongs to
/// no group.
pub fn verified_payload(jwt: &str) -> (r: Result<Tree, TokenError>)
    ensures
        r is Ok == payload_of(jwt@) is Ok,
        r is Ok ==> r->Ok_0@ == payload_of(jwt@)->Ok_0,
        r is Err ==> r->Err_0 == payload_of(jwt@)->Err_0,
{
    let part = match payload_part(jwt) {
        Ok(part) => part,
        Err(e) => {
            return Err(e);
        },
    };
    let bytes = match base64url_decode(&part) {
        Some(bytes) => bytes,
        None => {
            return Err(TokenError::Encoding);
        },
    };
    match parse_json(&bytes) {
        Some(tree) => Ok(tree),
        None => Err(TokenError::Json),
    }
}

} // verus!
