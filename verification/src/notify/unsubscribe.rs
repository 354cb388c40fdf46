//! The way out, and why it does not ask anybody to sign in.
//!
//! A notification that can only be stopped by signing in does not have an
//! unsubscribe link, it has a sign-in link. So the link carries its own proof:
//! an HMAC over the outbox row it came from. From that row follow the person
//! and the topic, which means **the address of the link says nothing**.
use crate::codec::{
    base64url_decode, base64url_encode, base64url_encoded, hmac_begins,
    hmac_sha256, hmac_tag, random_bytes,
};
use crate::text::{decimal, decimal_text};
use vstd::prelude::*;
use vstd::string::*;
use vstd::utf8::*;

verus! {

/// Sixteen bytes of tag. Not thirty-two: this authenticates a row id against
/// forgery, and a URL people paste into a browser is worth keeping short.
pub const TAG_BYTES: usize = 16;

/// What is authenticated: the purpose, and the row.
pub open spec fn message_for(outbox_id: i64) -> Seq<u8> {
    encode_utf8("treff-unsubscribe-v1:"@ + decimal_text(outbox_id as int))
}

/// The beginning of the tag for this row.
pub open spec fn short_tag(key: Seq<u8>, outbox_id: i64) -> Seq<u8> {
    Seq::new(TAG_BYTES as nat, |i: int| hmac_sha256(key, message_for(outbox_id))[i])
}

/// The token for a row.
pub open spec fn token_of(key: Seq<u8>, outbox_id: i64) -> Seq<char> {
    base64url_encoded(short_tag(key, outbox_id))
}

fn message(outbox_id: i64) -> (r: String)
    ensures
        encode_utf8(r@) == message_for(outbox_id),
{
    let mut text = "treff-unsubscribe-v1:".to_owned();
    text.append(&decimal(outbox_id));
    text
}

/// The token for a row.
pub fn token(key: &[u8], outbox_id: i64) -> (r: String)
    ensures
        r@ == token_of(key@, outbox_id),
{
    let tag = hmac_tag(key, message(outbox_id).as_str().as_bytes());
    let short = &tag[0..TAG_BYTES];
    assert(short@ == short_tag(key@, outbox_id));
    base64url_encode(short)
}

/// The token of the row under this key, and nothing else, is accepted:
/// everything that is not the token answers the same way. The comparison
/// happens in constant time: a `==` on the strings would leak the tag one byte
/// at a time to anybody willing to make enough requests.
pub fn verify(key: &[u8], outbox_id: i64, presented: &str) -> (r: bool)
    ensures
        r == (presented@ == token_of(key@, outbox_id)),
{
    let ghost wanted = short_tag(key@, outbox_id);
    assert(wanted.len() == TAG_BYTES);
    let bytes = match base64url_decode(presented) {
        Some(bytes) => bytes,
        None => {
            return false;
        },
    };
    if bytes.len() != TAG_BYTES {
        return false;
    }
    let genuine = hmac_begins(key, message(outbox_id).as_str().as_bytes(), &bytes);
    proof {
        if genuine {
            assert(bytes@ =~= wanted);
        }
    }
    genuine
}

/// The key to use, given what is in the key file, and whether it is new and
/// has to be written there.
///
/// TWO PURPOSES, TWO KEYS: never the cookie key. Somebody who obtained this
/// one could unsubscribe strangers; if it were also the cookie key they could
/// sign in as them.
pub fn load_or_create_key(stored: Option<Vec<u8>>) -> (r: Result<(Vec<u8>, bool), String>)
    ensures
        match stored {
            Some(bytes) if bytes@.len() >= 32 => r == Ok::<(Vec<u8>, bool), String>((bytes, false)),
            _ => r is Ok ==> r->Ok_0.0@.len() == 64 && r->Ok_0.1,
        },
{
    match stored {
        Some(bytes) => {
            if bytes.len() >= 32 {
                return Ok((bytes, false));
            }
        },
        None => {},
    }
    match random_bytes(64) {
        Ok(key) => Ok((key, true)),
        Err(e) => Err(e),
    }
}

} // verus!
