//! Bytes and texts as other people write them down: base64, percent signs,
//! authentication tags, and bytes nobody can guess.
use base64::Engine as _;
use hmac::{KeyInit as _, Mac as _};
use rand::TryRng as _;
use vstd::prelude::*;
use vstd::utf8::encode_utf8;

verus! {

/// The bytes a text stands for in base64 with the URL-safe alphabet and
/// without padding, if it stands for any.
pub uninterp spec fn base64url_decoded(text: Seq<char>) -> Option<Seq<u8>>;

/// The text that stands for these bytes in base64 with the URL-safe alphabet
/// and without padding.
pub uninterp spec fn base64url_encoded(bytes: Seq<u8>) -> Seq<char>;

/// `base64`'s `URL_SAFE_NO_PAD.decode`. It takes the one spelling there is of
/// some bytes, without padding and without stray bits at the end: what it takes
/// is what encoding the bytes writes, and it takes whatever encoding writes.
#[verifier::external_body]
pub(crate) fn base64url_decode(text: &str) -> (r: Option<Vec<u8>>)
    ensures
        r is Some == base64url_decoded(text@) is Some,
        r is Some ==> r->0@ == base64url_decoded(text@)->0,
        r is Some ==> base64url_encoded(r->0@) == text@,
        forall|bytes: Seq<u8>|
            bytes.len() <= 0x100000 && #[trigger] base64url_encoded(bytes) == text@ ==> r is Some
                && r->0@ == bytes,
{
    base64::engine::general_purpose::URL_SAFE_NO_PAD.decode(text).ok()
}

/// `base64`'s `URL_SAFE_NO_PAD.encode`: decoding what it writes gives the bytes
/// back.
#[verifier::external_body]
pub(crate) fn base64url_encode(bytes: &[u8]) -> (r: String)
    requires
        bytes@.len() <= 0x100000,
    ensures
        r@ == base64url_encoded(bytes@),
        base64url_decoded(r@) == Some(bytes@),
{
    base64::engine::general_purpose::URL_SAFE_NO_PAD.encode(bytes)
}

/// The HMAC-SHA256 tag of a message under a key.
pub uninterp spec fn hmac_sha256(key: Seq<u8>, message: Seq<u8>) -> Seq<u8>;

/// `hmac::Hmac<sha2::Sha256>`: a key of any length, one message, the whole tag
/// of thirty-two bytes.
#[verifier::external_body]
pub(crate) fn hmac_tag(key: &[u8], message: &[u8]) -> (r: Vec<u8>)
    ensures
        r@ == hmac_sha256(key@, message@),
        r@.len() == 32,
{
    let mut mac = hmac::Hmac::<sha2::Sha256>::new_from_slice(key).expect("a key of any length");
    mac.update(message);
    mac.finalize().into_bytes().to_vec()
}

/// `hmac`'s `verify_truncated_left`: are these bytes, at least one, the
/// beginning of the tag? Compared in constant time.
#[verifier::external_body]
pub(crate) fn hmac_begins(key: &[u8], message: &[u8], presented: &[u8]) -> (r: bool)
    ensures
        r == (0 < presented@.len() <= 32 && forall|i: int|
            0 <= i < presented@.len() ==> #[trigger] presented@[i] == hmac_sha256(
                key@,
                message@,
            )[i]),
{
    let mut mac = hmac::Hmac::<sha2::Sha256>::new_from_slice(key).expect("a key of any length");
    mac.update(message);
    mac.verify_truncated_left(presented).is_ok()
}

/// `rand::rngs::SysRng`: that many bytes from the operating system, or its
/// complaint. Which bytes is nobody's to say.
#[verifier::external_body]
pub(crate) fn random_bytes(count: usize) -> (r: Result<Vec<u8>, String>)
    requires
        count <= 0x1000,
    ensures
        r is Ok ==> r->Ok_0@.len() == count,
{
    let mut bytes = vec![0u8; count];
    rand::rngs::SysRng.try_fill_bytes(&mut bytes).map(|_| bytes).map_err(|e| e.to_string())
}

/// A digit to base sixteen, in capital letters.
pub open spec fn capital_digit(n: u8) -> char {
    if n < 10 {
        (48 + n) as u8 as char
    } else {
        (55 + n) as u8 as char
    }
}

/// A byte that stands for itself: an ASCII letter or an ASCII digit.
pub open spec fn plain_byte(b: u8) -> bool {
    48 <= b <= 57 || 65 <= b <= 90 || 97 <= b <= 122
}

/// The bytes, with a percent sign and two digits for every one that is neither
/// an ASCII letter nor an ASCII digit.
pub open spec fn percent_bytes(bytes: Seq<u8>) -> Seq<char>
    decreases bytes.len(),
{
    if bytes.len() == 0 {
        Seq::empty()
    } else {
        let b = bytes.last();
        percent_bytes(bytes.drop_last()) + if plain_byte(b) {
            seq![b as char]
        } else {
            seq!['%', capital_digit(b / 16), capital_digit(b % 16)]
        }
    }
}

/// A text with a percent sign and two digits for every byte that is neither an
/// ASCII letter nor an ASCII digit.
pub open spec fn percent_encoded(text: Seq<char>) -> Seq<char> {
    percent_bytes(encode_utf8(text))
}

/// `percent_encoding::utf8_percent_encode` with the set `NON_ALPHANUMERIC`:
/// every byte of the text that is no ASCII letter and no ASCII digit comes out
/// as a percent sign and its two digits, in capitals.
#[verifier::external_body]
pub(crate) fn percent_encode(text: &str) -> (r: String)
    ensures
        r@ == percent_encoded(text@),
{
    percent_encoding::utf8_percent_encode(text, percent_encoding::NON_ALPHANUMERIC).to_string()
}

/// What was encoded is one word in an address: nothing in it separates
/// anything.
pub proof fn an_encoded_text_is_one_word(bytes: Seq<u8>, i: int)
    requires
        0 <= i < percent_bytes(bytes).len(),
    ensures
        ({
            let c = percent_bytes(bytes)[i];
            c == '%' || '0' <= c <= '9' || 'A' <= c <= 'Z' || 'a' <= c <= 'z'
        }),
    decreases bytes.len(),
{
    let before = percent_bytes(bytes.drop_last());
    if i < before.len() {
        an_encoded_text_is_one_word(bytes.drop_last(), i);
    }
}

} // verus!
