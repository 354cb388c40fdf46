//! Attachments: the row next to the file.
//!
//! The bytes live on disk under a name **we** generate; the row holds what we
//! detected about them. Nothing the uploader chose, not the file name, not the
//! announced content type, is stored or trusted.
use crate::media::{kind_of_mime, MediaType};
use crate::text::{hex_digit, hex_text, same};
use vstd::prelude::*;
use vstd::string::*;

verus! {

#[derive(Debug, Clone)]
pub struct Attachment {
    pub id: String,
    pub post_id: i64,
    pub media_type: MediaType,
    pub byte_size: i64,
}

/// The path of an attachment's bytes, below the data directory.
pub open spec fn path_below(id: Seq<char>, media_type: MediaType) -> Seq<char> {
    "attachments/"@ + id + "."@ + media_type.extension_text()
}

/// Where an attachment's bytes are, below the data directory.
///
/// The id is generated and hex-only, and the extension comes from detection, so
/// this path cannot be steered from outside: no `..`, no absolute path, no
/// second dot.
pub fn path_of(id: &str, media_type: MediaType) -> (r: String)
    ensures
        r@ == path_below(id@, media_type),
{
    "attachments/".to_owned().concat(id).concat(".").concat(media_type.extension())
}

/// An id that was generated puts the file directly into the directory: there
/// is one slash in the path and one dot, and neither is the id's.
pub proof fn a_generated_path_stays_put(bytes: Seq<u8>, media_type: MediaType, i: int)
    requires
        0 <= i < path_below(hex_text(bytes), media_type).len(),
    ensures
        path_below(hex_text(bytes), media_type)[i] == '/' ==> i == 11,
        path_below(hex_text(bytes), media_type)[i] == '.' ==> i == 12 + 2 * bytes.len(),
{
    reveal_strlit("attachments/");
    reveal_strlit(".");
    reveal_strlit("jpg");
    reveal_strlit("png");
    reveal_strlit("gif");
    reveal_strlit("webp");
    let id = hex_text(bytes);
    let path = path_below(id, media_type);
    let front = "attachments/"@;
    assert(front.len() == 12);
    if i < 12 {
        assert(path[i] == front[i]);
    } else if i < 12 + id.len() {
        assert(path[i] == id[i - 12]);
        let b = bytes[(i - 12) / 2];
        assert(id[i - 12] == hex_digit(b / 16) || id[i - 12] == hex_digit(b % 16));
        assert(hex_digit(b / 16) != '/' && hex_digit(b / 16) != '.');
        assert(hex_digit(b % 16) != '/' && hex_digit(b % 16) != '.');
    } else if i == 12 + id.len() {
        assert(path[i] == "."@[0]);
    } else {
        assert(path[i] == media_type.extension_text()[i - 13 - id.len()]);
    }
}

/// A stored attachment, with what there is to know about the topic it hangs
/// under.
#[derive(Debug)]
pub struct StoredAttachment {
    pub id: String,
    pub post_id: i64,
    pub media_type: String,
    pub byte_size: i64,
    pub space: String,
    pub hidden: bool,
}

/// An attachment, but only if it hangs under a post in **this** space and its
/// topic is not withdrawn: an id says nothing about who may see it. A type that
/// is no longer served is refused too: the allow list is the allow list at
/// serving time, not only at upload time.
pub fn load(row: Option<StoredAttachment>, space: &str) -> (r: Option<Attachment>)
    ensures
        r is Some == (row is Some && row->0.space@ == space@ && !row->0.hidden && kind_of_mime(
            row->0.media_type@,
        ) is Some),
        r is Some ==> {
            &&& r->0.id@ == row->0.id@
            &&& r->0.post_id == row->0.post_id
            &&& r->0.byte_size == row->0.byte_size
            &&& Some(r->0.media_type) == kind_of_mime(row->0.media_type@)
        },
{
    match row {
        Some(row) => {
            if !same(&row.space, space) || row.hidden {
                return None;
            }
            match MediaType::from_mime(&row.media_type) {
                Some(media_type) => Some(
                    Attachment {
                        id: row.id,
                        post_id: row.post_id,
                        media_type,
                        byte_size: row.byte_size,
                    },
                ),
                None => None,
            }
        },
        None => None,
    }
}

} // verus!
