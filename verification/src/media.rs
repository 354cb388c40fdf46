//! What kind of bytes these are, decided by looking at them.
//!
//! Never by the file extension and never by the content type the browser
//! announced: both are chosen by whoever is uploading. This is an **allow**
//! list of four formats, and the reason it is one is SVG, which is executable
//! XML that happens to be called an image.
use crate::text::same;
use vstd::prelude::*;

verus! {

#[derive(Debug, Clone, Copy, PartialEq, Eq, Structural)]
pub enum MediaType {
    Jpeg,
    Png,
    Gif,
    Webp,
}

impl MediaType {
    /// The content type a picture of this kind is served under.
    pub open spec fn mime_text(self) -> Seq<char> {
        match self {
            MediaType::Jpeg => "image/jpeg"@,
            MediaType::Png => "image/png"@,
            MediaType::Gif => "image/gif"@,
            MediaType::Webp => "image/webp"@,
        }
    }

    /// The file name extension a picture of this kind is stored under.
    pub open spec fn extension_text(self) -> Seq<char> {
        match self {
            MediaType::Jpeg => "jpg"@,
            MediaType::Png => "png"@,
            MediaType::Gif => "gif"@,
            MediaType::Webp => "webp"@,
        }
    }

    pub fn mime(&self) -> (r: &'static str)
        ensures
            r@ == self.mime_text(),
    {
        match self {
            MediaType::Jpeg => "image/jpeg",
            MediaType::Png => "image/png",
            MediaType::Gif => "image/gif",
            MediaType::Webp => "image/webp",
        }
    }

    pub fn extension(&self) -> (r: &'static str)
        ensures
            r@ == self.extension_text(),
    {
        match self {
            MediaType::Jpeg => "jpg",
            MediaType::Png => "png",
            MediaType::Gif => "gif",
            MediaType::Webp => "webp",
        }
    }

    pub fn from_mime(mime: &str) -> (r: Option<Self>)
        ensures
            r == kind_of_mime(mime@),
    {
        proof {
            reveal_strlit("image/jpeg");
            reveal_strlit("image/png");
            reveal_strlit("image/gif");
            reveal_strlit("image/webp");
        }
        if same(mime, "image/jpeg") {
            Some(MediaType::Jpeg)
        } else if same(mime, "image/png") {
            Some(MediaType::Png)
        } else if same(mime, "image/gif") {
            Some(MediaType::Gif)
        } else if same(mime, "image/webp") {
            Some(MediaType::Webp)
        } else {
            None
        }
    }
}

/// The kind whose content type this is, if it is one of the four.
pub open spec fn kind_of_mime(mime: Seq<char>) -> Option<MediaType> {
    if mime == "image/jpeg"@ {
        Some(MediaType::Jpeg)
    } else if mime == "image/png"@ {
        Some(MediaType::Png)
    } else if mime == "image/gif"@ {
        Some(MediaType::Gif)
    } else if mime == "image/webp"@ {
        Some(MediaType::Webp)
    } else {
        None
    }
}

/// A kind is found again by the content type it is served under.
pub proof fn mime_names_its_kind(kind: MediaType)
    ensures
        kind_of_mime(kind.mime_text()) == Some(kind),
{
    reveal_strlit("image/jpeg");
    reveal_strlit("image/png");
    reveal_strlit("image/gif");
    reveal_strlit("image/webp");
    assert("image/jpeg"@[6] == 'j');
    assert("image/png"@[6] == 'p');
    assert("image/gif"@[6] == 'g');
    assert("image/webp"@[6] == 'w');
}

/// Do the bytes from `at` on begin with `head`?
pub open spec fn reads_at(data: Seq<u8>, at: int, head: Seq<u8>) -> bool {
    0 <= at && at + head.len() <= data.len() && data.subrange(at, at + head.len()) == head
}

pub open spec fn png_signature() -> Seq<u8> {
    seq![0x89u8, 0x50, 0x4E, 0x47, 0x0D, 0x0A, 0x1A, 0x0A]
}

pub open spec fn riff_tag() -> Seq<u8> {
    seq![0x52u8, 0x49, 0x46, 0x46]
}

pub open spec fn webp_tag() -> Seq<u8> {
    seq![0x57u8, 0x45, 0x42, 0x50]
}

/// What the first bytes say the picture is.
pub open spec fn detected(data: Seq<u8>) -> Option<MediaType> {
    if reads_at(data, 0, seq![0xFFu8, 0xD8, 0xFF]) {
        Some(MediaType::Jpeg)
    } else if reads_at(data, 0, png_signature()) {
        Some(MediaType::Png)
    } else if reads_at(data, 0, seq![0x47u8, 0x49, 0x46, 0x38, 0x37, 0x61]) || reads_at(
        data,
        0,
        seq![0x47u8, 0x49, 0x46, 0x38, 0x39, 0x61],
    ) {
        Some(MediaType::Gif)
    } else if reads_at(data, 0, riff_tag()) && reads_at(data, 8, webp_tag()) {
        Some(MediaType::Webp)
    } else {
        None
    }
}

fn reads(data: &[u8], at: usize, head: &[u8]) -> (r: bool)
    ensures
        r == reads_at(data@, at as int, head@),
{
    if data.len() < head.len() || data.len() - head.len() < at {
        return false;
    }
    let mut i: usize = 0;
    while i < head.len()
        invariant
            i <= head@.len(),
            at + head@.len() <= data@.len() <= usize::MAX,
            data@.subrange(at as int, at + i) == head@.take(i as int),
        decreases head.len() - i,
    {
        if data[at + i] != head[i] {
            assert(data@.subrange(at as int, at + head@.len())[i as int] != head@[i as int]);
            return false;
        }
        i += 1;
        assert(data@.subrange(at as int, at + i) == data@.subrange(at as int, at + i - 1).push(
            head@[i - 1],
        ));
        assert(head@.take(i as int) == head@.take(i - 1).push(head@[i - 1]));
    }
    assert(head@.take(i as int) == head@);
    true
}

/// The allow list, read from the first bytes.
pub fn detect(data: &[u8]) -> (r: Option<MediaType>)
    ensures
        r == detected(data@),
{
    let jpeg: [u8; 3] = [0xFF, 0xD8, 0xFF];
    let png: [u8; 8] = [0x89, 0x50, 0x4E, 0x47, 0x0D, 0x0A, 0x1A, 0x0A];
    let gif87: [u8; 6] = [0x47, 0x49, 0x46, 0x38, 0x37, 0x61];
    let gif89: [u8; 6] = [0x47, 0x49, 0x46, 0x38, 0x39, 0x61];
    let riff: [u8; 4] = [0x52, 0x49, 0x46, 0x46];
    let webp: [u8; 4] = [0x57, 0x45, 0x42, 0x50];
    assert(jpeg@ == seq![0xFFu8, 0xD8, 0xFF]);
    assert(png@ == png_signature());
    assert(gif87@ == seq![0x47u8, 0x49, 0x46, 0x38, 0x37, 0x61]);
    assert(gif89@ == seq![0x47u8, 0x49, 0x46, 0x38, 0x39, 0x61]);
    assert(riff@ == riff_tag());
    assert(webp@ == webp_tag());
    if reads(data, 0, &jpeg) {
        return Some(MediaType::Jpeg);
    }
    if reads(data, 0, &png) {
        return Some(MediaType::Png);
    }
    if reads(data, 0, &gif87) || reads(data, 0, &gif89) {
        return Some(MediaType::Gif);
    }
    if reads(data, 0, &riff) && reads(data, 8, &webp) {
        return Some(MediaType::Webp);
    }
    None
}

/// Does this JPEG segment carry something about the photographer rather than
/// about the picture?
///
/// APP1 is Exif and XMP, APP13 is IPTC: those are the ones with the location
/// in them. The rest of the APPn range is vendor territory nobody here needs,
/// and `COM` is a free-text comment. Three are kept on purpose: APP0 is JFIF
/// (density), APP2 is the ICC colour profile, APP14 is Adobe's colour
/// transform. Drop those three and the picture itself changes.
pub open spec fn jpeg_metadata_marker(marker: u8) -> bool {
    marker == 0xE1 || 0xE3 <= marker <= 0xED || marker == 0xEF || marker == 0xFE
}

pub fn is_jpeg_metadata(marker: u8) -> (r: bool)
    ensures
        r == jpeg_metadata_marker(marker),
{
    marker == 0xE1 || (0xE3 <= marker && marker <= 0xED) || marker == 0xEF || marker == 0xFE
}

/// What one step along a JPEG finds at `i`.
pub enum JpegStep {
    /// Nothing that can be walked.
    Broken,
    /// A fill byte in front of a marker.
    Fill,
    /// The start of scan or the end of the image: the rest is the picture.
    Picture,
    /// A marker that stands alone.
    Lone,
    /// A segment with a length, ending before `end`.
    Segment { marker: u8, end: int },
}

pub open spec fn jpeg_step(data: Seq<u8>, i: int) -> JpegStep {
    if i < 0 || i + 1 >= data.len() || data[i] != 0xFF {
        JpegStep::Broken
    } else {
        let marker = data[i + 1];
        if marker == 0xFF {
            JpegStep::Fill
        } else if marker == 0xDA || marker == 0xD9 {
            JpegStep::Picture
        } else if marker == 0x01 || 0xD0 <= marker <= 0xD8 {
            JpegStep::Lone
        } else if i + 3 >= data.len() {
            JpegStep::Broken
        } else {
            // The length counts its own two bytes, but not the marker's.
            let len = data[i + 2] * 256 + data[i + 3];
            if len < 2 || i + 2 + len > data.len() {
                JpegStep::Broken
            } else {
                JpegStep::Segment { marker, end: i + 2 + len }
            }
        }
    }
}

/// What is kept of a JPEG from `i` on: everything but the metadata segments,
/// or nothing at all when the bytes cannot be walked to the picture.
pub open spec fn jpeg_kept(data: Seq<u8>, i: int) -> Option<Seq<u8>>
    decreases data.len() - i,
{
    match jpeg_step(data, i) {
        JpegStep::Broken => None,
        JpegStep::Picture => Some(data.skip(i)),
        JpegStep::Fill => match jpeg_kept(data, i + 1) {
            Some(rest) => Some(data.subrange(i, i + 1) + rest),
            None => None,
        },
        JpegStep::Lone => match jpeg_kept(data, i + 2) {
            Some(rest) => Some(data.subrange(i, i + 2) + rest),
            None => None,
        },
        JpegStep::Segment { marker, end } => if i < end {
            match jpeg_kept(data, end) {
                Some(rest) => if jpeg_metadata_marker(marker) {
                    Some(rest)
                } else {
                    Some(data.subrange(i, end) + rest)
                },
                None => None,
            }
        } else {
            None
        },
    }
}

/// Does the walk from `i` reach the picture without meeting a metadata
/// segment?
pub open spec fn jpeg_clean(data: Seq<u8>, i: int) -> bool
    decreases data.len() - i,
{
    match jpeg_step(data, i) {
        JpegStep::Broken => false,
        JpegStep::Picture => true,
        JpegStep::Fill => jpeg_clean(data, i + 1),
        JpegStep::Lone => jpeg_clean(data, i + 2),
        JpegStep::Segment { marker, end } => i < end && !jpeg_metadata_marker(marker)
            && jpeg_clean(data, end),
    }
}

/// A JPEG without its metadata segments.
pub open spec fn jpeg_stripped(data: Seq<u8>) -> Option<Seq<u8>> {
    if !reads_at(data, 0, seq![0xFFu8, 0xD8]) {
        None
    } else {
        match jpeg_kept(data, 2) {
            Some(rest) => Some(data.take(2) + rest),
            None => None,
        }
    }
}

pub fn strip_jpeg(data: &[u8]) -> (r: Option<Vec<u8>>)
    ensures
        r is Some == jpeg_stripped(data@) is Some,
        r is Some ==> r->0@ == jpeg_stripped(data@)->0,
{
    let head: [u8; 2] = [0xFF, 0xD8];
    assert(head@ == seq![0xFFu8, 0xD8]);
    if !reads(data, 0, &head) {
        return None;
    }
    let mut out: Vec<u8> = Vec::new();
    out.push(0xFF);
    out.push(0xD8);
    assert(out@ == data@.take(2)) by {
        assert(data@.take(2) == data@.subrange(0, 2));
    }
    let mut i: usize = 2;
    loop
        invariant
            2 <= i <= data@.len(),
            reads_at(data@, 0, seq![0xFFu8, 0xD8]),
            jpeg_stripped(data@) is Some == jpeg_kept(data@, i as int) is Some,
            jpeg_stripped(data@) is Some ==> jpeg_stripped(data@)->0 == out@ + jpeg_kept(
                data@,
                i as int,
            )->0,
        decreases data@.len() - i,
    {
        if i >= data.len() - 1 || data[i] != 0xFF {
            return None;
        }
        let marker = data[i + 1];
        if marker == 0xFF {
            // A run of 0xFF is legal padding in front of a marker.
            proof {
                if let Some(rest) = jpeg_kept(data@, i + 1) {
                    assert(out@ + (data@.subrange(i as int, i + 1) + rest) == out@.push(0xFF)
                        + rest);
                }
            }
            out.push(0xFF);
            i += 1;
        } else if marker == 0xDA || marker == 0xD9 {
            // From here on it is the picture, entropy coded, and a byte that
            // looks like a marker is not one.
            let ghost before = out@;
            out.extend_from_slice(&data[i..data.len()]);
            assert(out@ == before + data@.skip(i as int));
            return Some(out);
        } else if marker == 0x01 || (0xD0 <= marker && marker <= 0xD8) {
            // Markers that stand alone, without a length after them.
            proof {
                if let Some(rest) = jpeg_kept(data@, i + 2) {
                    assert(out@ + (data@.subrange(i as int, i + 2) + rest) == out@.push(0xFF).push(
                        marker,
                    ) + rest);
                }
            }
            out.push(0xFF);
            out.push(marker);
            i += 2;
        } else {
            if data.len() - i < 4 {
                return None;
            }
            let len: usize = data[i + 2] as usize * 256 + data[i + 3] as usize;
            // The length counts itself. Anything shorter is not a segment, and
            // trusting it would walk backwards forever.
            if len < 2 || len > data.len() - i - 2 {
                return None;
            }
            let end: usize = i + 2 + len;
            if !is_jpeg_metadata(marker) {
                let ghost before = out@;
                out.extend_from_slice(&data[i..end]);
                proof {
                    assert(out@ == before + data@.subrange(i as int, end as int));
                    if let Some(rest) = jpeg_kept(data@, end as int) {
                        assert(before + (data@.subrange(i as int, end as int) + rest) == out@
                            + rest);
                    }
                }
            }
            i = end;
        }
    }
}

/// PNG's own text chunks, plus the EXIF block a phone writes and the
/// timestamp. Everything else (header, palette, transparency, pixels) is the
/// picture.
pub open spec fn png_metadata_kind(kind: Seq<u8>) -> bool {
    ||| kind == seq![0x65u8, 0x58, 0x49, 0x66]
    ||| kind == seq![0x74u8, 0x45, 0x58, 0x74]
    ||| kind == seq![0x7Au8, 0x54, 0x58, 0x74]
    ||| kind == seq![0x69u8, 0x54, 0x58, 0x74]
    ||| kind == seq![0x74u8, 0x49, 0x4D, 0x45]
}

/// Four bytes read as a number, the most significant first.
pub open spec fn be32(data: Seq<u8>, at: int) -> int {
    data[at] * 0x1000000 + data[at + 1] * 0x10000 + data[at + 2] * 0x100 + data[at + 3]
}

/// Four bytes read as a number, the least significant first.
pub open spec fn le32(data: Seq<u8>, at: int) -> int {
    data[at] + data[at + 1] * 0x100 + data[at + 2] * 0x10000 + data[at + 3] * 0x1000000
}

/// Where the PNG chunk at `i` ends, if a whole chunk stands there: four bytes
/// of length, four of kind, the data, four of checksum.
pub open spec fn png_chunk_end(data: Seq<u8>, i: int) -> Option<int> {
    if i < 0 || i + 8 > data.len() || i + 12 + be32(data, i) > data.len() {
        None
    } else {
        Some(i + 12 + be32(data, i))
    }
}

/// What is kept of a PNG from `i` on: every chunk but the metadata ones, or
/// nothing at all when the chunks do not end where the file does.
pub open spec fn png_kept(data: Seq<u8>, i: int) -> Option<Seq<u8>>
    decreases data.len() - i,
{
    if i >= data.len() {
        Some(Seq::empty())
    } else {
        match png_chunk_end(data, i) {
            Some(end) if i < end => match png_kept(data, end) {
                Some(rest) => if png_metadata_kind(data.subrange(i + 4, i + 8)) {
                    Some(rest)
                } else {
                    Some(data.subrange(i, end) + rest)
                },
                None => None,
            },
            _ => None,
        }
    }
}

/// Do the chunks from `i` to the end of the file walk, none of them metadata?
pub open spec fn png_clean(data: Seq<u8>, i: int) -> bool
    decreases data.len() - i,
{
    if i >= data.len() {
        true
    } else {
        match png_chunk_end(data, i) {
            Some(end) => i < end && !png_metadata_kind(data.subrange(i + 4, i + 8)) && png_clean(
                data,
                end,
            ),
            None => false,
        }
    }
}

/// A PNG without its metadata chunks.
pub open spec fn png_stripped(data: Seq<u8>) -> Option<Seq<u8>> {
    if !reads_at(data, 0, png_signature()) {
        None
    } else {
        match png_kept(data, 8) {
            Some(rest) => Some(png_signature() + rest),
            None => None,
        }
    }
}

fn is_png_metadata(data: &[u8], at: usize) -> (r: bool)
    requires
        at + 4 <= data@.len(),
    ensures
        r == png_metadata_kind(data@.subrange(at as int, at + 4)),
{
    let exif: [u8; 4] = [0x65, 0x58, 0x49, 0x66];
    let text: [u8; 4] = [0x74, 0x45, 0x58, 0x74];
    let ztxt: [u8; 4] = [0x7A, 0x54, 0x58, 0x74];
    let itxt: [u8; 4] = [0x69, 0x54, 0x58, 0x74];
    let time: [u8; 4] = [0x74, 0x49, 0x4D, 0x45];
    assert(exif@ == seq![0x65u8, 0x58, 0x49, 0x66]);
    assert(text@ == seq![0x74u8, 0x45, 0x58, 0x74]);
    assert(ztxt@ == seq![0x7Au8, 0x54, 0x58, 0x74]);
    assert(itxt@ == seq![0x69u8, 0x54, 0x58, 0x74]);
    assert(time@ == seq![0x74u8, 0x49, 0x4D, 0x45]);
    reads(data, at, &exif) || reads(data, at, &text) || reads(data, at, &ztxt) || reads(
        data,
        at,
        &itxt,
    ) || reads(data, at, &time)
}

fn read_be32(data: &[u8], at: usize) -> (r: u32)
    requires
        at + 4 <= data@.len(),
    ensures
        r == be32(data@, at as int),
{
    data[at] as u32 * 0x1000000 + data[at + 1] as u32 * 0x10000 + data[at + 2] as u32 * 0x100
        + data[at + 3] as u32
}

fn read_le32(data: &[u8], at: usize) -> (r: u32)
    requires
        at + 4 <= data@.len(),
    ensures
        r == le32(data@, at as int),
{
    data[at] as u32 + data[at + 1] as u32 * 0x100 + data[at + 2] as u32 * 0x10000 + data[at + 3]
        as u32 * 0x1000000
}

pub fn strip_png(data: &[u8]) -> (r: Option<Vec<u8>>)
    ensures
        r is Some == png_stripped(data@) is Some,
        r is Some ==> r->0@ == png_stripped(data@)->0,
{
    let signature: [u8; 8] = [0x89, 0x50, 0x4E, 0x47, 0x0D, 0x0A, 0x1A, 0x0A];
    assert(signature@ == png_signature());
    if !reads(data, 0, &signature) {
        return None;
    }
    let mut out: Vec<u8> = Vec::new();
    out.extend_from_slice(&signature);
    assert(out@ == png_signature());
    let mut i: usize = 8;
    while i < data.len()
        invariant
            8 <= i <= data@.len(),
            reads_at(data@, 0, png_signature()),
            png_stripped(data@) is Some == png_kept(data@, i as int) is Some,
            png_stripped(data@) is Some ==> png_stripped(data@)->0 == out@ + png_kept(
                data@,
                i as int,
            )->0,
        decreases data@.len() - i,
    {
        if data.len() - i < 8 {
            return None;
        }
        let len: u32 = read_be32(data, i);
        if data.len() - i < 12 || len as usize > data.len() - i - 12 {
            return None;
        }
        let end: usize = i + 12 + len as usize;
        if !is_png_metadata(data, i + 4) {
            let ghost before = out@;
            out.extend_from_slice(&data[i..end]);
            proof {
                assert(out@ == before + data@.subrange(i as int, end as int));
                if let Some(rest) = png_kept(data@, end as int) {
                    assert(before + (data@.subrange(i as int, end as int) + rest) == out@ + rest);
                }
            }
        }
        i = end;
    }
    assert(out@ + Seq::<u8>::empty() == out@);
    Some(out)
}

pub open spec fn exif_tag() -> Seq<u8> {
    seq![0x45u8, 0x58, 0x49, 0x46]
}

pub open spec fn xmp_tag() -> Seq<u8> {
    seq![0x58u8, 0x4D, 0x50, 0x20]
}

pub open spec fn vp8x_tag() -> Seq<u8> {
    seq![0x56u8, 0x50, 0x38, 0x58]
}

pub open spec fn webp_metadata_kind(kind: Seq<u8>) -> bool {
    kind == exif_tag() || kind == xmp_tag()
}

/// Where the WebP chunk at `i` ends, if a whole chunk stands there before
/// `stop`: four bytes of kind, four of length, the data, padded to an even
/// length.
pub open spec fn webp_chunk_end(data: Seq<u8>, i: int, stop: int) -> Option<int> {
    if i < 0 || i + 8 > stop || stop > data.len() {
        None
    } else {
        let len = le32(data, i + 4);
        let end = i + 8 + len + len % 2;
        if end > stop {
            None
        } else {
            Some(end)
        }
    }
}

/// What is kept of the chunks from `i` up to `stop`.
pub open spec fn webp_kept(data: Seq<u8>, i: int, stop: int) -> Option<Seq<u8>>
    decreases stop - i,
{
    if i >= stop {
        Some(Seq::empty())
    } else {
        match webp_chunk_end(data, i, stop) {
            Some(end) if i < end => match webp_kept(data, end, stop) {
                Some(rest) => if webp_metadata_kind(data.subrange(i, i + 4)) {
                    Some(rest)
                } else {
                    Some(data.subrange(i, end) + rest)
                },
                None => None,
            },
            _ => None,
        }
    }
}

/// Where the flag byte of the last extended header (`VP8X`) stands once the
/// chunks from `i` on have been copied to `at`, if there is such a header.
pub open spec fn webp_flags(data: Seq<u8>, i: int, stop: int, at: int) -> Option<int>
    decreases stop - i,
{
    if i >= stop {
        None
    } else {
        match webp_chunk_end(data, i, stop) {
            Some(end) if i < end => {
                let kind = data.subrange(i, i + 4);
                if webp_metadata_kind(kind) {
                    webp_flags(data, end, stop, at)
                } else {
                    match webp_flags(data, end, stop, at + (end - i)) {
                        Some(later) => Some(later),
                        None => if kind == vp8x_tag() {
                            Some(at + 8)
                        } else {
                            None
                        },
                    }
                }
            },
            _ => None,
        }
    }
}

/// Do the chunks from `i` up to `stop` walk, none of them metadata?
pub open spec fn webp_clean(data: Seq<u8>, i: int, stop: int) -> bool
    decreases stop - i,
{
    if i >= stop {
        true
    } else {
        match webp_chunk_end(data, i, stop) {
            Some(end) => i < end && !webp_metadata_kind(data.subrange(i, i + 4)) && webp_clean(
                data,
                end,
                stop,
            ),
            None => false,
        }
    }
}

/// The bytes with the two bits cleared that announce EXIF and XMP.
pub open spec fn flags_cleared(body: Seq<u8>, at: Option<int>) -> Seq<u8> {
    match at {
        Some(at) if 0 <= at < body.len() => body.update(at, body[at] & 0xF3),
        _ => body,
    }
}

pub open spec fn le32_bytes(n: int) -> Seq<u8> {
    seq![
        (n % 0x100) as u8,
        (n / 0x100 % 0x100) as u8,
        (n / 0x10000 % 0x100) as u8,
        (n / 0x1000000 % 0x100) as u8,
    ]
}

/// A WebP without its EXIF and XMP chunks: the container's length corrected,
/// and the flags that announced them cleared.
pub open spec fn webp_stripped(data: Seq<u8>) -> Option<Seq<u8>> {
    if !reads_at(data, 0, riff_tag()) || !reads_at(data, 8, webp_tag()) {
        None
    } else {
        let declared = le32(data, 4);
        if declared < 4 || 8 + declared > data.len() {
            None
        } else {
            match webp_kept(data, 12, 8 + declared) {
                Some(rest) => {
                    let body = flags_cleared(
                        webp_tag() + rest,
                        webp_flags(data, 12, 8 + declared, 4),
                    );
                    Some(riff_tag() + le32_bytes(body.len() as int) + body)
                },
                None => None,
            }
        }
    }
}

pub fn strip_webp(data: &[u8]) -> (r: Option<Vec<u8>>)
    ensures
        r is Some == webp_stripped(data@) is Some,
        r is Some ==> r->0@ == webp_stripped(data@)->0,
{
    let riff: [u8; 4] = [0x52, 0x49, 0x46, 0x46];
    let webp: [u8; 4] = [0x57, 0x45, 0x42, 0x50];
    let exif: [u8; 4] = [0x45, 0x58, 0x49, 0x46];
    let xmp: [u8; 4] = [0x58, 0x4D, 0x50, 0x20];
    let vp8x: [u8; 4] = [0x56, 0x50, 0x38, 0x58];
    assert(riff@ == riff_tag());
    assert(webp@ == webp_tag());
    assert(exif@ == exif_tag());
    assert(xmp@ == xmp_tag());
    assert(vp8x@ == vp8x_tag());
    if !reads(data, 0, &riff) || !reads(data, 8, &webp) {
        return None;
    }
    let declared: u32 = read_le32(data, 4);
    // The declared length covers "WEBP" and everything after it. A file that
    // does not say at least that much, or claims more than it brought, is not
    // one this walk can trust.
    if declared < 4 || declared as usize > data.len() - 8 {
        return None;
    }
    let stop: usize = 8 + declared as usize;
    let mut body: Vec<u8> = Vec::new();
    body.extend_from_slice(&webp);
    assert(body@ == webp_tag());
    let mut flags_at: Option<usize> = None;
    let mut i: usize = 12;
    let ghost wanted = webp_kept(data@, 12, stop as int);
    let ghost flags = webp_flags(data@, 12, stop as int, 4);
    while i < stop
        invariant
            12 <= i <= stop <= data@.len(),
            stop <= u32::MAX + 8,
            4 <= body@.len() <= i - 8,
            riff@ == riff_tag(),
            exif@ == exif_tag(),
            xmp@ == xmp_tag(),
            vp8x@ == vp8x_tag(),
            wanted is Some == webp_kept(data@, i as int, stop as int) is Some,
            wanted is Some ==> webp_tag() + wanted->0 == body@ + webp_kept(
                data@,
                i as int,
                stop as int,
            )->0,
            flags_at is Some ==> flags_at->0 <= body@.len(),
            wanted is Some ==> flags == match webp_flags(
                data@,
                i as int,
                stop as int,
                body@.len() as int,
            ) {
                Some(later) => Some(later),
                None => match flags_at {
                    Some(at) => Some(at as int),
                    None => None,
                },
            },
            wanted is None ==> webp_stripped(data@) is None,
        decreases stop - i,
    {
        if stop - i < 8 {
            return None;
        }
        let len: u32 = read_le32(data, i + 4);
        // Every chunk is padded to an even length.
        let room: usize = stop - i - 8;
        if len as usize > room || (len % 2 == 1 && len as usize == room) {
            return None;
        }
        let end: usize = i + 8 + len as usize + (len % 2) as usize;
        assert(webp_chunk_end(data@, i as int, stop as int) == Some(end as int));
        if !reads(data, i, &exif) && !reads(data, i, &xmp) {
            if reads(data, i, &vp8x) {
                flags_at = Some(body.len() + 8);
            }
            let ghost before = body@;
            body.extend_from_slice(&data[i..end]);
            proof {
                assert(body@ == before + data@.subrange(i as int, end as int));
                if let Some(rest) = webp_kept(data@, end as int, stop as int) {
                    assert(before + (data@.subrange(i as int, end as int) + rest) == body@ + rest);
                }
            }
        }
        i = end;
    }
    assert(body@ + Seq::<u8>::empty() == body@);
    // The extended header announces in its first byte which optional chunks
    // are present. Removing the chunks and leaving the bits set points a
    // decoder at something that is no longer there: bit 3 is EXIF, bit 2 XMP.
    let ghost plain = body@;
    if let Some(at) = flags_at {
        if at < body.len() {
            let cleared: u8 = body[at] & 0xF3;
            body.set(at, cleared);
        }
    }
    assert(body@ == flags_cleared(plain, flags));
    let size: u32 = body.len() as u32;
    let mut out: Vec<u8> = Vec::new();
    out.extend_from_slice(&riff);
    out.push((size % 0x100) as u8);
    out.push((size / 0x100 % 0x100) as u8);
    out.push((size / 0x10000 % 0x100) as u8);
    out.push((size / 0x1000000 % 0x100) as u8);
    assert(out@ == riff_tag() + le32_bytes(size as int));
    let ghost head = out@;
    out.append(&mut body);
    Some(out)
}

/// What a picture looks like without what it knows besides the picture: where
/// it was taken, when, with which camera. Bytes that cannot be walked stay
/// exactly as they are, and so does a GIF.
pub open spec fn stripped(data: Seq<u8>, kind: MediaType) -> Seq<u8> {
    let walked = match kind {
        MediaType::Jpeg => jpeg_stripped(data),
        MediaType::Png => png_stripped(data),
        MediaType::Webp => webp_stripped(data),
        MediaType::Gif => None,
    };
    match walked {
        Some(out) => out,
        None => data,
    }
}

/// Removes what a picture knows besides the picture.
///
/// This **removes segments, it does not re-encode**. Decoding an upload to
/// encode it again would strip everything by construction, and would also mean
/// running a decoder over bytes a stranger chose, lose quality on every JPEG,
/// and flatten animations. A walk along the segment lengths interprets nothing.
///
/// It never rejects and never guesses: bytes it cannot walk come back exactly
/// as they arrived. Refusing is the allow list's job, and `detect` has already
/// run by the time anything gets here. GIF carries no EXIF, and walking its
/// sub-block chains for comments would put animations at risk.
pub fn strip_metadata(data: &[u8], kind: MediaType) -> (r: Vec<u8>)
    ensures
        r@ == stripped(data@, kind),
{
    let walked: Option<Vec<u8>> = match kind {
        MediaType::Jpeg => strip_jpeg(data),
        MediaType::Png => strip_png(data),
        MediaType::Webp => strip_webp(data),
        MediaType::Gif => None,
    };
    match walked {
        Some(out) => out,
        None => {
            let mut out: Vec<u8> = Vec::new();
            out.extend_from_slice(data);
            assert(out@ == data@);
            out
        },
    }
}

/// Walking what was kept keeps all of it, wherever it stands, and meets no
/// metadata on the way.
proof fn jpeg_kept_again(data: Seq<u8>, i: int, front: Seq<u8>)
    requires
        jpeg_kept(data, i) is Some,
    ensures
        ({
            let kept = jpeg_kept(data, i)->0;
            &&& kept.len() >= 2
            &&& kept[0] == 0xFF
            &&& jpeg_kept(front + kept, front.len() as int) == Some(kept)
            &&& jpeg_clean(front + kept, front.len() as int)
        }),
    decreases data.len() - i,
{
    let kept = jpeg_kept(data, i)->0;
    let all = front + kept;
    let at = front.len() as int;
    match jpeg_step(data, i) {
        JpegStep::Broken => {},
        JpegStep::Picture => {
            assert(all.skip(at) == kept);
            assert(all[at] == kept[0] && all[at + 1] == kept[1]);
        },
        JpegStep::Fill => {
            let piece = data.subrange(i, i + 1);
            let rest = jpeg_kept(data, i + 1)->0;
            jpeg_kept_again(data, i + 1, front + piece);
            assert(front + piece + rest == all);
            assert(all[at] == 0xFF && all[at + 1] == rest[0]);
            assert(all.subrange(at, at + 1) == piece);
        },
        JpegStep::Lone => {
            let piece = data.subrange(i, i + 2);
            let rest = jpeg_kept(data, i + 2)->0;
            jpeg_kept_again(data, i + 2, front + piece);
            assert(front + piece + rest == all);
            assert(all[at] == piece[0] && all[at + 1] == piece[1]);
            assert(all.subrange(at, at + 2) == piece);
        },
        JpegStep::Segment { marker, end } => {
            let rest = jpeg_kept(data, end)->0;
            if jpeg_metadata_marker(marker) {
                jpeg_kept_again(data, end, front);
            } else {
                let piece = data.subrange(i, end);
                jpeg_kept_again(data, end, front + piece);
                assert(front + piece + rest == all);
                assert(all[at] == piece[0] && all[at + 1] == piece[1]);
                assert(all[at + 2] == piece[2] && all[at + 3] == piece[3]);
                assert(all.subrange(at, at + (end - i)) == piece);
            }
        },
    }
}

proof fn png_kept_again(data: Seq<u8>, i: int, front: Seq<u8>)
    requires
        png_kept(data, i) is Some,
    ensures
        ({
            let kept = png_kept(data, i)->0;
            &&& png_kept(front + kept, front.len() as int) == Some(kept)
            &&& png_clean(front + kept, front.len() as int)
        }),
    decreases data.len() - i,
{
    let kept = png_kept(data, i)->0;
    let all = front + kept;
    let at = front.len() as int;
    if i < data.len() {
        let end = png_chunk_end(data, i)->0;
        let rest = png_kept(data, end)->0;
        if png_metadata_kind(data.subrange(i + 4, i + 8)) {
            png_kept_again(data, end, front);
        } else {
            let piece = data.subrange(i, end);
            png_kept_again(data, end, front + piece);
            assert(front + piece + rest == all);
            assert(forall|k: int| 0 <= k < piece.len() ==> all[at + k] == #[trigger] piece[k]);
            assert(be32(all, at) == be32(data, i)) by {
                assert(all[at] == piece[0] && all[at + 1] == piece[1]);
                assert(all[at + 2] == piece[2] && all[at + 3] == piece[3]);
            }
            assert(all.subrange(at + 4, at + 8) == data.subrange(i + 4, i + 8)) by {
                assert(all[at + 4] == piece[4] && all[at + 5] == piece[5]);
                assert(all[at + 6] == piece[6] && all[at + 7] == piece[7]);
            }
            assert(all.subrange(at, at + (end - i)) == piece);
        }
    }
}

proof fn webp_kept_again(data: Seq<u8>, i: int, stop: int, front: Seq<u8>, to: int)
    requires
        webp_kept(data, i, stop) is Some,
    ensures
        ({
            let kept = webp_kept(data, i, stop)->0;
            let all = front + kept;
            let at = front.len() as int;
            &&& webp_kept(all, at, all.len() as int) == Some(kept)
            &&& webp_clean(all, at, all.len() as int)
            &&& webp_flags(all, at, all.len() as int, to) == webp_flags(data, i, stop, to)
        }),
    decreases stop - i,
{
    let kept = webp_kept(data, i, stop)->0;
    let all = front + kept;
    let at = front.len() as int;
    if i < stop {
        let end = webp_chunk_end(data, i, stop)->0;
        let rest = webp_kept(data, end, stop)->0;
        if webp_metadata_kind(data.subrange(i, i + 4)) {
            webp_kept_again(data, end, stop, front, to);
        } else {
            let piece = data.subrange(i, end);
            webp_kept_again(data, end, stop, front + piece, to + (end - i));
            assert(front + piece + rest == all);
            assert(forall|k: int| 0 <= k < piece.len() ==> all[at + k] == #[trigger] piece[k]);
            assert(le32(all, at + 4) == le32(data, i + 4)) by {
                assert(all[at + 4] == piece[4] && all[at + 5] == piece[5]);
                assert(all[at + 6] == piece[6] && all[at + 7] == piece[7]);
            }
            assert(all.subrange(at, at + 4) == data.subrange(i, i + 4)) by {
                assert(all[at] == piece[0] && all[at + 1] == piece[1]);
                assert(all[at + 2] == piece[2] && all[at + 3] == piece[3]);
            }
            assert(all.subrange(at, at + (end - i)) == piece);
        }
    }
}

/// Only the bytes from `i` up to `stop` matter to the walk.
proof fn webp_walk_frame(a: Seq<u8>, b: Seq<u8>, i: int, stop: int, to: int)
    requires
        0 <= i,
        a.len() == b.len(),
        forall|k: int| i <= k < stop ==> a[k] == b[k],
    ensures
        webp_clean(a, i, stop) == webp_clean(b, i, stop),
        webp_flags(a, i, stop, to) == webp_flags(b, i, stop, to),
    decreases stop - i,
{
    if i < stop && i + 8 <= stop && stop <= a.len() {
        assert(a.subrange(i, i + 4) == b.subrange(i, i + 4));
        assert(le32(a, i + 4) == le32(b, i + 4));
        if let Some(end) = webp_chunk_end(a, i, stop) {
            webp_walk_frame(a, b, end, stop, to);
            webp_walk_frame(a, b, end, stop, to + (end - i));
        }
    }
}

proof fn webp_flags_bound(data: Seq<u8>, i: int, stop: int, to: int)
    ensures
        webp_flags(data, i, stop, to) is Some ==> webp_flags(data, i, stop, to)->0 >= to + 8,
    decreases stop - i,
{
    if i < stop {
        if let Some(end) = webp_chunk_end(data, i, stop) {
            if i < end {
                webp_flags_bound(data, end, stop, to);
                webp_flags_bound(data, end, stop, to + (end - i));
            }
        }
    }
}

/// A byte with bits 2 and 3 cleared begins none of the three kinds of chunk
/// that the walk looks for.
proof fn cleared_byte(b: u8)
    ensures
        (b & 0xF3) & 0xF3 == b & 0xF3,
        (b & 0xF3) & 0x0C == 0,
        b & 0xF3 != 0x45,
        b & 0xF3 != 0x58,
        b & 0xF3 != 0x56,
{
    assert((b & 0xF3) & 0xF3 == b & 0xF3) by (bit_vector);
    assert((b & 0xF3) & 0x0C == 0) by (bit_vector);
    assert(b & 0xF3 != 0x45) by (bit_vector);
    assert(b & 0xF3 != 0x58) by (bit_vector);
    assert(b & 0xF3 != 0x56) by (bit_vector);
}

/// Clearing the flags leaves a clean walk clean, and the flags where they are.
proof fn webp_clean_after_clearing(data: Seq<u8>, i: int, stop: int, to: int)
    requires
        0 <= i <= stop <= data.len(),
        webp_clean(data, i, stop),
        webp_flags(data, i, stop, to) is Some,
        webp_flags(data, i, stop, to)->0 - to + i < stop,
    ensures
        ({
            let at = webp_flags(data, i, stop, to)->0 - to + i;
            let after = data.update(at, data[at] & 0xF3);
            &&& webp_clean(after, i, stop)
            &&& webp_flags(after, i, stop, to) == webp_flags(data, i, stop, to)
        }),
    decreases stop - i,
{
    let flags = webp_flags(data, i, stop, to)->0;
    let at = flags - to + i;
    let after = data.update(at, data[at] & 0xF3);
    webp_flags_bound(data, i, stop, to);
    let end = webp_chunk_end(data, i, stop)->0;
    let next = to + (end - i);
    assert(after.subrange(i, i + 4) == data.subrange(i, i + 4));
    assert(le32(after, i + 4) == le32(data, i + 4));
    if webp_flags(data, end, stop, next) is Some {
        webp_clean_after_clearing(data, end, stop, next);
    } else {
        assert(at == i + 8);
        if at < end {
            webp_walk_frame(data, after, end, stop, next);
        } else {
            // An empty header: the byte begins the chunk behind it.
            assert(at == end);
            cleared_byte(data[at]);
            assert(webp_clean(data, end, stop));
            assert(webp_chunk_end(data, end, stop) is Some);
            let further = webp_chunk_end(data, end, stop)->0;
            assert(le32(after, end + 4) == le32(data, end + 4));
            assert(after.subrange(end, end + 4)[0] == data[at] & 0xF3);
            assert(exif_tag()[0] == 0x45 && xmp_tag()[0] == 0x58 && vp8x_tag()[0] == 0x56);
            webp_walk_frame(data, after, further, stop, next + (further - end));
            assert(webp_clean(after, end, stop));
            assert(webp_flags(after, end, stop, next) is None);
        }
    }
}

proof fn webp_clean_keeps_all(data: Seq<u8>, i: int, stop: int)
    requires
        0 <= i <= stop <= data.len(),
        webp_clean(data, i, stop),
    ensures
        webp_kept(data, i, stop) == Some(data.subrange(i, stop)),
    decreases stop - i,
{
    if i < stop {
        let end = webp_chunk_end(data, i, stop)->0;
        webp_clean_keeps_all(data, end, stop);
        assert(data.subrange(i, end) + data.subrange(end, stop) == data.subrange(i, stop));
    } else {
        assert(data.subrange(i, stop) == Seq::<u8>::empty());
    }
}

proof fn webp_kept_length(data: Seq<u8>, i: int, stop: int)
    requires
        webp_kept(data, i, stop) is Some,
    ensures
        i <= stop ==> webp_kept(data, i, stop)->0.len() <= stop - i,
    decreases stop - i,
{
    if i < stop {
        let end = webp_chunk_end(data, i, stop)->0;
        webp_kept_length(data, end, stop);
    }
}

/// What a walked picture consists of: the walk over what comes out meets no
/// metadata.
pub open spec fn free_of_metadata(data: Seq<u8>, kind: MediaType) -> bool {
    match kind {
        MediaType::Jpeg => jpeg_clean(data, 2),
        MediaType::Png => png_clean(data, 8),
        MediaType::Webp => {
            &&& le32(data, 4) == data.len() - 8
            &&& webp_clean(data, 12, data.len() as int)
            &&& match webp_flags(data, 12, data.len() as int, 12) {
                Some(at) => at < data.len() ==> data[at] & 0x0C == 0,
                None => true,
            }
        },
        MediaType::Gif => true,
    }
}

/// Can the bytes be walked as a picture of this kind?
pub open spec fn walkable(data: Seq<u8>, kind: MediaType) -> bool {
    match kind {
        MediaType::Jpeg => jpeg_stripped(data) is Some,
        MediaType::Png => png_stripped(data) is Some,
        MediaType::Webp => webp_stripped(data) is Some,
        MediaType::Gif => false,
    }
}

proof fn webp_flags_shift(data: Seq<u8>, i: int, stop: int, a: int, b: int)
    ensures
        webp_flags(data, i, stop, a) is Some == webp_flags(data, i, stop, b) is Some,
        webp_flags(data, i, stop, a) is Some ==> webp_flags(data, i, stop, a)->0 - a
            == webp_flags(data, i, stop, b)->0 - b,
    decreases stop - i,
{
    if i < stop {
        if let Some(end) = webp_chunk_end(data, i, stop) {
            if i < end {
                webp_flags_shift(data, end, stop, a, b);
                webp_flags_shift(data, end, stop, a + (end - i), b + (end - i));
            }
        }
    }
}

proof fn le32_of_bytes(front: Seq<u8>, n: int, back: Seq<u8>)
    requires
        0 <= n <= u32::MAX,
    ensures
        le32(front + le32_bytes(n) + back, front.len() as int) == n,
{
    let all = front + le32_bytes(n) + back;
    let at = front.len() as int;
    assert(all[at] == le32_bytes(n)[0] && all[at + 1] == le32_bytes(n)[1]);
    assert(all[at + 2] == le32_bytes(n)[2] && all[at + 3] == le32_bytes(n)[3]);
}

#[verifier::rlimit(40)]
proof fn webp_law(data: Seq<u8>)
    requires
        webp_stripped(data) is Some,
    ensures
        ({
            let out = webp_stripped(data)->0;
            &&& detected(out) == Some(MediaType::Webp)
            &&& free_of_metadata(out, MediaType::Webp)
            &&& webp_stripped(out) == Some(out)
        }),
{
    let out = webp_stripped(data)->0;
    let stop = 8 + le32(data, 4);
    let rest = webp_kept(data, 12, stop)->0;
    let flags = webp_flags(data, 12, stop, 4);
    let plain = webp_tag() + rest;
    let body = flags_cleared(plain, flags);
    let size = body.len() as int;
    webp_kept_length(data, 12, stop);
    let front = riff_tag() + le32_bytes(size) + webp_tag();
    let all = front + rest;
    assert(all == riff_tag() + le32_bytes(size) + plain);
    webp_kept_again(data, 12, stop, front, 4);
    webp_flags_bound(data, 12, stop, 4);
    le32_of_bytes(riff_tag(), size, body);
    let whole = out.len() as int;
    assert(whole == size + 8 && all.len() == whole);
    match flags {
        Some(at) if at < plain.len() => {
            assert(out == all.update(at + 8, all[at + 8] & 0xF3));
            webp_clean_after_clearing(all, 12, whole, 4);
            cleared_byte(all[at + 8]);
        },
        _ => {
            assert(out == all);
        },
    }
    webp_flags_shift(out, 12, whole, 4, 12);
    webp_clean_keeps_all(out, 12, whole);
    assert(out.subrange(0, 4) == riff_tag());
    assert(out.subrange(8, 12) == webp_tag());
    assert(out[0] == 0x52);
    assert(reads_at(out, 0, riff_tag()) && reads_at(out, 8, webp_tag()));
    assert(!reads_at(out, 0, seq![0xFFu8, 0xD8, 0xFF])) by {
        if reads_at(out, 0, seq![0xFFu8, 0xD8, 0xFF]) {
            assert(out.subrange(0, 3)[0] == 0xFF);
        }
    }
    assert(!reads_at(out, 0, png_signature())) by {
        if reads_at(out, 0, png_signature()) {
            assert(out.subrange(0, 8)[0] == 0x89);
        }
    }
    assert(!reads_at(out, 0, seq![0x47u8, 0x49, 0x46, 0x38, 0x37, 0x61])) by {
        if reads_at(out, 0, seq![0x47u8, 0x49, 0x46, 0x38, 0x37, 0x61]) {
            assert(out.subrange(0, 6)[0] == 0x47);
        }
    }
    assert(!reads_at(out, 0, seq![0x47u8, 0x49, 0x46, 0x38, 0x39, 0x61])) by {
        if reads_at(out, 0, seq![0x47u8, 0x49, 0x46, 0x38, 0x39, 0x61]) {
            assert(out.subrange(0, 6)[0] == 0x47);
        }
    }
    let again = webp_tag() + out.subrange(12, whole);
    assert(again == out.skip(8));
    assert(again == body);
    assert(flags_cleared(again, flags) == body);
}

proof fn jpeg_law(data: Seq<u8>)
    requires
        jpeg_stripped(data) is Some,
    ensures
        ({
            let out = jpeg_stripped(data)->0;
            &&& detected(out) == Some(MediaType::Jpeg)
            &&& free_of_metadata(out, MediaType::Jpeg)
            &&& jpeg_stripped(out) == Some(out)
        }),
{
    let out = jpeg_stripped(data)->0;
    let front = data.take(2);
    assert(front == data.subrange(0, 2));
    let rest = jpeg_kept(data, 2)->0;
    jpeg_kept_again(data, 2, front);
    assert(out == front + rest);
    assert(out.subrange(0, 2) == seq![0xFFu8, 0xD8]);
    assert(out.take(2) == front);
    assert(out.subrange(0, 3) == seq![0xFFu8, 0xD8, 0xFF]);
}

proof fn png_law(data: Seq<u8>)
    requires
        png_stripped(data) is Some,
    ensures
        ({
            let out = png_stripped(data)->0;
            &&& detected(out) == Some(MediaType::Png)
            &&& free_of_metadata(out, MediaType::Png)
            &&& png_stripped(out) == Some(out)
        }),
{
    let out = png_stripped(data)->0;
    let rest = png_kept(data, 8)->0;
    png_kept_again(data, 8, png_signature());
    assert(out.subrange(0, 8) == png_signature());
    assert(!reads_at(out, 0, seq![0xFFu8, 0xD8, 0xFF])) by {
        if reads_at(out, 0, seq![0xFFu8, 0xD8, 0xFF]) {
            assert(out.subrange(0, 3)[0] == 0xFF);
            assert(out.subrange(0, 8)[0] == 0x89);
        }
    }
}

/// Bytes that cannot be walked come back exactly as they arrived.
pub proof fn unwalkable_is_untouched(data: Seq<u8>, kind: MediaType)
    requires
        !walkable(data, kind),
    ensures
        stripped(data, kind) == data,
{
}

/// What comes out is still a picture of the kind that went in.
pub proof fn stripping_keeps_the_kind(data: Seq<u8>, kind: MediaType)
    requires
        detected(data) == Some(kind),
    ensures
        detected(stripped(data, kind)) == Some(kind),
{
    if walkable(data, kind) {
        match kind {
            MediaType::Jpeg => jpeg_law(data),
            MediaType::Png => png_law(data),
            MediaType::Webp => webp_law(data),
            MediaType::Gif => {},
        }
    }
}

/// No metadata segment survives in a picture that can be walked. In a WebP the
/// container's length is right again and nothing announces what is gone.
pub proof fn no_metadata_survives(data: Seq<u8>, kind: MediaType)
    requires
        walkable(data, kind),
    ensures
        free_of_metadata(stripped(data, kind), kind),
{
    match kind {
        MediaType::Jpeg => jpeg_law(data),
        MediaType::Png => png_law(data),
        MediaType::Webp => webp_law(data),
        MediaType::Gif => {},
    }
}

/// Stripping twice is stripping once.
pub proof fn stripping_is_idempotent(data: Seq<u8>, kind: MediaType)
    ensures
        stripped(stripped(data, kind), kind) == stripped(data, kind),
{
    if walkable(data, kind) {
        match kind {
            MediaType::Jpeg => jpeg_law(data),
            MediaType::Png => png_law(data),
            MediaType::Webp => webp_law(data),
            MediaType::Gif => {},
        }
    }
}

} // verus!
