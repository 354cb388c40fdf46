//! A picture goes in and the same picture comes out, without what it knows
//! about whoever took it.
use crate::media::{
    be32, detected, jpeg_kept, jpeg_step, jpeg_stripped, le32, le32_bytes, png_chunk_end, png_kept,
    png_stripped, stripped, webp_chunk_end, webp_flags, webp_kept, webp_stripped, JpegStep,
    MediaType,
};
use vstd::prelude::*;

verus! {

/// What stands in a JPEG in front of the picture itself.
pub enum JpegPart {
    /// A byte of padding.
    Fill,
    /// A marker that stands alone.
    Lone(u8),
    /// A marker with something behind it.
    Segment(u8, Seq<u8>),
}

/// A marker without anything behind it: `TEM`, `RST0` to `RST7`, `SOI`.
pub open spec fn stands_alone(marker: u8) -> bool {
    marker == 0x01 || 0xD0 <= marker <= 0xD8
}

pub open spec fn jpeg_part_fits(part: JpegPart) -> bool {
    match part {
        JpegPart::Fill => true,
        JpegPart::Lone(marker) => stands_alone(marker),
        JpegPart::Segment(marker, payload) => !stands_alone(marker) && marker != 0xFF && marker
            != 0xDA && marker != 0xD9 && payload.len() <= 0xFFFD,
    }
}

/// The bytes of a part. The length counts its own two bytes.
pub open spec fn jpeg_part_bytes(part: JpegPart) -> Seq<u8> {
    match part {
        JpegPart::Fill => seq![0xFFu8],
        JpegPart::Lone(marker) => seq![0xFFu8, marker],
        JpegPart::Segment(marker, payload) => seq![
            0xFFu8,
            marker,
            ((payload.len() + 2) / 256) as u8,
            ((payload.len() + 2) % 256) as u8,
        ] + payload,
    }
}

pub open spec fn jpeg_parts_bytes(parts: Seq<JpegPart>) -> Seq<u8>
    decreases parts.len(),
{
    if parts.len() == 0 {
        Seq::empty()
    } else {
        jpeg_part_bytes(parts[0]) + jpeg_parts_bytes(parts.skip(1))
    }
}

/// Is it a scan, or the end of the image?
pub open spec fn jpeg_picture_fits(picture: Seq<u8>) -> bool {
    picture.len() >= 2 && picture[0] == 0xFF && (picture[1] == 0xDA || picture[1] == 0xD9)
}

/// A JPEG, put together.
pub open spec fn jpeg_of(parts: Seq<JpegPart>, picture: Seq<u8>) -> Seq<u8> {
    seq![0xFFu8, 0xD8u8] + jpeg_parts_bytes(parts) + picture
}

pub open spec fn jpeg_fits(parts: Seq<JpegPart>, picture: Seq<u8>) -> bool {
    jpeg_picture_fits(picture) && forall|i: int|
        0 <= i < parts.len() ==> jpeg_part_fits(#[trigger] parts[i])
}

/// Is the part about whoever took the picture? `APP1`, `APP3` to `APP13`,
/// `APP15` and `COM` are; the tables, the frame and the three profiles that
/// decide on colours are the picture.
pub open spec fn jpeg_part_tells(part: JpegPart) -> bool {
    match part {
        JpegPart::Segment(marker, _) => marker == 0xE1 || marker == 0xE3 || marker == 0xE4 || marker
            == 0xE5 || marker == 0xE6 || marker == 0xE7 || marker == 0xE8 || marker == 0xE9
            || marker == 0xEA || marker == 0xEB || marker == 0xEC || marker == 0xED || marker
            == 0xEF || marker == 0xFE,
        _ => false,
    }
}

/// The parts that are not about anybody, in order.
pub open spec fn jpeg_parts_left(parts: Seq<JpegPart>) -> Seq<JpegPart>
    decreases parts.len(),
{
    if parts.len() == 0 {
        Seq::empty()
    } else if jpeg_part_tells(parts[0]) {
        jpeg_parts_left(parts.skip(1))
    } else {
        seq![parts[0]] + jpeg_parts_left(parts.skip(1))
    }
}

proof fn jpeg_goes_on_with_a_marker(parts: Seq<JpegPart>, picture: Seq<u8>)
    requires
        jpeg_fits(parts, picture),
    ensures
        (jpeg_parts_bytes(parts) + picture).len() > 0,
        (jpeg_parts_bytes(parts) + picture)[0] == 0xFF,
{
    if parts.len() > 0 {
        assert(jpeg_parts_bytes(parts)[0] == jpeg_part_bytes(parts[0])[0]);
    }
}

proof fn jpeg_walk(front: Seq<u8>, parts: Seq<JpegPart>, picture: Seq<u8>)
    requires
        jpeg_fits(parts, picture),
    ensures
        jpeg_kept(front + jpeg_parts_bytes(parts) + picture, front.len() as int) == Some(
            jpeg_parts_bytes(jpeg_parts_left(parts)) + picture,
        ),
    decreases parts.len(),
{
    let data = front + jpeg_parts_bytes(parts) + picture;
    let i = front.len() as int;
    if parts.len() == 0 {
        assert(data.skip(i) == picture);
        assert(data[i] == picture[0] && data[i + 1] == picture[1]);
        assert(Seq::<u8>::empty() + picture == picture);
    } else {
        let part = parts[0];
        let piece = jpeg_part_bytes(part);
        let rest = parts.skip(1);
        let left = jpeg_parts_left(rest);
        assert(jpeg_part_fits(part));
        assert forall|k: int| 0 <= k < rest.len() implies jpeg_part_fits(#[trigger] rest[k]) by {
            assert(rest[k] == parts[k + 1]);
        }
        jpeg_walk(front + piece, rest, picture);
        assert((front + piece) + jpeg_parts_bytes(rest) + picture == data);
        jpeg_goes_on_with_a_marker(rest, picture);
        assert forall|k: int| 0 <= k < piece.len() implies data[i + k] == #[trigger] piece[k] by {}
        assert(data[i] == piece[0]);
        assert(data[i + piece.len()] == (jpeg_parts_bytes(rest) + picture)[0]);
        assert(data.subrange(i, i + piece.len()) == piece);
        if !jpeg_part_tells(part) {
            let all = seq![part] + left;
            assert(all.skip(1) == left);
            assert(all[0] == part);
            assert(jpeg_parts_bytes(all) == piece + jpeg_parts_bytes(left));
            assert(piece + jpeg_parts_bytes(left) + picture == piece + (jpeg_parts_bytes(left)
                + picture));
        }
        match part {
            JpegPart::Fill => {
                assert(jpeg_step(data, i) == JpegStep::Fill);
            },
            JpegPart::Lone(marker) => {
                assert(data[i + 1] == piece[1]);
                assert(jpeg_step(data, i) == JpegStep::Lone);
            },
            JpegPart::Segment(marker, payload) => {
                assert(data[i + 1] == piece[1]);
                assert(data[i + 2] == piece[2] && data[i + 3] == piece[3]);
                let len = (payload.len() + 2) as int;
                assert(piece[2] as int == len / 256 && piece[3] as int == len % 256);
                assert(data[i + 2] * 256 + data[i + 3] == len);
                assert(piece.len() == len + 2);
                assert(jpeg_step(data, i) == JpegStep::Segment { marker, end: i + 2 + len });
            },
        }
    }
}

/// A JPEG LOSES WHAT IT KNOWS ABOUT WHOEVER TOOK IT, AND NOTHING ELSE: what
/// comes out is the JPEG put together of the same parts, in the same order, but
/// for those that are about somebody, and of the same picture.
pub proof fn a_jpeg_keeps_its_picture(parts: Seq<JpegPart>, picture: Seq<u8>)
    requires
        jpeg_fits(parts, picture),
    ensures
        stripped(jpeg_of(parts, picture), MediaType::Jpeg) == jpeg_of(
            jpeg_parts_left(parts),
            picture,
        ),
{
    let data = jpeg_of(parts, picture);
    let head = seq![0xFFu8, 0xD8u8];
    jpeg_walk(head, parts, picture);
    assert(data.subrange(0, 2) == head);
    assert(data.take(2) == head);
    assert(head + (jpeg_parts_bytes(jpeg_parts_left(parts)) + picture) == jpeg_of(
        jpeg_parts_left(parts),
        picture,
    ));
}

proof fn nothing_told_nothing_left_out(parts: Seq<JpegPart>)
    requires
        forall|i: int| 0 <= i < parts.len() ==> !jpeg_part_tells(#[trigger] parts[i]),
    ensures
        jpeg_parts_left(parts) == parts,
    decreases parts.len(),
{
    if parts.len() > 0 {
        let rest = parts.skip(1);
        assert(!jpeg_part_tells(parts[0]));
        assert forall|i: int| 0 <= i < rest.len() implies !jpeg_part_tells(#[trigger] rest[i]) by {
            assert(rest[i] == parts[i + 1]);
        }
        nothing_told_nothing_left_out(rest);
        assert(seq![parts[0]] + rest == parts);
    }
}

/// A JPEG that tells nothing about anybody comes back byte for byte.
pub proof fn a_jpeg_that_tells_nothing_is_unchanged(parts: Seq<JpegPart>, picture: Seq<u8>)
    requires
        jpeg_fits(parts, picture),
        forall|i: int| 0 <= i < parts.len() ==> !jpeg_part_tells(#[trigger] parts[i]),
    ensures
        stripped(jpeg_of(parts, picture), MediaType::Jpeg) == jpeg_of(parts, picture),
{
    a_jpeg_keeps_its_picture(parts, picture);
    nothing_told_nothing_left_out(parts);
}

proof fn jpeg_taken_apart(data: Seq<u8>, i: int) -> (r: (Seq<JpegPart>, Seq<u8>))
    requires
        0 <= i,
        jpeg_kept(data, i) is Some,
    ensures
        jpeg_fits(r.0, r.1),
        data.skip(i) == jpeg_parts_bytes(r.0) + r.1,
    decreases data.len() - i,
{
    let next = match jpeg_step(data, i) {
        JpegStep::Fill => i + 1,
        JpegStep::Lone => i + 2,
        JpegStep::Segment { end, .. } => end,
        _ => data.len() as int,
    };
    if jpeg_step(data, i) == JpegStep::Picture {
        let picture = data.skip(i);
        assert(picture[0] == data[i] && picture[1] == data[i + 1]);
        assert(Seq::<u8>::empty() + picture == picture);
        (Seq::empty(), picture)
    } else {
        let (rest, picture) = jpeg_taken_apart(data, next);
        let part = match jpeg_step(data, i) {
            JpegStep::Fill => JpegPart::Fill,
            JpegStep::Lone => JpegPart::Lone(data[i + 1]),
            _ => JpegPart::Segment(data[i + 1], data.subrange(i + 4, next)),
        };
        let parts = seq![part] + rest;
        assert(parts.skip(1) == rest);
        assert(parts[0] == part);
        assert forall|k: int| 0 <= k < parts.len() implies jpeg_part_fits(#[trigger] parts[k]) by {
            if k > 0 {
                assert(parts[k] == rest[k - 1]);
            }
        }
        assert(jpeg_part_bytes(part) == data.subrange(i, next)) by {
            if let JpegPart::Segment(marker, payload) = part {
                let len = data[i + 2] * 256 + data[i + 3];
                assert(payload.len() + 2 == len);
                assert(len / 256 == data[i + 2] && len % 256 == data[i + 3]);
            }
            assert(jpeg_part_bytes(part) =~= data.subrange(i, next));
        }
        assert(data.skip(i) == data.subrange(i, next) + data.skip(next));
        assert(jpeg_part_bytes(part) + (jpeg_parts_bytes(rest) + picture) == jpeg_part_bytes(part)
            + jpeg_parts_bytes(rest) + picture);
        (parts, picture)
    }
}

/// What cannot be put together as a JPEG comes back byte for byte.
pub proof fn what_is_no_jpeg_is_untouched(data: Seq<u8>)
    requires
        forall|parts: Seq<JpegPart>, picture: Seq<u8>|
            jpeg_fits(parts, picture) ==> data != #[trigger] jpeg_of(parts, picture),
    ensures
        stripped(data, MediaType::Jpeg) == data,
{
    if jpeg_stripped(data) is Some {
        let (parts, picture) = jpeg_taken_apart(data, 2);
        let head = seq![0xFFu8, 0xD8u8];
        assert(data.subrange(0, 2) == head);
        assert(data == data.subrange(0, 2) + data.skip(2));
        assert(head + (jpeg_parts_bytes(parts) + picture) == jpeg_of(parts, picture));
        assert(data == jpeg_of(parts, picture));
    }
}

/// A chunk of a PNG: four letters, what it holds, and four bytes to check it by.
pub struct PngChunk {
    pub kind: Seq<u8>,
    pub held: Seq<u8>,
    pub check: Seq<u8>,
}

/// Four letters as bytes.
pub open spec fn letters(a: char, b: char, c: char, d: char) -> Seq<u8> {
    seq![a as u8, b as u8, c as u8, d as u8]
}

pub open spec fn png_chunk_fits(chunk: PngChunk) -> bool {
    chunk.kind.len() == 4 && chunk.check.len() == 4 && chunk.held.len() <= 0xFFFF_FFFF
}

pub open spec fn png_chunk_bytes(chunk: PngChunk) -> Seq<u8> {
    let n = chunk.held.len();
    seq![
        (n / 0x1000000) as u8,
        (n / 0x10000 % 0x100) as u8,
        (n / 0x100 % 0x100) as u8,
        (n % 0x100) as u8,
    ] + chunk.kind + chunk.held + chunk.check
}

pub open spec fn png_chunks_bytes(chunks: Seq<PngChunk>) -> Seq<u8>
    decreases chunks.len(),
{
    if chunks.len() == 0 {
        Seq::empty()
    } else {
        png_chunk_bytes(chunks[0]) + png_chunks_bytes(chunks.skip(1))
    }
}

/// A PNG, put together.
pub open spec fn png_of(chunks: Seq<PngChunk>) -> Seq<u8> {
    seq![0x89u8, 'P' as u8, 'N' as u8, 'G' as u8, 13u8, 10u8, 0x1Au8, 10u8] + png_chunks_bytes(
        chunks,
    )
}

/// Is the chunk about whoever made the picture, or about when?
pub open spec fn png_chunk_tells(chunk: PngChunk) -> bool {
    ||| chunk.kind == letters('e', 'X', 'I', 'f')
    ||| chunk.kind == letters('t', 'E', 'X', 't')
    ||| chunk.kind == letters('z', 'T', 'X', 't')
    ||| chunk.kind == letters('i', 'T', 'X', 't')
    ||| chunk.kind == letters('t', 'I', 'M', 'E')
}

pub open spec fn png_chunks_left(chunks: Seq<PngChunk>) -> Seq<PngChunk>
    decreases chunks.len(),
{
    if chunks.len() == 0 {
        Seq::empty()
    } else if png_chunk_tells(chunks[0]) {
        png_chunks_left(chunks.skip(1))
    } else {
        seq![chunks[0]] + png_chunks_left(chunks.skip(1))
    }
}

pub open spec fn png_fits(chunks: Seq<PngChunk>) -> bool {
    forall|i: int| 0 <= i < chunks.len() ==> png_chunk_fits(#[trigger] chunks[i])
}

proof fn four_bytes_of(n: int)
    requires
        0 <= n <= 0xFFFF_FFFF,
    ensures
        0 <= n / 0x1000000 < 0x100,
        n == (n / 0x1000000) * 0x1000000 + (n / 0x10000 % 0x100) * 0x10000 + (n / 0x100 % 0x100)
            * 0x100 + n % 0x100,
{
}

proof fn four_bytes_are(a: u8, b: u8, c: u8, d: u8, n: int)
    requires
        n == a * 0x1000000 + b * 0x10000 + c * 0x100 + d,
    ensures
        0 <= n <= 0xFFFF_FFFF,
        n / 0x1000000 == a,
        n / 0x10000 % 0x100 == b,
        n / 0x100 % 0x100 == c,
        n % 0x100 == d,
{
    let high = a * 0x100 + b;
    let most = high * 0x100 + c;
    assert(n == most * 0x100 + d);
    vstd::arithmetic::div_mod::lemma_fundamental_div_mod_converse(n, 0x100, most, d as int);
    assert(n == high * 0x10000 + (c * 0x100 + d));
    vstd::arithmetic::div_mod::lemma_fundamental_div_mod_converse(n, 0x10000, high, c * 0x100 + d);
    vstd::arithmetic::div_mod::lemma_fundamental_div_mod_converse(n, 0x1000000, a as int, b * 0x10000 + c * 0x100 + d);
    vstd::arithmetic::div_mod::lemma_fundamental_div_mod_converse(most, 0x100, high, c as int);
    vstd::arithmetic::div_mod::lemma_fundamental_div_mod_converse(high, 0x100, a as int, b as int);
}

proof fn png_chunk_at(data: Seq<u8>, front: Seq<u8>, chunk: PngChunk, back: Seq<u8>)
    requires
        png_chunk_fits(chunk),
        data == front + png_chunk_bytes(chunk) + back,
    ensures
        png_chunk_end(data, front.len() as int) == Some(
            (front.len() + png_chunk_bytes(chunk).len()) as int,
        ),
        png_chunk_bytes(chunk).len() == chunk.held.len() + 12,
        data.subrange(front.len() as int + 4, front.len() as int + 8) == chunk.kind,
        data.subrange(front.len() as int, (front.len() + png_chunk_bytes(chunk).len()) as int)
            == png_chunk_bytes(chunk),
{
    let piece = png_chunk_bytes(chunk);
    let i = front.len() as int;
    let n = chunk.held.len() as int;
    assert(data[i] == piece[0] && data[i + 1] == piece[1]);
    assert(data[i + 2] == piece[2] && data[i + 3] == piece[3]);
    four_bytes_of(n);
    assert(be32(data, i) == n);
    assert(data.subrange(i + 4, i + 8) =~= chunk.kind);
    assert(data.subrange(i, i + piece.len()) =~= piece);
}

proof fn png_walk(front: Seq<u8>, chunks: Seq<PngChunk>)
    requires
        png_fits(chunks),
    ensures
        png_kept(front + png_chunks_bytes(chunks), front.len() as int) == Some(
            png_chunks_bytes(png_chunks_left(chunks)),
        ),
    decreases chunks.len(),
{
    let data = front + png_chunks_bytes(chunks);
    let i = front.len() as int;
    if chunks.len() > 0 {
        let chunk = chunks[0];
        let piece = png_chunk_bytes(chunk);
        let rest = chunks.skip(1);
        let left = png_chunks_left(rest);
        assert(png_chunk_fits(chunk));
        assert forall|k: int| 0 <= k < rest.len() implies png_chunk_fits(#[trigger] rest[k]) by {
            assert(rest[k] == chunks[k + 1]);
        }
        png_walk(front + piece, rest);
        assert(front + piece + png_chunks_bytes(rest) == data);
        png_chunk_at(data, front, chunk, png_chunks_bytes(rest));
        if !png_chunk_tells(chunk) {
            let all = seq![chunk] + left;
            assert(all.skip(1) == left);
            assert(all[0] == chunk);
        }
    }
}

/// A PNG loses what it knows about whoever made it, and nothing else: what
/// comes out is put together of the same chunks, in the same order, but for
/// those that are about somebody.
pub proof fn a_png_keeps_its_picture(chunks: Seq<PngChunk>)
    requires
        png_fits(chunks),
    ensures
        stripped(png_of(chunks), MediaType::Png) == png_of(png_chunks_left(chunks)),
{
    let head = seq![0x89u8, 'P' as u8, 'N' as u8, 'G' as u8, 13u8, 10u8, 0x1Au8, 10u8];
    png_walk(head, chunks);
    assert(png_of(chunks).subrange(0, 8) == head);
    assert(head == crate::media::png_signature());
}

proof fn png_chunk_read(data: Seq<u8>, i: int, end: int, chunk: PngChunk)
    requires
        png_chunk_end(data, i) == Some(end),
        chunk.kind == data.subrange(i + 4, i + 8),
        chunk.held == data.subrange(i + 8, end - 4),
        chunk.check == data.subrange(end - 4, end),
    ensures
        png_chunk_fits(chunk),
        png_chunk_bytes(chunk) == data.subrange(i, end),
        i < end <= data.len(),
{
    let n = be32(data, i);
    four_bytes_are(data[i], data[i + 1], data[i + 2], data[i + 3], n);
    assert(chunk.held.len() == n);
    assert(png_chunk_bytes(chunk) =~= data.subrange(i, end));
}

proof fn png_taken_apart(data: Seq<u8>, i: int) -> (r: Seq<PngChunk>)
    requires
        0 <= i <= data.len(),
        png_kept(data, i) is Some,
    ensures
        png_fits(r),
        data.skip(i) == png_chunks_bytes(r),
    decreases data.len() - i,
{
    if i >= data.len() {
        assert(data.skip(i) == Seq::<u8>::empty());
        Seq::empty()
    } else {
        let end = png_chunk_end(data, i)->0;
        let rest = png_taken_apart(data, end);
        let chunk = PngChunk {
            kind: data.subrange(i + 4, i + 8),
            held: data.subrange(i + 8, end - 4),
            check: data.subrange(end - 4, end),
        };
        let chunks = seq![chunk] + rest;
        assert(chunks.skip(1) == rest);
        assert(chunks[0] == chunk);
        png_chunk_read(data, i, end, chunk);
        assert forall|k: int| 0 <= k < chunks.len() implies png_chunk_fits(#[trigger] chunks[k]) by {
            if k > 0 {
                assert(chunks[k] == rest[k - 1]);
            }
        }
        assert(data.skip(i) == data.subrange(i, end) + data.skip(end));
        chunks
    }
}

/// What cannot be put together as a PNG comes back byte for byte.
pub proof fn what_is_no_png_is_untouched(data: Seq<u8>)
    requires
        forall|chunks: Seq<PngChunk>|
            png_fits(chunks) ==> data != #[trigger] png_of(chunks),
    ensures
        stripped(data, MediaType::Png) == data,
{
    if png_stripped(data) is Some {
        let chunks = png_taken_apart(data, 8);
        let head = seq![0x89u8, 'P' as u8, 'N' as u8, 'G' as u8, 13u8, 10u8, 0x1Au8, 10u8];
        assert(head == crate::media::png_signature());
        assert(data.subrange(0, 8) == head);
        assert(data == data.subrange(0, 8) + data.skip(8));
        assert(data == png_of(chunks));
    }
}

/// A chunk of a WebP: four letters, what it holds, and a byte more where that
/// is odd.
pub struct WebpChunk {
    pub kind: Seq<u8>,
    pub held: Seq<u8>,
    pub pad: u8,
}

/// A number in four bytes, the smallest first.
pub open spec fn little(n: int) -> Seq<u8> {
    seq![
        (n % 0x100) as u8,
        (n / 0x100 % 0x100) as u8,
        (n / 0x10000 % 0x100) as u8,
        (n / 0x1000000) as u8,
    ]
}

pub open spec fn webp_chunk_bytes(chunk: WebpChunk) -> Seq<u8> {
    let plain = chunk.kind + little(chunk.held.len() as int) + chunk.held;
    if chunk.held.len() % 2 == 1 {
        plain.push(chunk.pad)
    } else {
        plain
    }
}

pub open spec fn webp_chunks_bytes(chunks: Seq<WebpChunk>) -> Seq<u8>
    decreases chunks.len(),
{
    if chunks.len() == 0 {
        Seq::empty()
    } else {
        webp_chunk_bytes(chunks[0]) + webp_chunks_bytes(chunks.skip(1))
    }
}

/// A WebP, put together. The length in front counts everything behind it.
pub open spec fn webp_of(chunks: Seq<WebpChunk>) -> Seq<u8> {
    letters('R', 'I', 'F', 'F') + little(4 + webp_chunks_bytes(chunks).len() as int) + letters(
        'W',
        'E',
        'B',
        'P',
    ) + webp_chunks_bytes(chunks)
}

pub open spec fn webp_fits(chunks: Seq<WebpChunk>) -> bool {
    &&& forall|i: int| 0 <= i < chunks.len() ==> (#[trigger] chunks[i]).kind.len() == 4
    &&& 4 + webp_chunks_bytes(chunks).len() <= 0xFFFF_FFFF
}

/// Is the chunk about whoever made the picture?
pub open spec fn webp_chunk_tells(chunk: WebpChunk) -> bool {
    chunk.kind == letters('E', 'X', 'I', 'F') || chunk.kind == letters('X', 'M', 'P', ' ')
}

/// Is it the header that says which other chunks there are?
pub open spec fn webp_header(chunk: WebpChunk) -> bool {
    chunk.kind == letters('V', 'P', '8', 'X')
}

pub open spec fn webp_chunks_left(chunks: Seq<WebpChunk>) -> Seq<WebpChunk>
    decreases chunks.len(),
{
    if chunks.len() == 0 {
        Seq::empty()
    } else if webp_chunk_tells(chunks[0]) {
        webp_chunks_left(chunks.skip(1))
    } else {
        seq![chunks[0]] + webp_chunks_left(chunks.skip(1))
    }
}

pub open spec fn has_header(chunks: Seq<WebpChunk>) -> bool
    decreases chunks.len(),
{
    chunks.len() > 0 && (webp_header(chunks[0]) || has_header(chunks.skip(1)))
}

/// The header with the bits for EXIF (8) and XMP (4) cleared.
pub open spec fn webp_header_cleared(chunk: WebpChunk) -> WebpChunk {
    WebpChunk { held: chunk.held.update(0, chunk.held[0] & 0xF3), ..chunk }
}

/// The chunks with nothing announced in the last header that is gone.
pub open spec fn unannounced(chunks: Seq<WebpChunk>) -> Seq<WebpChunk>
    decreases chunks.len(),
{
    if chunks.len() == 0 {
        chunks
    } else if has_header(chunks.skip(1)) {
        seq![chunks[0]] + unannounced(chunks.skip(1))
    } else if webp_header(chunks[0]) {
        seq![webp_header_cleared(chunks[0])] + chunks.skip(1)
    } else {
        chunks
    }
}

proof fn webp_chunk_at(data: Seq<u8>, front: Seq<u8>, chunk: WebpChunk, back: Seq<u8>, stop: int)
    requires
        chunk.kind.len() == 4,
        chunk.held.len() <= 0xFFFF_FFFF,
        data == front + webp_chunk_bytes(chunk) + back,
        front.len() + webp_chunk_bytes(chunk).len() <= stop <= data.len(),
    ensures
        webp_chunk_end(data, front.len() as int, stop) == Some(
            (front.len() + webp_chunk_bytes(chunk).len()) as int,
        ),
        webp_chunk_bytes(chunk).len() >= 8,
        data.subrange(front.len() as int, front.len() as int + 4) == chunk.kind,
        data.subrange(front.len() as int, (front.len() + webp_chunk_bytes(chunk).len()) as int)
            == webp_chunk_bytes(chunk),
{
    let piece = webp_chunk_bytes(chunk);
    let i = front.len() as int;
    let n = chunk.held.len() as int;
    assert(data[i + 4] == piece[4] && data[i + 5] == piece[5]);
    assert(data[i + 6] == piece[6] && data[i + 7] == piece[7]);
    four_bytes_of(n);
    assert(le32(data, i + 4) == n);
    assert(data.subrange(i, i + 4) =~= chunk.kind);
    assert(data.subrange(i, i + piece.len()) =~= piece);
}

proof fn webp_kinds()
    ensures
        letters('E', 'X', 'I', 'F') == crate::media::exif_tag(),
        letters('X', 'M', 'P', ' ') == crate::media::xmp_tag(),
        letters('V', 'P', '8', 'X') == crate::media::vp8x_tag(),
        letters('R', 'I', 'F', 'F') == crate::media::riff_tag(),
        letters('W', 'E', 'B', 'P') == crate::media::webp_tag(),
{
    assert(letters('E', 'X', 'I', 'F') =~= crate::media::exif_tag());
    assert(letters('X', 'M', 'P', ' ') =~= crate::media::xmp_tag());
    assert(letters('V', 'P', '8', 'X') =~= crate::media::vp8x_tag());
    assert(letters('R', 'I', 'F', 'F') =~= crate::media::riff_tag());
    assert(letters('W', 'E', 'B', 'P') =~= crate::media::webp_tag());
}

proof fn cleared_header_bytes(chunk: WebpChunk)
    requires
        chunk.kind.len() == 4,
        chunk.held.len() > 0,
    ensures
        webp_chunk_bytes(chunk).len() > 8,
        webp_chunk_bytes(chunk)[8] == chunk.held[0],
        webp_chunk_bytes(webp_header_cleared(chunk)) == webp_chunk_bytes(chunk).update(
            8,
            webp_chunk_bytes(chunk)[8] & 0xF3,
        ),
{
    assert(webp_chunk_bytes(webp_header_cleared(chunk)) =~= webp_chunk_bytes(chunk).update(
        8,
        webp_chunk_bytes(chunk)[8] & 0xF3,
    ));
}

proof fn webp_walk(front: Seq<u8>, chunks: Seq<WebpChunk>, back: Seq<u8>, to: int)
    requires
        forall|i: int| 0 <= i < chunks.len() ==> (#[trigger] chunks[i]).kind.len() == 4,
        forall|i: int|
            0 <= i < chunks.len() && webp_header(#[trigger] chunks[i]) ==> chunks[i].held.len() > 0,
        webp_chunks_bytes(chunks).len() <= 0xFFFF_FFFF,
    ensures
        ({
            let data = front + webp_chunks_bytes(chunks) + back;
            let i = front.len() as int;
            let stop = i + webp_chunks_bytes(chunks).len();
            let left = webp_chunks_left(chunks);
            let bytes = webp_chunks_bytes(left);
            &&& webp_kept(data, i, stop) == Some(bytes)
            &&& bytes.len() <= webp_chunks_bytes(chunks).len()
            &&& match webp_flags(data, i, stop, to) {
                Some(at) => {
                    &&& has_header(left)
                    &&& to <= at < to + bytes.len()
                    &&& webp_chunks_bytes(unannounced(left)) == bytes.update(
                        at - to,
                        bytes[at - to] & 0xF3,
                    )
                },
                None => !has_header(left),
            }
        }),
    decreases chunks.len(),
{
    let data = front + webp_chunks_bytes(chunks) + back;
    let i = front.len() as int;
    let stop = i + webp_chunks_bytes(chunks).len();
    webp_kinds();
    if chunks.len() > 0 {
        let chunk = chunks[0];
        let piece = webp_chunk_bytes(chunk);
        let rest = chunks.skip(1);
        let left = webp_chunks_left(rest);
        let bytes = webp_chunks_bytes(left);
        assert forall|k: int| 0 <= k < rest.len() implies (#[trigger] rest[k]).kind.len() == 4 by {
            assert(rest[k] == chunks[k + 1]);
        }
        assert forall|k: int| 0 <= k < rest.len() && webp_header(#[trigger] rest[k]) implies
            rest[k].held.len() > 0 by {
            assert(rest[k] == chunks[k + 1]);
        }
        assert(front + piece + webp_chunks_bytes(rest) + back == data);
        assert(front + piece + (webp_chunks_bytes(rest) + back) == data);
        assert(chunk.kind.len() == 4);
        webp_chunk_at(data, front, chunk, webp_chunks_bytes(rest) + back, stop);
        let end = i + piece.len();
        assert(stop == end + webp_chunks_bytes(rest).len());
        if webp_chunk_tells(chunk) {
            webp_walk(front + piece, rest, back, to);
        } else {
            let next = to + (end - i);
            webp_walk(front + piece, rest, back, next);
            let all = seq![chunk] + left;
            assert(all.skip(1) == left);
            assert(all[0] == chunk);
            assert(webp_chunks_bytes(all) == piece + bytes);
            match webp_flags(data, end, stop, next) {
                Some(at) => {
                    let after = seq![chunk] + unannounced(left);
                    assert(after.skip(1) == unannounced(left));
                    assert(after[0] == chunk);
                    assert(webp_chunks_bytes(after) == piece + webp_chunks_bytes(
                        unannounced(left),
                    ));
                    assert((piece + bytes)[at - to] == bytes[at - next]);
                    assert(piece + bytes.update(at - next, bytes[at - next] & 0xF3) == (piece
                        + bytes).update(at - to, bytes[at - next] & 0xF3));
                },
                None => {
                    if webp_header(chunk) {
                        assert(webp_header(chunks[0]));
                        cleared_header_bytes(chunk);
                        let after = seq![webp_header_cleared(chunk)] + left;
                        assert(after.skip(1) == left);
                        assert(after[0] == webp_header_cleared(chunk));
                        assert((piece + bytes)[8] == piece[8]);
                        assert(piece.update(8, piece[8] & 0xF3) + bytes == (piece + bytes).update(
                            8,
                            piece[8] & 0xF3,
                        ));
                    }
                },
            }
        }
    }
}

/// A WebP loses what it knows about whoever made it, and nothing else: what
/// comes out is put together of the same chunks, in the same order, but for
/// those that are about somebody, and its header no longer announces them.
/// Whatever stood behind the picture is gone too.
pub proof fn a_webp_keeps_its_picture(chunks: Seq<WebpChunk>, behind: Seq<u8>)
    requires
        webp_fits(chunks),
        forall|i: int|
            0 <= i < chunks.len() && webp_header(#[trigger] chunks[i]) ==> chunks[i].held.len() > 0,
    ensures
        stripped(webp_of(chunks) + behind, MediaType::Webp) == webp_of(
            unannounced(webp_chunks_left(chunks)),
        ),
{
    let data = webp_of(chunks) + behind;
    let bytes = webp_chunks_bytes(chunks);
    let riff = letters('R', 'I', 'F', 'F');
    let webp = letters('W', 'E', 'B', 'P');
    let front = riff + little(4 + bytes.len() as int) + webp;
    let left = webp_chunks_left(chunks);
    webp_kinds();
    webp_walk(front, chunks, behind, 4);
    assert(front + bytes + behind == data);
    assert(data.subrange(0, 4) =~= riff);
    assert(data.subrange(8, 12) =~= webp);
    little_is_read(riff, 4 + bytes.len() as int, webp + bytes + behind);
    assert(riff + little(4 + bytes.len() as int) + (webp + bytes + behind) == data);
    let kept = webp_chunks_bytes(left);
    let body = webp + webp_chunks_bytes(unannounced(left));
    match webp_flags(data, 12, 12 + bytes.len() as int, 4) {
        Some(at) => {
            assert((webp + kept)[at] == kept[at - 4]);
            assert((webp + kept).update(at, kept[at - 4] & 0xF3) == webp + kept.update(
                at - 4,
                kept[at - 4] & 0xF3,
            ));
        },
        None => {
            nothing_announced(left);
        },
    }
    let n = body.len() as int;
    little_is_written(n);
    assert(riff + little(n) + body == webp_of(unannounced(left)));
}

proof fn little_is_read(front: Seq<u8>, n: int, back: Seq<u8>)
    requires
        0 <= n <= 0xFFFF_FFFF,
    ensures
        le32(front + little(n) + back, front.len() as int) == n,
{
    let all = front + little(n) + back;
    let at = front.len() as int;
    four_bytes_of(n);
    assert(all[at] == little(n)[0] && all[at + 1] == little(n)[1]);
    assert(all[at + 2] == little(n)[2] && all[at + 3] == little(n)[3]);
}

proof fn little_is_written(n: int)
    requires
        0 <= n <= 0xFFFF_FFFF,
    ensures
        le32_bytes(n) == little(n),
{
    assert(n / 0x1000000 % 0x100 == n / 0x1000000);
}

proof fn nothing_announced(chunks: Seq<WebpChunk>)
    requires
        !has_header(chunks),
    ensures
        unannounced(chunks) == chunks,
{
}

proof fn webp_chunk_read(data: Seq<u8>, i: int, stop: int, end: int) -> (r: WebpChunk)
    requires
        webp_chunk_end(data, i, stop) == Some(end),
    ensures
        r.kind.len() == 4,
        webp_chunk_bytes(r) == data.subrange(i, end),
        i < end <= stop <= data.len(),
{
    let n = le32(data, i + 4);
    four_bytes_are(data[i + 7], data[i + 6], data[i + 5], data[i + 4], n);
    let chunk = WebpChunk {
        kind: data.subrange(i, i + 4),
        held: data.subrange(i + 8, i + 8 + n),
        pad: data[i + 8 + n],
    };
    assert(little(n) =~= data.subrange(i + 4, i + 8));
    assert(webp_chunk_bytes(chunk) =~= data.subrange(i, end));
    chunk
}

proof fn webp_taken_apart(data: Seq<u8>, i: int, stop: int) -> (r: Seq<WebpChunk>)
    requires
        0 <= i <= stop <= data.len(),
        webp_kept(data, i, stop) is Some,
    ensures
        forall|k: int| 0 <= k < r.len() ==> (#[trigger] r[k]).kind.len() == 4,
        data.subrange(i, stop) == webp_chunks_bytes(r),
    decreases stop - i,
{
    if i >= stop {
        assert(data.subrange(i, stop) == Seq::<u8>::empty());
        Seq::empty()
    } else {
        let end = webp_chunk_end(data, i, stop)->0;
        let chunk = webp_chunk_read(data, i, stop, end);
        let rest = webp_taken_apart(data, end, stop);
        let chunks = seq![chunk] + rest;
        assert(chunks.skip(1) == rest);
        assert(chunks[0] == chunk);
        assert forall|k: int| 0 <= k < chunks.len() implies (#[trigger] chunks[k]).kind.len()
            == 4 by {
            if k > 0 {
                assert(chunks[k] == rest[k - 1]);
            }
        }
        assert(data.subrange(i, stop) == data.subrange(i, end) + data.subrange(end, stop));
        chunks
    }
}

/// What cannot be put together as a WebP comes back byte for byte.
pub proof fn what_is_no_webp_is_untouched(data: Seq<u8>)
    requires
        forall|chunks: Seq<WebpChunk>, behind: Seq<u8>|
            webp_fits(chunks) ==> data != #[trigger] (webp_of(chunks) + behind),
    ensures
        stripped(data, MediaType::Webp) == data,
{
    if webp_stripped(data) is Some {
        webp_kinds();
        let n = le32(data, 4);
        let stop = 8 + n;
        four_bytes_are(data[7], data[6], data[5], data[4], n);
        let chunks = webp_taken_apart(data, 12, stop);
        let behind = data.skip(stop);
        assert(little(n) =~= data.subrange(4, 8));
        assert(4 + webp_chunks_bytes(chunks).len() == n);
        assert(data =~= data.subrange(0, 4) + data.subrange(4, 8) + data.subrange(8, 12)
            + data.subrange(12, stop) + behind);
        assert(data == webp_of(chunks) + behind);
    }
}

/// What is a GIF comes back byte for byte.
pub proof fn a_gif_is_untouched(data: Seq<u8>)
    ensures
        stripped(data, MediaType::Gif) == data,
{
}

/// Does the data begin with these bytes?
pub open spec fn opens_with(data: Seq<u8>, head: Seq<u8>) -> bool {
    exists|rest: Seq<u8>| data == #[trigger] (head + rest)
}

proof fn opening(data: Seq<u8>, head: Seq<u8>)
    ensures
        opens_with(data, head) == crate::media::reads_at(data, 0, head),
{
    if crate::media::reads_at(data, 0, head) {
        assert(data == head + data.skip(head.len() as int)) by {
            assert(data.subrange(0, head.len() as int) == head);
            assert(data =~= data.subrange(0, head.len() as int) + data.skip(head.len() as int));
        }
    }
    if opens_with(data, head) {
        let rest = choose|rest: Seq<u8>| data == #[trigger] (head + rest);
        assert(data.subrange(0, head.len() as int) =~= head);
    }
}

/// FOUR KINDS OF PICTURE AND NO OTHER, each by its first bytes: whatever begins
/// otherwise is refused, however it is called.
pub proof fn four_kinds_and_no_other(data: Seq<u8>)
    ensures
        detected(data) == Some(MediaType::Jpeg) <==> opens_with(data, seq![0xFFu8, 0xD8, 0xFF]),
        detected(data) == Some(MediaType::Png) <==> opens_with(
            data,
            seq![0x89u8, 'P' as u8, 'N' as u8, 'G' as u8, 13u8, 10u8, 0x1Au8, 10u8],
        ),
        detected(data) == Some(MediaType::Gif) <==> (opens_with(
            data,
            letters('G', 'I', 'F', '8') + seq!['7' as u8, 'a' as u8],
        ) || opens_with(data, letters('G', 'I', 'F', '8') + seq!['9' as u8, 'a' as u8])),
        detected(data) == Some(MediaType::Webp) <==> (opens_with(
            data,
            letters('R', 'I', 'F', 'F'),
        ) && data.len() >= 12 && opens_with(data.skip(8), letters('W', 'E', 'B', 'P'))),
{
    let jpeg = seq![0xFFu8, 0xD8, 0xFF];
    let png = seq![0x89u8, 'P' as u8, 'N' as u8, 'G' as u8, 13u8, 10u8, 0x1Au8, 10u8];
    let gif87 = letters('G', 'I', 'F', '8') + seq!['7' as u8, 'a' as u8];
    let gif89 = letters('G', 'I', 'F', '8') + seq!['9' as u8, 'a' as u8];
    let riff = letters('R', 'I', 'F', 'F');
    let webp = letters('W', 'E', 'B', 'P');
    webp_kinds();
    opening(data, jpeg);
    opening(data, png);
    opening(data, gif87);
    opening(data, gif89);
    opening(data, riff);
    assert(png =~= crate::media::png_signature());
    assert(gif87 =~= seq![0x47u8, 0x49, 0x46, 0x38, 0x37, 0x61]);
    assert(gif89 =~= seq![0x47u8, 0x49, 0x46, 0x38, 0x39, 0x61]);
    if data.len() >= 12 {
        opening(data.skip(8), webp);
        assert(data.skip(8).subrange(0, 4) =~= data.subrange(8, 12));
    }
    if opens_with(data, jpeg) {
        assert(data.subrange(0, 3)[0] == 0xFF);
    }
    if opens_with(data, png) {
        assert(data.subrange(0, 8)[0] == 0x89);
    }
    if opens_with(data, gif87) {
        assert(data.subrange(0, 6)[0] == 0x47);
    }
    if opens_with(data, gif89) {
        assert(data.subrange(0, 6)[0] == 0x47);
    }
    if opens_with(data, riff) {
        assert(data.subrange(0, 4)[0] == 0x52);
    }
}

} // verus!
