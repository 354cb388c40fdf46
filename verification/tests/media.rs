//! Recognising a picture, and taking out what it knows besides.
use treff::media::{detect, strip_metadata, MediaType};

#[test]
fn recognises_the_four_allowed_formats() {
    assert_eq!(detect(&[0xFF, 0xD8, 0xFF, 0xE0]), Some(MediaType::Jpeg));
    assert_eq!(
        detect(b"\x89PNG\r\n\x1a\n....").map(|m| m.mime()),
        Some("image/png")
    );
    assert_eq!(
        detect(b"GIF89a.......").map(|m| m.mime()),
        Some("image/gif")
    );
    assert_eq!(
        detect(b"RIFF\x00\x00\x00\x00WEBPVP8 ").map(|m| m.mime()),
        Some("image/webp")
    );
}

#[test]
fn refuses_svg_even_though_it_is_an_image() {
    assert_eq!(
        detect(b"<svg xmlns=\"http://www.w3.org/2000/svg\"></svg>"),
        None
    );
    assert_eq!(detect(b"\xef\xbb\xbf<svg>"), None);
    assert_eq!(detect(b"\n  <svg>"), None);
}

#[test]
fn refuses_html_and_scripts() {
    assert_eq!(detect(b"<!DOCTYPE html><script>alert(1)</script>"), None);
    assert_eq!(detect(b"#!/bin/sh\nrm -rf /"), None);
    assert_eq!(detect(b"%PDF-1.7"), None);
}

#[test]
fn a_png_header_on_html_content_is_still_only_a_png_header() {
    assert_eq!(detect(b"\x89PNG\r\n\x1a\n<script>"), Some(MediaType::Png));
}

#[test]
fn an_empty_or_short_file_is_refused_without_panicking() {
    assert_eq!(detect(b""), None);
    assert_eq!(detect(b"\x89PN"), None);
    assert_eq!(detect(b"RIFF"), None, "a truncated header must not index");
    assert_eq!(detect(b"RIFF\x00\x00\x00\x00WEB"), None);
}

#[test]
fn riff_without_webp_is_refused() {
    assert_eq!(detect(b"RIFF\x00\x00\x00\x00AVI LIST"), None);
    assert_eq!(detect(b"RIFF\x00\x00\x00\x00WAVEfmt "), None);
}

#[test]
fn the_extension_never_comes_from_the_upload() {
    for (bytes, ext) in [(&b"\x89PNG\r\n\x1a\n"[..], "png"), (&b"GIF89a"[..], "gif")] {
        let detected = detect(bytes).expect("detected");
        assert!(detected.extension().chars().all(|c| c.is_ascii_lowercase()));
        assert_eq!(detected.extension(), ext);
    }
}

fn jpeg_with(segments: &[(u8, &[u8])]) -> Vec<u8> {
    let mut v = vec![0xFF, 0xD8];
    for (marker, payload) in segments {
        v.push(0xFF);
        v.push(*marker);
        let len = (payload.len() + 2) as u16;
        v.extend_from_slice(&len.to_be_bytes());
        v.extend_from_slice(payload);
    }
    v.extend_from_slice(&[0xFF, 0xDA, 0x00, 0x02, 0x42, 0x42, 0xFF, 0xD9]);
    v
}

fn png_with(chunks: &[(&[u8; 4], &[u8])]) -> Vec<u8> {
    let mut v = b"\x89PNG\r\n\x1a\n".to_vec();
    for (kind, payload) in chunks {
        v.extend_from_slice(&(payload.len() as u32).to_be_bytes());
        v.extend_from_slice(*kind);
        v.extend_from_slice(payload);
        v.extend_from_slice(&[0, 0, 0, 0]);
    }
    v
}

fn webp_with(chunks: &[(&[u8; 4], &[u8])]) -> Vec<u8> {
    let mut payload = b"WEBP".to_vec();
    for (kind, data) in chunks {
        payload.extend_from_slice(*kind);
        payload.extend_from_slice(&(data.len() as u32).to_le_bytes());
        payload.extend_from_slice(data);
        if data.len() % 2 == 1 {
            payload.push(0);
        }
    }
    let mut v = b"RIFF".to_vec();
    v.extend_from_slice(&(payload.len() as u32).to_le_bytes());
    v.extend_from_slice(&payload);
    v
}

fn contains(haystack: &[u8], needle: &[u8]) -> bool {
    haystack.windows(needle.len()).any(|w| w == needle)
}

#[test]
fn a_jpegs_exif_segment_does_not_survive() {
    let exif = b"Exif\x00\x00II*\x00GPSLatitude 51.9";
    let original = jpeg_with(&[(0xE1, exif)]);
    assert!(contains(&original, b"GPSLatitude"), "the fixture is wrong");

    let stripped = strip_metadata(&original, MediaType::Jpeg);

    assert!(!contains(&stripped, b"GPSLatitude"));
    assert!(!contains(&stripped, b"Exif"));
    assert_eq!(
        detect(&stripped),
        Some(MediaType::Jpeg),
        "what comes out is still a JPEG"
    );
}

#[test]
fn a_jpegs_xmp_and_iptc_do_not_survive_either() {
    let original = jpeg_with(&[
        (
            0xE1,
            b"http://ns.adobe.com/xap/1.0/\x00<x:xmpmeta>Ada</x:xmpmeta>",
        ),
        (0xED, b"Photoshop 3.0\x008BIM\x04\x04somewhere"),
    ]);
    let stripped = strip_metadata(&original, MediaType::Jpeg);
    assert!(!contains(&stripped, b"xmpmeta"));
    assert!(!contains(&stripped, b"8BIM"));
}

#[test]
fn a_jpegs_own_machinery_is_left_alone() {
    let original = jpeg_with(&[
        (0xE0, b"JFIF\x00\x01\x02\x00\x00\x01\x00\x01\x00\x00"),
        (0xEE, b"Adobe\x00\x64\x00\x00\x00\x00\x02"),
        (0xDB, b"\x00quantisation"),
    ]);
    let stripped = strip_metadata(&original, MediaType::Jpeg);
    assert!(contains(&stripped, b"JFIF"));
    assert!(contains(&stripped, b"Adobe"));
    assert!(contains(&stripped, b"quantisation"));
    assert!(
        stripped.ends_with(&[0xFF, 0xDA, 0x00, 0x02, 0x42, 0x42, 0xFF, 0xD9]),
        "the scan and what follows it are untouched"
    );
}

#[test]
fn a_jpeg_with_nothing_to_remove_comes_back_unchanged() {
    let original = jpeg_with(&[(0xDB, b"\x00quantisation")]);
    assert_eq!(strip_metadata(&original, MediaType::Jpeg), original);
}

#[test]
fn a_pngs_exif_and_text_chunks_do_not_survive() {
    let original = png_with(&[
        (
            b"IHDR",
            b"\x00\x00\x00\x01\x00\x00\x00\x01\x08\x06\x00\x00\x00",
        ),
        (b"eXIf", b"II*\x00GPSLatitude 51.9"),
        (b"tEXt", b"Author\x00Ada"),
        (
            b"iTXt",
            b"XML:com.adobe.xmp\x00\x00\x00\x00\x00<x:xmpmeta/>",
        ),
        (b"IDAT", b"pixels"),
        (b"IEND", b""),
    ]);
    let stripped = strip_metadata(&original, MediaType::Png);

    assert!(!contains(&stripped, b"eXIf"));
    assert!(!contains(&stripped, b"GPSLatitude"));
    assert!(!contains(&stripped, b"tEXt"));
    assert!(!contains(&stripped, b"iTXt"));
    assert!(contains(&stripped, b"IHDR"), "the header is not metadata");
    assert!(contains(&stripped, b"IDAT"), "nor are the pixels");
    assert!(contains(&stripped, b"IEND"));
    assert_eq!(detect(&stripped), Some(MediaType::Png));
}

#[test]
fn a_webps_exif_and_xmp_chunks_do_not_survive() {
    let original = webp_with(&[
        (b"VP8X", b"\x0c\x00\x00\x00\x00\x00\x00\x00\x00\x00"),
        (b"VP8 ", b"pixels"),
        (b"EXIF", b"II*\x00GPSLatitude 51.9"),
        (b"XMP ", b"<x:xmpmeta>Ada</x:xmpmeta>"),
    ]);
    let stripped = strip_metadata(&original, MediaType::Webp);

    assert!(!contains(&stripped, b"GPSLatitude"));
    assert!(!contains(&stripped, b"xmpmeta"));
    assert!(contains(&stripped, b"pixels"));
    assert_eq!(detect(&stripped), Some(MediaType::Webp));

    let declared = u32::from_le_bytes(stripped[4..8].try_into().expect("four bytes"));
    assert_eq!(
        declared as usize,
        stripped.len() - 8,
        "the RIFF length was not corrected"
    );

    let flags = stripped[8 + 4 + 8];
    assert_eq!(flags & 0x0c, 0, "the EXIF and XMP flags are still set");
}

#[test]
fn bytes_that_cannot_be_walked_come_back_exactly_as_they_arrived() {
    for (bytes, kind) in [
        (&b""[..], MediaType::Jpeg),
        (&b"\xFF\xD8\xFF"[..], MediaType::Jpeg),
        (&b"\xFF\xD8\xFF\xE1\x00"[..], MediaType::Jpeg),
        (
            &b"\xFF\xD8\xFF\xE1\xFF\xFFshorter than it claims"[..],
            MediaType::Jpeg,
        ),
        (&b"\x89PNG\r\n\x1a\n\x00\x00"[..], MediaType::Png),
        (
            &b"\x89PNG\r\n\x1a\n\xFF\xFF\xFF\xFFeXIf"[..],
            MediaType::Png,
        ),
        (&b"RIFF\x00\x00\x00\x00WEBP"[..], MediaType::Webp),
        (&b"RIFF"[..], MediaType::Webp),
    ] {
        assert_eq!(
            strip_metadata(bytes, kind),
            bytes.to_vec(),
            "changed bytes it could not parse: {bytes:?}"
        );
    }
}

#[test]
fn a_gif_is_handed_back_untouched() {
    let original = b"GIF89a\x21\xFE\x05hello\x00;".to_vec();
    assert_eq!(strip_metadata(&original, MediaType::Gif), original);
}
