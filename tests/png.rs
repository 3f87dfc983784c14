use thumbnailer::png;
use thumbnailer::png::{is_fresh, parse_seconds};

fn chunk(tag: &[u8], payload: &[u8]) -> Vec<u8> {
    let mut c = Vec::new();
    c.extend_from_slice(&(payload.len() as u32).to_be_bytes());
    c.extend_from_slice(tag);
    c.extend_from_slice(payload);
    c.extend_from_slice(&[0, 0, 0, 0]);
    c
}

/// The first bytes of a thumbnail as the thumbnail service writes it.
fn thumbnail(mtime: &str) -> Vec<u8> {
    let mut b = vec![0x89, b'P', b'N', b'G', 0x0d, 0x0a, 0x1a, 0x0a];
    b.extend(chunk(b"IHDR", &[0, 0, 0, 128, 0, 0, 0, 96, 8, 6, 0, 0, 0]));
    b.extend(chunk(b"tEXt", b"Thumb::URI\0file:///home/user/test_image.png"));
    let mut text = b"Thumb::MTime\0".to_vec();
    text.extend_from_slice(mtime.as_bytes());
    b.extend(chunk(b"tEXt", &text));
    b.extend(chunk(b"IDAT", &[0u8; 40]));
    b
}

#[test]
fn mtime() {
    let b = thumbnail("1664435861.573808");

    assert_eq!(Some("1664435861.573808".to_string()), png::mtime(&b))
}

#[test]
fn mtime_of_short_prefix_is_none() {
    let b = thumbnail("1664435861.573808");
    assert_eq!(None, png::mtime(&b[..12]));
    assert_eq!(None, png::mtime(&[]));
}

#[test]
fn mtime_without_keyword_is_none() {
    let mut b = vec![0x89, b'P', b'N', b'G', 0x0d, 0x0a, 0x1a, 0x0a];
    b.extend(chunk(b"IHDR", &[0; 13]));
    b.extend(chunk(b"tEXt", b"Software\0gimp"));
    b.extend(chunk(b"IDAT", &[0u8; 40]));
    assert_eq!(None, png::mtime(&b));
}

#[test]
fn mtime_stops_at_truncated_chunk() {
    let b = thumbnail("1664435861.573808");
    // Cut inside the chunk that holds the time.
    let cut = b.len() - 40 - 12 - 10;
    assert_eq!(None, png::mtime(&b[..cut]));
}

#[test]
fn mtime_keyword_without_value_is_none() {
    let mut b = vec![0x89, b'P', b'N', b'G', 0x0d, 0x0a, 0x1a, 0x0a];
    b.extend(chunk(b"tEXt", b"Thumb::MTime"));
    b.extend(chunk(b"tEXt", b"Thumb::MTime\x0012"));
    b.extend(chunk(b"IDAT", &[0u8; 40]));
    assert_eq!(None, png::mtime(&b));
}

#[test]
fn mtime_value_ends_at_nul() {
    let mut b = vec![0x89, b'P', b'N', b'G', 0x0d, 0x0a, 0x1a, 0x0a];
    b.extend(chunk(b"tEXt", b"Thumb::MTime\x0042.5\x00rest"));
    b.extend(chunk(b"IDAT", &[0u8; 40]));
    assert_eq!(Some("42.5".to_string()), png::mtime(&b));
}

#[test]
fn mtime_replaces_invalid_utf8() {
    let mut b = vec![0x89, b'P', b'N', b'G', 0x0d, 0x0a, 0x1a, 0x0a];
    b.extend(chunk(b"tEXt", b"Thumb::MTime\x004\xff2"));
    b.extend(chunk(b"IDAT", &[0u8; 40]));
    assert_eq!(Some("4\u{FFFD}2".to_string()), png::mtime(&b));
}

#[test]
fn parse_seconds_reads_decimal() {
    assert_eq!(Some(1664435861), parse_seconds(b"1664435861"));
    assert_eq!(Some(5), parse_seconds(b"+5"));
    assert_eq!(Some(7), parse_seconds(b"007"));
    assert_eq!(Some(u64::MAX), parse_seconds(b"18446744073709551615"));
    assert_eq!(None, parse_seconds(b"18446744073709551616"));
    assert_eq!(None, parse_seconds(b""));
    assert_eq!(None, parse_seconds(b"+"));
    assert_eq!(None, parse_seconds(b"-5"));
    assert_eq!(None, parse_seconds(b"12a"));
    assert_eq!(None, parse_seconds(b" 12"));
}

#[test]
fn fresh_when_seconds_match() {
    let b = thumbnail("1664435861.573808");
    assert!(is_fresh(&b, 1664435861));
    assert!(!is_fresh(&b, 1814435861));
    assert!(!is_fresh(&b, 1664435862));
}

#[test]
fn fresh_ignores_fraction() {
    let b = thumbnail("1664435861.999999");
    assert!(is_fresh(&b, 1664435861));
    let b = thumbnail("1664435861");
    assert!(is_fresh(&b, 1664435861));
}

#[test]
fn not_fresh_without_time() {
    let b = thumbnail("1664435861.573808");
    assert!(!is_fresh(&b[..20], 1664435861));
    let b = thumbnail("soon.5");
    assert!(!is_fresh(&b, 0));
    let b = thumbnail(".5");
    assert!(!is_fresh(&b, 0));
}
