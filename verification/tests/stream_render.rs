//! Hex rendering of raw byte buffers.

use sift::hexfmt::{lower_hex, upper_hex};

#[test]
fn clean() {
    assert_eq!(String::from_utf8(upper_hex(b"abc")).unwrap(), "616263");
    assert_eq!(
        String::from_utf8(upper_hex(b"\xf0\x28\x8c\xbc")).unwrap(),
        "F0288CBC"
    );
}

#[test]
fn test_debug() {
    assert_eq!(
        "000000206674797069736F6D0000020069736F6D69736F32617663316D70",
        String::from_utf8(upper_hex(b"\0\0\0 ftypisom\0\0\x02\0isomiso2avc1mp")).unwrap(),
    );
}

#[test]
fn test_pretty_debug() {
    // Rendering must simply not fail; nothing is pinned down about layout.
    let _ = upper_hex(b"\0\0\0 ftypisom\0\0\x02\0isomiso2avc1mp");
}

#[test]
fn test_sliced() {
    let total = b"12345678901234567890";
    let _ = upper_hex(total);
    let _ = upper_hex(&total[1..]);
    let _ = upper_hex(&total[10..]);
}

#[test]
fn lower_case_render() {
    assert_eq!(String::from_utf8(lower_hex(b"\xf0\x28")).unwrap(), "f028");
    assert_eq!(String::from_utf8(lower_hex(b"")).unwrap(), "");
}
