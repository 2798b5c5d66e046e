//! The document text encoding table.

use simple_pdf::graphics::text::decode;

#[test]
fn printable_ascii_maps_to_itself() {
    for c in 0x20u8..=0x7eu8 {
        assert_eq!(decode(c), Some(c as u32));
    }
}

#[test]
fn undefined_bytes_decode_to_nothing() {
    assert_eq!(decode(0x7f), None);
    assert_eq!(decode(0x9f), None);
    assert_eq!(decode(0xad), None);
}

#[test]
fn accents_and_punctuation_blocks() {
    assert_eq!(decode(0x18), Some(0x2D8));
    assert_eq!(decode(0x1f), Some(0x2DC));
    assert_eq!(decode(0x80), Some(0x2022));
    assert_eq!(decode(0x85), Some(0x2013));
    assert_eq!(decode(0x8a), Some(0x2212));
    assert_eq!(decode(0x93), Some(0xFB01));
    assert_eq!(decode(0x9e), Some(0x17E));
    assert_eq!(decode(0xa0), Some(0x20AC));
}

#[test]
fn high_bytes_map_to_latin_one() {
    assert_eq!(decode(0xa1), Some(0xA1));
    assert_eq!(decode(0xc0), Some(0xC0));
    assert_eq!(decode(0xff), Some(0xFF));
}
