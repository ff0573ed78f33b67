use render_core::atlas::{FontLoadingError, Typeface};
use render_core::fontscan::font_names_safe;

// a minimal single-font file whose directory declares one naming table
fn font_with_name_record(string_len: u8, string_bytes: &[u8]) -> Vec<u8> {
    let tlen = 18 + string_bytes.len();
    let mut d = vec![0u8; 28 + tlen];
    // font magic 0x00010000
    d[1] = 0x01;
    // one table
    d[5] = 1;
    // directory record at 12: tag 'name', offset 28, length tlen
    d[12] = 0x6E;
    d[13] = 0x61;
    d[14] = 0x6D;
    d[15] = 0x65;
    d[23] = 28;
    d[27] = tlen as u8;
    // naming table at 28: version 0, one record, storage 18 bytes in
    d[31] = 1;
    d[33] = 18;
    // record at 34: platform 0 (Unicode), name id 4 (full name),
    // declared string length, string offset 0
    d[41] = 4;
    d[43] = string_len;
    // storage at 46
    for (k, byte) in string_bytes.iter().enumerate() {
        d[46 + k] = *byte;
    }
    d
}

#[test]
fn odd_length_unicode_name_is_rejected() {
    // three bytes of UTF-16 would make the name reader run off the end
    let font = font_with_name_record(3, &[0, 65, 0]);
    assert!(!font_names_safe(&font));
    assert!(matches!(
        Typeface::load_font(32, &font, &['a']),
        Err(FontLoadingError::FontInvalid)
    ));
}

#[test]
fn trailing_high_surrogate_is_rejected() {
    // a lead surrogate as the last unit makes the reader fetch two bytes
    // past the end
    let font = font_with_name_record(2, &[0xD8, 0x00]);
    assert!(!font_names_safe(&font));
}

#[test]
fn well_formed_unicode_name_passes_the_scan() {
    let font = font_with_name_record(4, &[0, 65, 0, 66]);
    assert!(font_names_safe(&font));
    // the bytes are still no complete font, so loading fails downstream
    assert!(matches!(
        Typeface::load_font(32, &font, &['a']),
        Err(FontLoadingError::FontInvalid)
    ));
}

#[test]
fn non_font_bytes_are_safe_to_hand_over() {
    // an unknown magic never reaches the name reader
    assert!(font_names_safe(&[1, 2, 3, 4, 5, 6, 7, 8]));
    assert!(font_names_safe(&[]));
}

#[test]
fn font_collections_are_rejected_conservatively() {
    // 'ttcf'
    let d = vec![0x74, 0x74, 0x63, 0x66, 0, 0, 0, 1];
    assert!(!font_names_safe(&d));
}
