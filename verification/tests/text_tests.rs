use rum::load_mast::MastReader;
use rum::text::utf8_to_string;
use rum::MastError;

#[test]
fn string_length_zero_is_empty() {
    let mut r = MastReader::new(vec![0x00]);
    assert_eq!(r.next_str().expect("empty string"), "");
    assert_eq!(r.pos, 1);
}

#[test]
fn string_ascii_decodes_exactly() {
    let mut data = vec![0x05];
    data.extend_from_slice(b"hello");
    let mut r = MastReader::new(data);
    assert_eq!(r.next_str().expect("text"), "hello");
    assert_eq!(r.pos, 6);
}

#[test]
fn string_multibyte_decodes_exactly() {
    // One scalar of each encoded width: 1, 2, 3 and 4 bytes.
    let text = "a\u{e9}\u{2603}\u{1f30d}";
    let bytes = text.as_bytes();
    let mut data = vec![bytes.len() as u8];
    data.extend_from_slice(bytes);
    let mut r = MastReader::new(data);
    assert_eq!(r.next_str().expect("text"), text);
}

#[test]
fn string_short_payload_is_eof() {
    let mut r = MastReader::new(vec![0x05, 0x41, 0x42]);
    assert_eq!(r.next_str(), Err(MastError::UnexpectedEof));
}

#[test]
fn string_invalid_utf8_reports_first_bad_offset() {
    let mut r = MastReader::new(vec![0x03, 0x41, 0xff, 0x41]);
    assert_eq!(r.next_str(), Err(MastError::InvalidUtf8(1)));
}

#[test]
fn string_overlong_encoding_rejected() {
    let mut r = MastReader::new(vec![0x02, 0xc0, 0x80]);
    assert_eq!(r.next_str(), Err(MastError::InvalidUtf8(0)));
}

#[test]
fn string_length_past_u64_is_overflow() {
    let mut data = vec![0x80u8; 9];
    data.push(0x02);
    let mut r = MastReader::new(data);
    assert_eq!(r.next_str(), Err(MastError::LengthOverflow));
}

#[test]
fn utf8_to_string_accepts_and_rejects() {
    assert_eq!(utf8_to_string(&Vec::new()), Ok(String::new()));
    assert_eq!(utf8_to_string(&b"ok".to_vec()), Ok("ok".to_string()));
    assert_eq!(utf8_to_string(&vec![0x61, 0xed, 0xa0, 0x80]), Err(1));
}

#[test]
fn scalar_ascii_byte_decodes() {
    let mut r = MastReader::new(vec![0x41]);
    assert_eq!(r.next_char().expect("scalar"), 'A');
    assert_eq!(r.pos, 1);
}

#[test]
fn scalar_two_byte_decodes() {
    let mut r = MastReader::new(vec![0xc3, 0xa9]);
    assert_eq!(r.next_char().expect("scalar"), '\u{e9}');
    assert_eq!(r.pos, 2);
}

#[test]
fn scalar_above_u16_range_decodes() {
    let mut r = MastReader::new(vec![0xf0, 0x9f, 0x8c, 0x8d, 0x41]);
    assert_eq!(r.next_char().expect("scalar"), '\u{1f30d}');
    assert_eq!(r.pos, 4);
}

#[test]
fn scalar_lone_continuation_fails_after_four_bytes() {
    let mut r = MastReader::new(vec![0x80, 0x41, 0x42, 0x43, 0x44]);
    assert_eq!(r.next_char(), Err(MastError::InvalidUtf8(0)));
    assert_eq!(r.pos, 4);
}

#[test]
fn scalar_surrogate_encoding_rejected() {
    let mut r = MastReader::new(vec![0xed, 0xa0, 0x80, 0x41]);
    assert_eq!(r.next_char(), Err(MastError::InvalidUtf8(0)));
}

#[test]
fn scalar_truncated_sequence_is_eof() {
    let mut r = MastReader::new(vec![0xc3]);
    assert_eq!(r.next_char(), Err(MastError::UnexpectedEof));
    let mut r2 = MastReader::new(Vec::new());
    assert_eq!(r2.next_char(), Err(MastError::UnexpectedEof));
}
