use rum::load_mast::MastReader;
use rum::MastError;
use rum::UnsignedInt;

#[test]
fn varint_round_trip_small_values() {
    for v in [0u64, 1, 127, 128, 129, 300, 16383, 16384, 1 << 62, u64::MAX] {
        let u = UnsignedInt::from_u64(v);
        let enc = u.encode();
        let mut r = MastReader::new(enc.clone());
        let back = r.next_varint().expect("decode");
        assert_eq!(back.to_u64().expect("fits"), v);
        assert_eq!(r.pos, enc.len());
    }
}

#[test]
fn varint_encoding_exact_bytes() {
    assert_eq!(UnsignedInt::from_u64(0).encode(), vec![0x00]);
    assert_eq!(UnsignedInt::from_u64(1).encode(), vec![0x01]);
    assert_eq!(UnsignedInt::from_u64(127).encode(), vec![0x7f]);
    assert_eq!(UnsignedInt::from_u64(128).encode(), vec![0x80, 0x01]);
    assert_eq!(UnsignedInt::from_u64(300).encode(), vec![0xac, 0x02]);
}

#[test]
fn varint_round_trip_two_to_the_256() {
    // 2^256 encodes as 36 zero groups with the continuation bit set, then
    // the group holding 2^4.
    let mut enc: Vec<u8> = vec![0x80; 36];
    enc.push(0x10);
    let mut r = MastReader::new(enc.clone());
    let u = r.next_varint().expect("decode");
    assert_eq!(r.pos, enc.len());
    // The value exceeds 64 bits, so narrowing must fail...
    assert_eq!(u.to_u64(), Err(MastError::LengthOverflow));
    // ...but re-encoding yields the identical bytes back.
    assert_eq!(u.encode(), enc);
}

#[test]
fn varint_noncanonical_zero_groups_reencode_canonically() {
    // 0x80 0x00 encodes the value zero in two groups.
    let mut r = MastReader::new(vec![0x80, 0x00]);
    let u = r.next_varint().expect("decode");
    assert_eq!(u.to_u64().expect("fits"), 0);
    assert_eq!(u.encode(), vec![0x00]);
}

#[test]
fn varint_unterminated_is_eof() {
    let mut r = MastReader::new(vec![0x80, 0x80, 0x80]);
    assert_eq!(r.next_varint().err(), Some(MastError::UnexpectedEof));
    assert_eq!(r.pos, 3);
}

#[test]
fn next_int_barely_fits() {
    // 2^64 - 1: nine full groups and a top group of 1.
    let mut enc: Vec<u8> = vec![0xff; 9];
    enc.push(0x01);
    let mut r = MastReader::new(enc);
    assert_eq!(r.next_int().expect("fits"), u64::MAX);
}

#[test]
fn next_int_overflow_is_length_overflow() {
    // 2^64: nine zero groups and a top group of 2.
    let mut enc: Vec<u8> = vec![0x80; 9];
    enc.push(0x02);
    let mut r = MastReader::new(enc);
    assert_eq!(r.next_int(), Err(MastError::LengthOverflow));
}

#[test]
fn next_int_empty_is_eof() {
    let mut r = MastReader::new(Vec::new());
    assert_eq!(r.next_int(), Err(MastError::UnexpectedEof));
}
