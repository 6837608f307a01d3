use rum::load_mast::load;
use rum::load_mast::MastReader;
use rum::MastError;

fn header() -> Vec<u8> {
    b"Mont\xe0MAST\x00".to_vec()
}

#[test]
fn header_exact_bytes_accepted() {
    let mut r = MastReader::new(header());
    assert_eq!(r.check_magic_numbers(), Ok(()));
    assert_eq!(r.pos, 10);
}

#[test]
fn header_alone_decodes_to_empty_tables() {
    let ctx = load(header()).expect("clean empty stream");
    assert_eq!(ctx.expers.len(), 0);
    assert_eq!(ctx.patts.len(), 0);
    assert_eq!(ctx.root(), None);
}

#[test]
fn header_any_single_bit_flip_rejected() {
    for i in 0..10 {
        for bit in 0..8 {
            let mut data = header();
            data[i] ^= 1u8 << bit;
            data.push(b'L');
            data.push(b'N');
            match load(data) {
                Err(MastError::BadMagic) => assert!(i < 9, "byte {} flipped", i),
                Err(MastError::BadVersion) => assert_eq!(i, 9, "byte {} flipped", i),
                other => panic!("bit {} of byte {} accepted: {:?}", bit, i, other.is_ok()),
            }
        }
    }
}

#[test]
fn header_wrong_version_rejected() {
    let mut data = header();
    data[9] = 0x01;
    assert_eq!(load(data).err(), Some(MastError::BadVersion));
}

#[test]
fn header_truncated_is_eof() {
    assert_eq!(load(b"Mont".to_vec()).err(), Some(MastError::UnexpectedEof));
    assert_eq!(load(Vec::new()).err(), Some(MastError::UnexpectedEof));
}

#[test]
fn header_check_consumes_ten_bytes_on_mismatch() {
    let mut data = header();
    data[0] = b'X';
    let mut r = MastReader::new(data);
    assert_eq!(r.check_magic_numbers(), Err(MastError::BadMagic));
    assert_eq!(r.pos, 10);
}
