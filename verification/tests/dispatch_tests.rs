use rum::load_mast::load;
use rum::load_mast::Context;
use rum::nodes::CharExpr;
use rum::nodes::Expr;
use rum::nodes::Expression;
use rum::nodes::FinalPattern;
use rum::nodes::NullExpr;
use rum::nodes::Pattern;
use rum::MastError;

fn header() -> Vec<u8> {
    b"Mont\xe0MAST\x00".to_vec()
}

#[test]
fn null_tag_appends_one_node_and_two_bytes() {
    let mut ctx = Context::new(false, vec![b'L', b'N']);
    let step = ctx.decode_next_tag().expect("null literal");
    assert_eq!(step.tag, b'L');
    assert_eq!(step.consumed, 2);
    assert_eq!(step.index, 0);
    assert_eq!(ctx.stream.pos, 2);
    assert_eq!(ctx.expers, vec![Expression::Null(NullExpr)]);
    assert_eq!(ctx.patts.len(), 0);
}

#[test]
fn char_tag_appends_character_node() {
    let mut ctx = Context::new(false, vec![b'L', b'C', 0x41]);
    let step = ctx.decode_next_tag().expect("character literal");
    assert_eq!(step.consumed, 3);
    assert_eq!(ctx.expers, vec![Expression::Character(CharExpr::new('A'))]);
}

#[test]
fn char_tag_multibyte_scalar() {
    let mut ctx = Context::new(false, vec![b'L', b'C', 0xf0, 0x9f, 0x8c, 0x8d]);
    let step = ctx.decode_next_tag().expect("character literal");
    assert_eq!(step.consumed, 6);
    assert_eq!(ctx.expers, vec![Expression::Character(CharExpr::new('\u{1f30d}'))]);
}

#[test]
fn unknown_top_level_byte_leaves_tables_unchanged() {
    let mut ctx = Context::new(false, vec![0xff, b'L', b'N']);
    assert_eq!(ctx.decode_next_tag().err(), Some(MastError::UnknownTag(0xff)));
    assert_eq!(ctx.expers.len(), 0);
    assert_eq!(ctx.patts.len(), 0);
}

#[test]
fn unimplemented_literal_subtags_are_unsupported() {
    for sub in [b'D', b'I', b'S'] {
        let mut ctx = Context::new(false, vec![b'L', sub]);
        assert_eq!(
            ctx.decode_next_tag().err(),
            Some(MastError::Unsupported(b'L', Some(sub)))
        );
        assert_eq!(ctx.expers.len(), 0);
    }
}

#[test]
fn undefined_literal_subtag_is_malformed() {
    let mut ctx = Context::new(false, vec![b'L', b'z']);
    assert_eq!(
        ctx.decode_next_tag().err(),
        Some(MastError::MalformedTag(b'L', b'z'))
    );
}

#[test]
fn pattern_subtags_are_unsupported() {
    for sub in [b'F', b'I', b'V', b'L', b'A', b'B'] {
        let mut ctx = Context::new(false, vec![b'P', sub]);
        assert_eq!(
            ctx.decode_next_tag().err(),
            Some(MastError::Unsupported(b'P', Some(sub)))
        );
    }
}

#[test]
fn undefined_pattern_subtag_is_malformed() {
    let mut ctx = Context::new(false, vec![b'P', b'q']);
    assert_eq!(
        ctx.decode_next_tag().err(),
        Some(MastError::MalformedTag(b'P', b'q'))
    );
}

#[test]
fn higher_level_tags_are_unsupported() {
    for tag in *b"NBSCDeEOMRAFYHITX" {
        let mut ctx = Context::new(false, vec![tag]);
        assert_eq!(
            ctx.decode_next_tag().err(),
            Some(MastError::Unsupported(tag, None))
        );
    }
}

#[test]
fn tag_cut_short_is_eof() {
    let mut ctx = Context::new(false, vec![b'L']);
    assert_eq!(ctx.decode_next_tag().err(), Some(MastError::UnexpectedEof));
    let mut ctx2 = Context::new(false, Vec::new());
    assert_eq!(ctx2.decode_next_tag().err(), Some(MastError::UnexpectedEof));
}

#[test]
fn load_null_then_char_end_to_end() {
    let mut data = header();
    data.extend_from_slice(&[b'L', b'N', b'L', b'C', 0x41]);
    let ctx = load(data).expect("clean stream");
    assert_eq!(
        ctx.expers,
        vec![
            Expression::Null(NullExpr),
            Expression::Character(CharExpr::new('A')),
        ]
    );
    assert_eq!(ctx.patts.len(), 0);
    assert_eq!(ctx.root(), Some(1));
}

#[test]
fn load_aborts_on_node_cut_short() {
    let mut data = header();
    data.extend_from_slice(&[b'L', b'N', b'L', b'C']);
    assert_eq!(load(data).err(), Some(MastError::UnexpectedEof));
}

#[test]
fn load_aborts_whole_session_on_late_error() {
    let mut data = header();
    data.extend_from_slice(&[b'L', b'N', 0xff]);
    assert_eq!(load(data).err(), Some(MastError::UnknownTag(0xff)));
}

#[test]
fn double_reads_exactly_eight_bytes() {
    let mut r = rum::load_mast::MastReader::new(vec![1, 2, 3, 4, 5, 6, 7, 8, 9]);
    assert_eq!(r.next_double().expect("bytes"), vec![1, 2, 3, 4, 5, 6, 7, 8]);
    assert_eq!(r.pos, 8);
    let mut short = rum::load_mast::MastReader::new(vec![1, 2, 3]);
    assert_eq!(short.next_double(), Err(MastError::UnexpectedEof));
    assert_eq!(short.pos, 0);
}

#[test]
fn next_bytes_returns_exact_contents() {
    let mut r = rum::load_mast::MastReader::new(vec![10, 20, 30, 40]);
    assert_eq!(r.next_bytes(2).expect("bytes"), vec![10, 20]);
    assert_eq!(r.next_byte().expect("byte"), 30);
    assert_eq!(r.next_bytes(2), Err(MastError::UnexpectedEof));
    assert_eq!(r.next_bytes(1).expect("bytes"), vec![40]);
    assert!(r.at_end());
}

#[test]
fn auditor_stamps_never_fail() {
    assert_eq!(NullExpr.auditor_stamps(), "New NullExpr");
    assert_eq!(CharExpr::new('x').auditor_stamps(), "New CharExpr");
    assert_eq!(FinalPattern.auditor_stamps(), "New FinalPattern!");
}
