//! UTF-8 text decoding: single Unicode scalars and length-prefixed strings.
//!
//! The contracts are stated against the UTF-8 model of `vstd::utf8`:
//! `valid_utf8`, `decode_utf8`, and the single-scalar forms
//! `valid_first_scalar`, `decode_first_scalar` and `length_of_first_scalar`.

use vstd::prelude::*;
use vstd::utf8::*;

verus! {

/// Relies on `char::from_u32` from std: it returns `Some` exactly when the
/// value is a Unicode scalar (at most `0x10FFFF` and not a surrogate), and
/// the returned character has that numeric value.
#[verifier::external_body]
fn char_from_u32(v: u32) -> (r: Option<char>)
    ensures
        r is Some <==> is_scalar(v),
        r matches Some(c) ==> c as u32 == v,
{
    char::from_u32(v)
}

/// Relies on `String::push` from std: it appends exactly the one given
/// character.
#[verifier::external_body]
fn push_char(s: &mut String, c: char)
    ensures
        final(s)@ == old(s)@.push(c),
{
    s.push(c);
}

/// The single-scalar spec functions read only the scalar's own bytes, so any
/// two sequences that agree on a prefix holding one whole scalar agree on
/// that scalar.
pub(crate) proof fn lemma_first_scalar_agree(a: Seq<u8>, b: Seq<u8>, w: int)
    requires
        1 <= w <= a.len() <= b.len(),
        forall|j: int| 0 <= j < a.len() ==> a[j] == b[j],
    ensures
        (valid_first_scalar(a) && length_of_first_scalar(a) == w) <==> (valid_first_scalar(b)
            && length_of_first_scalar(b) == w),
        valid_first_scalar(a) && length_of_first_scalar(a) == w ==> decode_first_scalar(a)
            == decode_first_scalar(b),
{
    assert(a[0] == b[0]);
    if a.len() >= 2 {
        assert(a[1] == b[1]);
    }
    if a.len() >= 3 {
        assert(a[2] == b[2]);
    }
    if a.len() >= 4 {
        assert(a[3] == b[3]);
    }
}

/// Decodes the first scalar of `b` starting at byte `i`: the character and
/// the width of its encoding, or `None` when no well-formed scalar encoding
/// starts there (also when one is cut short by the end of the bytes).
fn scalar_at(b: &Vec<u8>, i: usize) -> (r: Option<(char, usize)>)
    requires
        i < b@.len(),
    ensures
        r is Some <==> valid_first_scalar(b@.skip(i as int)),
        r matches Some((c, w)) ==> ({
            let s = b@.skip(i as int);
            &&& c as u32 == decode_first_scalar(s)
            &&& w == length_of_first_scalar(s)
            &&& 1 <= w <= 4
            &&& i + w <= b@.len()
        }),
{
    let ghost s = b@.skip(i as int);
    proof {
        assert(s.len() == b@.len() - i);
        assert(forall|j: int| 0 <= j < s.len() ==> s[j] == b@[i + j]);
    }
    let rem = b.len() - i;
    let b0 = b[i];
    if b0 < 0x80 {
        // One byte: the scalar is the byte itself.
        proof {
            assert(b0 & 0x7f == b0) by (bit_vector)
                requires
                    b0 < 0x80,
            ;
        }
        let c = char_from_u32(b0 as u32).unwrap();
        Some((c, 1))
    } else if 0xc0 <= b0 && b0 <= 0xdf {
        // Two bytes: 5 leading data bits, 6 continuation bits.
        if rem >= 2 {
            let b1 = b[i + 1];
            if 0x80 <= b1 && b1 <= 0xbf {
                let cp: u32 = (((b0 & 0x1f) as u32) << 6u32) | ((b1 & 0x3f) as u32);
                if cp >= 0x80 {
                    proof {
                        assert(cp <= 0x7ff) by (bit_vector)
                            requires
                                cp == (((b0 & 0x1f) as u32) << 6u32) | ((b1 & 0x3f) as u32),
                        ;
                    }
                    let c = char_from_u32(cp).unwrap();
                    Some((c, 2))
                } else {
                    // An overlong two-byte encoding.
                    None
                }
            } else {
                None
            }
        } else {
            None
        }
    } else if 0xe0 <= b0 && b0 <= 0xef {
        // Three bytes: 4 leading data bits, two continuation groups.
        if rem >= 3 {
            let b1 = b[i + 1];
            let b2 = b[i + 2];
            if 0x80 <= b1 && b1 <= 0xbf && 0x80 <= b2 && b2 <= 0xbf {
                let cp: u32 = (((b0 & 0x0f) as u32) << 12u32) | (((b1 & 0x3f) as u32) << 6u32)
                    | ((b2 & 0x3f) as u32);
                if cp >= 0x800 && !(0xd800 <= cp && cp <= 0xdfff) {
                    proof {
                        assert(cp <= 0xffff) by (bit_vector)
                            requires
                                cp == (((b0 & 0x0f) as u32) << 12u32) | (((b1 & 0x3f) as u32)
                                    << 6u32) | ((b2 & 0x3f) as u32),
                        ;
                    }
                    let c = char_from_u32(cp).unwrap();
                    Some((c, 3))
                } else {
                    // Overlong, or a codepoint in the surrogate range.
                    None
                }
            } else {
                None
            }
        } else {
            None
        }
    } else if 0xf0 <= b0 && b0 <= 0xf7 {
        // Four bytes: 3 leading data bits, three continuation groups.
        if rem >= 4 {
            let b1 = b[i + 1];
            let b2 = b[i + 2];
            let b3 = b[i + 3];
            if 0x80 <= b1 && b1 <= 0xbf && 0x80 <= b2 && b2 <= 0xbf && 0x80 <= b3 && b3 <= 0xbf {
                let cp: u32 = (((b0 & 0x07) as u32) << 18u32) | (((b1 & 0x3f) as u32) << 12u32)
                    | (((b2 & 0x3f) as u32) << 6u32) | ((b3 & 0x3f) as u32);
                if 0x10000 <= cp && cp <= 0x10ffff {
                    let c = char_from_u32(cp).unwrap();
                    Some((c, 4))
                } else {
                    // Overlong, or a value beyond the last Unicode scalar.
                    None
                }
            } else {
                None
            }
        } else {
            None
        }
    } else {
        // A continuation byte, or a byte no UTF-8 encoding uses, leads.
        None
    }
}

/// Decodes the buffer when it holds exactly one complete UTF-8 scalar and
/// nothing more.
pub(crate) fn complete_scalar(buf: &Vec<u8>) -> (r: Option<char>)
    requires
        1 <= buf@.len(),
    ensures
        r is Some <==> (valid_first_scalar(buf@) && length_of_first_scalar(buf@) == buf@.len()),
        r matches Some(c) ==> c as u32 == decode_first_scalar(buf@),
{
    proof {
        assert(buf@.skip(0) =~= buf@);
    }
    match scalar_at(buf, 0) {
        Some((c, w)) => {
            if w == buf.len() {
                Some(c)
            } else {
                None
            }
        },
        None => None,
    }
}

/// Decodes a byte sequence as UTF-8 text. On failure the result carries the
/// first offset, within these bytes, at which validation failed: everything
/// before it is valid UTF-8 and no well-formed scalar encoding starts there.
pub fn utf8_to_string(b: &Vec<u8>) -> (r: Result<String, usize>)
    ensures
        r is Ok <==> valid_utf8(b@),
        r matches Ok(s) ==> s@ == decode_utf8(b@),
        r matches Err(off) ==> ({
            &&& off < b@.len()
            &&& partial_valid_utf8(b@, off as int)
            &&& !valid_first_scalar(b@.skip(off as int))
        }),
{
    let mut s = String::new();
    let mut i: usize = 0;
    proof {
        assert(b@.take(0) =~= Seq::<u8>::empty());
        assert(valid_utf8(Seq::<u8>::empty()));
        assert(decode_utf8(Seq::<u8>::empty()) =~= Seq::<char>::empty());
    }
    while i < b.len()
        invariant
            i <= b@.len(),
            partial_valid_utf8(b@, i as int),
            s@ == decode_utf8(b@.take(i as int)),
        decreases b@.len() - i,
    {
        let ghost rest = b@.skip(i as int);
        match scalar_at(b, i) {
            Some((c, w)) => {
                proof {
                    lemma_step_decodes(b@, i as int, c, w as int);
                }
                push_char(&mut s, c);
                i = i + w;
            },
            None => {
                proof {
                    assert(!valid_utf8(rest)) by {
                        if valid_utf8(rest) {
                            assert(valid_first_scalar(rest));
                        }
                    }
                    assert(rest =~= b@.subrange(i as int, b@.len() as int));
                    partial_valid_partial_invalid_utf8(b@, i as int);
                }
                return Err(i);
            },
        }
    }
    proof {
        assert(b@.take(b@.len() as int) =~= b@);
    }
    Ok(s)
}

/// One scalar decoded at a valid prefix boundary extends the prefix's
/// decoding by exactly that character.
proof fn lemma_step_decodes(b: Seq<u8>, i: int, c: char, w: int)
    requires
        0 <= i < b.len(),
        partial_valid_utf8(b, i),
        valid_first_scalar(b.skip(i)),
        c as u32 == decode_first_scalar(b.skip(i)),
        w == length_of_first_scalar(b.skip(i)),
        i + w <= b.len(),
    ensures
        partial_valid_utf8(b, i + w),
        decode_utf8(b.take(i + w)) == decode_utf8(b.take(i)).push(c),
{
    let rest = b.skip(i);
    assert(rest =~= b.subrange(i, b.len() as int));
    partial_valid_utf8_extend(b, i);
    let ext = b.take(i + w);
    assert(valid_utf8(ext));
    assert(rest[0] == b[i] && ext[i] == b[i]);
    is_char_boundary_iff_is_leading_byte(ext, i);
    assert(is_char_boundary(ext, i));
    decode_utf8_split(ext, i);
    assert(ext.subrange(0, i) =~= b.take(i));
    let scalar = ext.subrange(i, i + w);
    assert(scalar =~= b.subrange(i, i + w));
    valid_utf8_split(ext, i);
    assert(valid_utf8(scalar));
    // The scalar's bytes agree with `rest` on its whole width.
    assert(forall|j: int| 0 <= j < w ==> scalar[j] == rest[j]);
    lemma_first_scalar_agree(scalar, rest, w);
    assert(valid_first_scalar(scalar) && length_of_first_scalar(scalar) == w);
    assert(decode_first_scalar(scalar) == decode_first_scalar(rest));
    assert(pop_first_scalar(scalar) =~= Seq::<u8>::empty());
    assert(valid_utf8(pop_first_scalar(scalar)));
    assert(decode_utf8(pop_first_scalar(scalar)) =~= Seq::<char>::empty());
    assert(decode_utf8(scalar) =~= seq![decode_first_scalar(scalar) as char]);
    char_u32_cast(c, decode_first_scalar(rest));
    assert(decode_utf8(ext) =~= decode_utf8(b.take(i)).push(c));
}

} // verus!
