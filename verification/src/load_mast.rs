//! The MAST decoding engine: header validation, primitive reads, tag
//! dispatch, and the decode session that drives a whole stream.
//!
//! Layout of a stream: bytes 0 through 8 are a fixed 9-byte magic signature,
//! byte 9 is the version, and everything after is a stream of tagged nodes
//! with no trailing delimiter. The functions below state exactly which bytes
//! each step consumes and which node or error it yields.

use vstd::prelude::*;
use vstd::utf8::char_u32_cast;
use vstd::utf8::decode_first_scalar;
use vstd::utf8::decode_utf8;
use vstd::utf8::length_of_first_scalar;
use vstd::utf8::partial_valid_utf8;
use vstd::utf8::valid_first_scalar;
use vstd::utf8::valid_utf8;

use crate::errors::MastError;
use crate::nodes::CharExpr;
use crate::nodes::Expression;
use crate::nodes::FinalPattern;
use crate::nodes::NullExpr;
use crate::text::complete_scalar;
use crate::text::lemma_first_scalar_agree;
use crate::text::utf8_to_string;
use crate::varint::groups_wf;
use crate::varint::varint_groups;
use crate::varint::varint_value;
use crate::varint::UnsignedInt;

verus! {

/// The fixed 10-byte header: the 9-byte magic signature, then the one
/// version byte this decoder recognizes.
pub open spec fn header_bytes() -> Seq<u8> {
    seq![0x4du8, 0x6fu8, 0x6eu8, 0x74u8, 0xe0u8, 0x4du8, 0x41u8, 0x53u8, 0x54u8, 0x00u8]
}

/// What header validation yields on a byte sequence: a mismatch among the
/// first 9 bytes is `BadMagic`, an unrecognized 10th byte is `BadVersion`,
/// and fewer than 10 bytes is `UnexpectedEof`.
pub open spec fn header_check(s: Seq<u8>) -> Result<(), MastError> {
    if s.len() < 10 {
        Err(MastError::UnexpectedEof)
    } else if s.take(9) != header_bytes().take(9) {
        Err(MastError::BadMagic)
    } else if s[9] != header_bytes()[9] {
        Err(MastError::BadVersion)
    } else {
        Ok(())
    }
}

/// The tag byte selecting a literal node; the letter `L`.
pub const TAG_LITERAL: u8 = 0x4c;

/// The tag byte selecting a pattern node; the letter `P`.
pub const TAG_PATTERN: u8 = 0x50;

/// The literal sub-tag of the null expression; the letter `N`.
pub const LIT_NULL: u8 = 0x4e;

/// The literal sub-tag of a character expression; the letter `C`.
pub const LIT_CHAR: u8 = 0x43;

/// The literal sub-tag of a double; the letter `D`. Recognized, not built.
pub const LIT_DOUBLE: u8 = 0x44;

/// The literal sub-tag of an integer; the letter `I`. Recognized, not built.
pub const LIT_INT: u8 = 0x49;

/// The literal sub-tag of a string; the letter `S`. Recognized, not built.
pub const LIT_STR: u8 = 0x53;

/// The position just after the varint that starts at `from`: one past the
/// first byte whose continuation bit is clear, or `None` when every byte to
/// the end has it set.
pub open spec fn varint_end(s: Seq<u8>, from: int) -> Option<int>
    decreases s.len() - from,
    when 0 <= from <= s.len()
{
    if from >= s.len() {
        None
    } else if s[from] < 0x80 {
        Some(from + 1)
    } else {
        varint_end(s, from + 1)
    }
}

/// An exclusively-owned, position-tracked cursor over the raw bytes of one
/// stream, consumed monotonically forward, with the primitive reads of the
/// format built on it.
pub struct MastReader {
    /// The whole stream, fully buffered.
    pub data: Vec<u8>,
    /// How many bytes have been consumed.
    pub pos: usize,
}

impl MastReader {
    /// The cursor never passes the end of the data.
    pub open spec fn wf(&self) -> bool {
        self.pos <= self.data@.len()
    }

    /// The bytes not yet consumed.
    pub open spec fn remaining(&self) -> Seq<u8> {
        self.data@.skip(self.pos as int)
    }

    /// A fresh reader over the given bytes.
    pub fn new(data: Vec<u8>) -> (r: MastReader)
        ensures
            r.wf(),
            r.data@ == data@,
            r.pos == 0,
    {
        MastReader { data, pos: 0 }
    }

    /// True exactly when the stream reports a clean end.
    pub fn at_end(&self) -> (r: bool)
        requires
            self.wf(),
        ensures
            r == (self.remaining().len() == 0),
    {
        self.pos == self.data.len()
    }

    /// Reads exactly `n` bytes; fails with `UnexpectedEof`, consuming
    /// nothing, when fewer are available.
    pub fn take_n_bytes(&mut self, n: usize) -> (r: Result<Vec<u8>, MastError>)
        requires
            old(self).wf(),
        ensures
            final(self).wf(),
            final(self).data@ == old(self).data@,
            if old(self).pos + n <= old(self).data@.len() {
                &&& r matches Ok(v)
                &&& v@ == old(self).data@.subrange(
                    old(self).pos as int,
                    old(self).pos + n,
                )
                &&& final(self).pos == old(self).pos + n
            } else {
                &&& r == Err::<Vec<u8>, MastError>(MastError::UnexpectedEof)
                &&& final(self).pos == old(self).pos
            },
    {
        if n > self.data.len() - self.pos {
            return Err(MastError::UnexpectedEof);
        }
        let end = self.pos + n;
        let mut v: Vec<u8> = Vec::new();
        let mut i = self.pos;
        proof {
            assert(self.data@.subrange(self.pos as int, self.pos as int) =~= Seq::<u8>::empty());
        }
        while i < end
            invariant
                self.wf(),
                self == old(self),
                self.pos <= i <= end,
                end == self.pos + n <= self.data@.len(),
                v@ == self.data@.subrange(self.pos as int, i as int),
            decreases end - i,
        {
            let b = self.data[i];
            v.push(b);
            proof {
                assert(self.data@.subrange(self.pos as int, i + 1) =~= self.data@.subrange(
                    self.pos as int,
                    i as int,
                ).push(self.data@[i as int]));
            }
            i = i + 1;
        }
        self.pos = end;
        Ok(v)
    }

    /// Reads one byte; fails with `UnexpectedEof` at the end of the stream.
    pub fn next_byte(&mut self) -> (r: Result<u8, MastError>)
        requires
            old(self).wf(),
        ensures
            final(self).wf(),
            final(self).data@ == old(self).data@,
            if old(self).pos < old(self).data@.len() {
                r == Ok::<u8, MastError>(old(self).data@[old(self).pos as int]) && final(self).pos
                    == old(self).pos + 1
            } else {
                r == Err::<u8, MastError>(MastError::UnexpectedEof) && final(self).pos == old(self).pos
            },
    {
        if self.pos < self.data.len() {
            let b = self.data[self.pos];
            self.pos = self.pos + 1;
            Ok(b)
        } else {
            Err(MastError::UnexpectedEof)
        }
    }

    /// Reads exactly `count` bytes, as [`Self::take_n_bytes`] does.
    pub fn next_bytes(&mut self, count: usize) -> (r: Result<Vec<u8>, MastError>)
        requires
            old(self).wf(),
        ensures
            final(self).wf(),
            final(self).data@ == old(self).data@,
            if old(self).pos + count <= old(self).data@.len() {
                &&& r matches Ok(v)
                &&& v@ == old(self).data@.subrange(
                    old(self).pos as int,
                    old(self).pos + count,
                )
                &&& final(self).pos == old(self).pos + count
            } else {
                &&& r == Err::<Vec<u8>, MastError>(MastError::UnexpectedEof)
                &&& final(self).pos == old(self).pos
            },
    {
        self.take_n_bytes(count)
    }

    /// Reads the 8 raw bytes of an IEEE-754 binary64 value. Reinterpreting
    /// them, in the format's one fixed byte order (little-endian), is left to
    /// the caller at the process edge: this library keeps floating point out
    /// of its verified core.
    pub fn next_double(&mut self) -> (r: Result<Vec<u8>, MastError>)
        requires
            old(self).wf(),
        ensures
            final(self).wf(),
            final(self).data@ == old(self).data@,
            if old(self).pos + 8 <= old(self).data@.len() {
                &&& r matches Ok(v)
                &&& v@ == old(self).data@.subrange(old(self).pos as int, old(self).pos + 8)
                &&& final(self).pos == old(self).pos + 8
            } else {
                &&& r == Err::<Vec<u8>, MastError>(MastError::UnexpectedEof)
                &&& final(self).pos == old(self).pos
            },
    {
        self.take_n_bytes(8)
    }

    /// Reads one varint: the low 7 bits of each byte contribute at bit
    /// offset `7 * group_index`, least-significant group first, and a clear
    /// high bit ends the value. There is no bound on the number of groups.
    /// Fails with `UnexpectedEof`, consuming the rest of the stream, when no
    /// byte with a clear high bit remains.
    pub fn next_varint(&mut self) -> (r: Result<UnsignedInt, MastError>)
        requires
            old(self).wf(),
        ensures
            final(self).wf(),
            final(self).data@ == old(self).data@,
            match varint_end(old(self).data@, old(self).pos as int) {
                Option::Some(e) => {
                    &&& r matches Ok(u)
                    &&& u.wf()
                    &&& u.value() == varint_value(
                        old(self).data@.subrange(old(self).pos as int, e),
                    )
                    &&& final(self).pos == e
                },
                Option::None => r == Err::<UnsignedInt, MastError>(MastError::UnexpectedEof)
                    && final(self).pos == old(self).data@.len(),
            },
    {
        let ghost data = self.data@;
        let ghost p0 = self.pos as int;
        let mut groups: Vec<u8> = Vec::new();
        proof {
            assert(data.subrange(p0, p0) =~= Seq::<u8>::empty());
            assert(varint_groups(data.subrange(p0, p0)) =~= Seq::<u8>::empty());
        }
        loop
            invariant
                self.wf(),
                self.data@ == data,
                data == old(self).data@,
                p0 == old(self).pos,
                0 <= p0 <= self.pos <= data.len(),
                groups@.len() == self.pos - p0,
                groups_wf(groups@),
                groups@ == varint_groups(data.subrange(p0, self.pos as int)),
                varint_end(data, p0) == varint_end(data, self.pos as int),
            decreases data.len() - self.pos,
        {
            let ghost pc = self.pos as int;
            match self.next_byte() {
                Err(_) => {
                    // The stream ran out with every byte's high bit set.
                    return Err(MastError::UnexpectedEof);
                },
                Ok(b) => {
                    let g = if b >= 0x80 {
                        b - 0x80
                    } else {
                        b
                    };
                    groups.push(g);
                    proof {
                        assert(data.subrange(p0, pc + 1) =~= data.subrange(p0, pc).push(
                            data[pc],
                        ));
                        assert(varint_groups(data.subrange(p0, pc + 1)) =~= varint_groups(
                            data.subrange(p0, pc),
                        ).push((data[pc] % 0x80) as u8));
                        assert(g == data[pc] % 0x80);
                    }
                    if b < 0x80 {
                        return Ok(UnsignedInt { groups });
                    }
                },
            }
        }
    }

    /// Reads a varint and narrows it to a 64-bit byte count; fails with
    /// `LengthOverflow` exactly when the value exceeds the 64-bit range.
    pub fn next_int(&mut self) -> (r: Result<u64, MastError>)
        requires
            old(self).wf(),
        ensures
            final(self).wf(),
            final(self).data@ == old(self).data@,
            match varint_end(old(self).data@, old(self).pos as int) {
                Option::Some(e) => final(self).pos == e && ({
                    let v = varint_value(old(self).data@.subrange(old(self).pos as int, e));
                    if v < 0x1_0000_0000_0000_0000nat {
                        r == Ok::<u64, MastError>(v as u64)
                    } else {
                        r == Err::<u64, MastError>(MastError::LengthOverflow)
                    }
                }),
                Option::None => r == Err::<u64, MastError>(MastError::UnexpectedEof) && final(self).pos == old(self).data@.len(),
            },
    {
        let u = match self.next_varint() {
            Ok(u) => u,
            Err(e) => {
                return Err(e);
            },
        };
        u.to_u64()
    }

    /// Reads a length-prefixed UTF-8 string: a varint byte count, then
    /// exactly that many bytes, validated as UTF-8. A count of zero yields
    /// the empty string without reading further. Fails with `LengthOverflow`
    /// on a count past the 64-bit range, `UnexpectedEof` when fewer bytes
    /// remain than the count asks for, and `InvalidUtf8` (carrying the first
    /// offset within the string's bytes at which validation failed) on
    /// malformed text.
    pub fn next_str(&mut self) -> (r: Result<String, MastError>)
        requires
            old(self).wf(),
        ensures
            final(self).wf(),
            final(self).data@ == old(self).data@,
            match varint_end(old(self).data@, old(self).pos as int) {
                Option::Some(e) => ({
                    let n = varint_value(old(self).data@.subrange(old(self).pos as int, e));
                    if n >= 0x1_0000_0000_0000_0000nat {
                        r == Err::<String, MastError>(MastError::LengthOverflow)
                            && final(self).pos == e
                    } else if e + n > old(self).data@.len() {
                        r == Err::<String, MastError>(MastError::UnexpectedEof) && final(self).pos
                            == e
                    } else {
                        let bs = old(self).data@.subrange(e, e + n);
                        &&& (r is Ok <==> valid_utf8(bs))
                        &&& final(self).pos == e + n
                        &&& (r matches Ok(text) ==> text@ == decode_utf8(bs))
                        &&& (r matches Err(err) ==> (err matches MastError::InvalidUtf8(off)
                            && partial_valid_utf8(bs, off as int) && !valid_first_scalar(
                            bs.skip(off as int),
                        )))
                    }
                }),
                Option::None => r == Err::<String, MastError>(MastError::UnexpectedEof) && final(self).pos == old(self).data@.len(),
            },
    {
        let n = match self.next_int() {
            Ok(n) => n,
            Err(e) => {
                return Err(e);
            },
        };
        if n == 0 {
            proof {
                assert(old(self).data@.subrange(self.pos as int, self.pos as int)
                    =~= Seq::<u8>::empty());
                assert(valid_utf8(Seq::<u8>::empty()));
                assert(decode_utf8(Seq::<u8>::empty()) =~= Seq::<char>::empty());
            }
            return Ok(String::new());
        }
        if n > (self.data.len() - self.pos) as u64 {
            return Err(MastError::UnexpectedEof);
        }
        let bytes = match self.take_n_bytes(n as usize) {
            Ok(v) => v,
            Err(e) => {
                return Err(e);
            },
        };
        match utf8_to_string(&bytes) {
            Ok(text) => Ok(text),
            Err(off) => Err(MastError::InvalidUtf8(off)),
        }
    }

    /// Reads one Unicode scalar with no length prefix: bytes accumulate one
    /// at a time until they form a complete scalar. A buffer that has not
    /// completed after 4 bytes (the widest scalar encoding) fails with
    /// `InvalidUtf8`; a stream that ends first fails with `UnexpectedEof`.
    pub fn next_char(&mut self) -> (r: Result<char, MastError>)
        requires
            old(self).wf(),
        ensures
            final(self).wf(),
            final(self).data@ == old(self).data@,
            ({
                let s = old(self).remaining();
                if valid_first_scalar(s) {
                    &&& r matches Ok(c)
                    &&& c as u32 == decode_first_scalar(s)
                    &&& final(self).pos == old(self).pos + length_of_first_scalar(s)
                } else if s.len() >= 4 {
                    &&& r == Err::<char, MastError>(MastError::InvalidUtf8(0))
                    &&& final(self).pos == old(self).pos + 4
                } else {
                    &&& r == Err::<char, MastError>(MastError::UnexpectedEof)
                    &&& final(self).pos == old(self).data@.len()
                }
            }),
    {
        let ghost s = old(self).remaining();
        let ghost p0 = self.pos as int;
        let mut buf: Vec<u8> = Vec::new();
        let b0 = match self.next_byte() {
            Ok(b) => b,
            Err(e) => {
                return Err(e);
            },
        };
        buf.push(b0);
        proof {
            assert(buf@ =~= s.take(1));
        }
        loop
            invariant
                self.wf(),
                self.data@ == old(self).data@,
                s == old(self).remaining(),
                p0 == old(self).pos,
                1 <= buf@.len() <= 4,
                self.pos == p0 + buf@.len(),
                self.pos <= self.data@.len(),
                buf@ == s.take(buf@.len() as int),
                valid_first_scalar(s) ==> length_of_first_scalar(s) >= buf@.len(),
            decreases 5 - buf@.len(),
        {
            match complete_scalar(&buf) {
                Some(c) => {
                    proof {
                        lemma_first_scalar_agree(buf@, s, buf@.len() as int);
                    }
                    return Ok(c);
                },
                None => {
                    proof {
                        if valid_first_scalar(s) && length_of_first_scalar(s) == buf@.len() {
                            lemma_first_scalar_agree(buf@, s, buf@.len() as int);
                        }
                    }
                    if buf.len() >= 4 {
                        return Err(MastError::InvalidUtf8(0));
                    }
                    let b = match self.next_byte() {
                        Ok(b) => b,
                        Err(e) => {
                            return Err(e);
                        },
                    };
                    buf.push(b);
                    proof {
                        assert(buf@ =~= s.take(buf@.len() as int));
                    }
                },
            }
        }
    }

    /// Validates the header: consumes exactly 10 bytes and accepts the
    /// stream only when the first 9 equal the magic signature and the 10th
    /// is the recognized version. Runs once, before any node is decoded.
    pub fn check_magic_numbers(&mut self) -> (r: Result<(), MastError>)
        requires
            old(self).wf(),
        ensures
            final(self).wf(),
            final(self).data@ == old(self).data@,
            r == header_check(old(self).remaining()),
            r is Ok ==> final(self).pos == old(self).pos + 10 && old(self).remaining().take(10)
                == header_bytes(),
            (r == Err::<(), MastError>(MastError::BadMagic) || r == Err::<(), MastError>(
                MastError::BadVersion,
            )) ==> final(self).pos == old(self).pos + 10,
            r == Err::<(), MastError>(MastError::UnexpectedEof) ==> final(self).pos == old(self).pos,
    {
        let ghost s = old(self).remaining();
        let v = match self.take_n_bytes(10) {
            Ok(v) => v,
            Err(e) => {
                return Err(e);
            },
        };
        proof {
            assert(forall|j: int| 0 <= j < 10 ==> v@[j] == s[j]);
            assert(header_bytes()[0] == 0x4d && header_bytes()[1] == 0x6f && header_bytes()[2]
                == 0x6e && header_bytes()[3] == 0x74 && header_bytes()[4] == 0xe0
                && header_bytes()[5] == 0x4d && header_bytes()[6] == 0x41 && header_bytes()[7]
                == 0x53 && header_bytes()[8] == 0x54 && header_bytes()[9] == 0x00);
        }
        if v[0] != 0x4d || v[1] != 0x6f || v[2] != 0x6e || v[3] != 0x74 || v[4] != 0xe0 || v[5]
            != 0x4d || v[6] != 0x41 || v[7] != 0x53 || v[8] != 0x54 {
            proof {
                assert(s.take(9) != header_bytes().take(9)) by {
                    if s.take(9) == header_bytes().take(9) {
                        assert(s.take(9)[0] == header_bytes().take(9)[0]);
                        assert(s.take(9)[1] == header_bytes().take(9)[1]);
                        assert(s.take(9)[2] == header_bytes().take(9)[2]);
                        assert(s.take(9)[3] == header_bytes().take(9)[3]);
                        assert(s.take(9)[4] == header_bytes().take(9)[4]);
                        assert(s.take(9)[5] == header_bytes().take(9)[5]);
                        assert(s.take(9)[6] == header_bytes().take(9)[6]);
                        assert(s.take(9)[7] == header_bytes().take(9)[7]);
                        assert(s.take(9)[8] == header_bytes().take(9)[8]);
                        assert(false);
                    }
                }
            }
            return Err(MastError::BadMagic);
        }
        proof {
            assert(s.take(9) =~= header_bytes().take(9));
        }
        if v[9] != 0x00 {
            return Err(MastError::BadVersion);
        }
        proof {
            assert(s.take(10) =~= header_bytes());
        }
        Ok(())
    }
}

/// The top-level tag bytes the format defines for higher-level expression
/// and pattern forms, none of which this decoder builds yet: the letters
/// `N B S C D e E O M R A F Y H I T X`.
pub open spec fn is_extension_tag(t: u8) -> bool {
    ||| t == 0x4e
    ||| t == 0x42
    ||| t == 0x53
    ||| t == 0x43
    ||| t == 0x44
    ||| t == 0x65
    ||| t == 0x45
    ||| t == 0x4f
    ||| t == 0x4d
    ||| t == 0x52
    ||| t == 0x41
    ||| t == 0x46
    ||| t == 0x59
    ||| t == 0x48
    ||| t == 0x49
    ||| t == 0x54
    ||| t == 0x58
}

/// The pattern sub-tag bytes the format defines: the letters `F I V L A B`.
/// Which named pattern each selects awaits the authoritative grammar.
pub open spec fn is_pattern_subtag(st: u8) -> bool {
    st == 0x46 || st == 0x49 || st == 0x56 || st == 0x4c || st == 0x41 || st == 0x42
}

/// What one dispatch step yields on the remaining bytes: a node together
/// with the count of bytes its encoding took, or a fatal error.
pub enum Dispatch {
    /// Exactly one node built, appended to the expression table.
    Built(Expression, int),
    /// The fatal error this step raises; the tables stay unchanged.
    Abort(MastError),
}

/// Dispatch under the literal tag: the sub-tag selects a null, a character,
/// or one of the literal forms this decoder does not build yet.
pub open spec fn dispatch_literal(s: Seq<u8>) -> Dispatch
    recommends
        s.len() >= 1,
        s[0] == TAG_LITERAL,
{
    if s.len() < 2 {
        Dispatch::Abort(MastError::UnexpectedEof)
    } else {
        let st = s[1];
        if st == LIT_NULL {
            Dispatch::Built(Expression::Null(NullExpr), 2)
        } else if st == LIT_CHAR {
            let rest = s.skip(2);
            if valid_first_scalar(rest) {
                Dispatch::Built(
                    Expression::Character((CharExpr { expr: decode_first_scalar(rest) as char })),
                    2 + length_of_first_scalar(rest),
                )
            } else if rest.len() >= 4 {
                Dispatch::Abort(MastError::InvalidUtf8(0))
            } else {
                Dispatch::Abort(MastError::UnexpectedEof)
            }
        } else if st == LIT_DOUBLE || st == LIT_INT || st == LIT_STR {
            Dispatch::Abort(MastError::Unsupported(s[0], Option::Some(st)))
        } else {
            Dispatch::Abort(MastError::MalformedTag(s[0], st))
        }
    }
}

/// Dispatch under the pattern tag: every defined sub-tag is a form this
/// decoder does not build yet; anything else is corruption.
pub open spec fn dispatch_pattern(s: Seq<u8>) -> Dispatch
    recommends
        s.len() >= 1,
        s[0] == TAG_PATTERN,
{
    if s.len() < 2 {
        Dispatch::Abort(MastError::UnexpectedEof)
    } else if is_pattern_subtag(s[1]) {
        Dispatch::Abort(MastError::Unsupported(s[0], Option::Some(s[1])))
    } else {
        Dispatch::Abort(MastError::MalformedTag(s[0], s[1]))
    }
}

/// What decoding one tagged node from the remaining bytes yields.
pub open spec fn dispatch(s: Seq<u8>) -> Dispatch {
    if s.len() == 0 {
        Dispatch::Abort(MastError::UnexpectedEof)
    } else if s[0] == TAG_LITERAL {
        dispatch_literal(s)
    } else if s[0] == TAG_PATTERN {
        dispatch_pattern(s)
    } else if is_extension_tag(s[0]) {
        Dispatch::Abort(MastError::Unsupported(s[0], Option::None))
    } else {
        Dispatch::Abort(MastError::UnknownTag(s[0]))
    }
}

/// What one successful dispatch step reports for an external trace logger:
/// the tag byte, the count of stream bytes consumed, and the index the new
/// node took in the expression table.
pub struct DecodeStep {
    /// The tag byte that selected the node kind.
    pub tag: u8,
    /// How many bytes the node's whole encoding took.
    pub consumed: usize,
    /// The index of the appended node in the expression table.
    pub index: usize,
}

/// One decode session: the byte source, the two append-only node tables and
/// the diagnostics toggle, created once per input stream and never reused.
pub struct Context {
    /// Report per-step diagnostics? The core only carries the toggle;
    /// rendering and destination belong to the caller.
    pub noisy: bool,
    /// The byte source, owned for the session's whole lifetime.
    pub stream: MastReader,
    /// The append-only expression table; node indices stay stable.
    pub expers: Vec<Expression>,
    /// The append-only pattern table; node indices stay stable.
    pub patts: Vec<FinalPattern>,
}

impl Context {
    /// The session's cursor stays within its stream.
    pub open spec fn wf(&self) -> bool {
        self.stream.wf()
    }

    /// The bytes not yet consumed.
    pub open spec fn remaining(&self) -> Seq<u8> {
        self.stream.remaining()
    }

    /// A fresh session over the given bytes, with empty node tables.
    pub fn new(n: bool, data: Vec<u8>) -> (r: Context)
        ensures
            r.wf(),
            r.noisy == n,
            r.stream.data@ == data@,
            r.stream.pos == 0,
            r.expers@ == Seq::<Expression>::empty(),
            r.patts@ == Seq::<FinalPattern>::empty(),
    {
        Context { noisy: n, stream: MastReader::new(data), expers: Vec::new(), patts: Vec::new() }
    }

    /// The decoded program root: the index of the last node appended to the
    /// expression table, if any node has been.
    pub fn root(&self) -> (r: Option<usize>)
        ensures
            r is Some <==> self.expers@.len() > 0,
            r matches Some(i) ==> i == self.expers@.len() - 1,
    {
        if self.expers.len() > 0 {
            Some(self.expers.len() - 1)
        } else {
            None
        }
    }

    /// Reads one tag byte and decodes one node from the stream. A successful
    /// call appends exactly one node to exactly one table and reports the
    /// step; a failing call leaves both tables unchanged.
    pub fn decode_next_tag(&mut self) -> (r: Result<DecodeStep, MastError>)
        requires
            old(self).wf(),
        ensures
            final(self).wf(),
            final(self).stream.data@ == old(self).stream.data@,
            final(self).noisy == old(self).noisy,
            final(self).patts@ == old(self).patts@,
            old(self).stream.pos <= final(self).stream.pos,
            match dispatch(old(self).remaining()) {
                Dispatch::Built(node, n) => {
                    &&& r matches Ok(step)
                    &&& final(self).expers@ == old(self).expers@.push(node)
                    &&& final(self).stream.pos == old(self).stream.pos + n
                    &&& n >= 2
                    &&& step.tag == old(self).remaining()[0]
                    &&& step.consumed == n
                    &&& step.index == old(self).expers@.len()
                },
                Dispatch::Abort(e) => {
                    &&& r == Err::<DecodeStep, MastError>(e)
                    &&& final(self).expers@ == old(self).expers@
                },
            },
    {
        let ghost s = old(self).remaining();
        let start = self.stream.pos;
        let tag = match self.stream.next_byte() {
            Ok(b) => b,
            Err(e) => {
                return Err(e);
            },
        };
        proof {
            assert(s[0] == tag);
        }
        if tag == TAG_LITERAL {
            let sub = match self.stream.next_byte() {
                Ok(b) => b,
                Err(e) => {
                    return Err(e);
                },
            };
            proof {
                assert(s[1] == sub);
            }
            if sub == LIT_NULL {
                self.expers.push(Expression::Null(NullExpr));
                Ok(DecodeStep { tag, consumed: 2, index: self.expers.len() - 1 })
            } else if sub == LIT_CHAR {
                proof {
                    assert(self.stream.remaining() =~= s.skip(2));
                }
                match self.stream.next_char() {
                    Ok(c) => {
                        proof {
                            char_u32_cast(c, decode_first_scalar(s.skip(2)));
                        }
                        self.expers.push(Expression::Character(CharExpr::new(c)));
                        let consumed = self.stream.pos - start;
                        Ok(DecodeStep { tag, consumed, index: self.expers.len() - 1 })
                    },
                    Err(e) => Err(e),
                }
            } else if sub == LIT_DOUBLE || sub == LIT_INT || sub == LIT_STR {
                Err(MastError::Unsupported(tag, Some(sub)))
            } else {
                Err(MastError::MalformedTag(tag, sub))
            }
        } else if tag == TAG_PATTERN {
            let sub = match self.stream.next_byte() {
                Ok(b) => b,
                Err(e) => {
                    return Err(e);
                },
            };
            proof {
                assert(s[1] == sub);
            }
            if sub == 0x46 || sub == 0x49 || sub == 0x56 || sub == 0x4c || sub == 0x41 || sub
                == 0x42 {
                Err(MastError::Unsupported(tag, Some(sub)))
            } else {
                Err(MastError::MalformedTag(tag, sub))
            }
        } else if tag == 0x4e || tag == 0x42 || tag == 0x53 || tag == 0x43 || tag == 0x44 || tag
            == 0x65 || tag == 0x45 || tag == 0x4f || tag == 0x4d || tag == 0x52 || tag == 0x41
            || tag == 0x46 || tag == 0x59 || tag == 0x48 || tag == 0x49 || tag == 0x54 || tag
            == 0x58 {
            Err(MastError::Unsupported(tag, None))
        } else {
            Err(MastError::UnknownTag(tag))
        }
    }
}

/// What decoding the whole tag stream (everything after the header) yields:
/// the expression table in append order, or the first fatal error.
pub open spec fn run_spec(s: Seq<u8>) -> Result<Seq<Expression>, MastError>
    decreases s.len(),
{
    if s.len() == 0 {
        Ok(Seq::empty())
    } else {
        match dispatch(s) {
            Dispatch::Built(node, n) => match run_spec(s.skip(n)) {
                Ok(rest) => Ok(seq![node] + rest),
                Err(e) => Err(e),
            },
            Dispatch::Abort(e) => Err(e),
        }
    }
}

/// What decoding a whole stream yields: header validation, then the tag
/// stream. Decoding is all-or-nothing; any failure discards everything.
pub open spec fn load_spec(s: Seq<u8>) -> Result<Seq<Expression>, MastError> {
    match header_check(s) {
        Ok(_) => run_spec(s.skip(10)),
        Err(e) => Err(e),
    }
}

/// Decodes a complete MAST stream: validates the header, then decodes nodes
/// until the clean end of the stream, and returns the finished session with
/// its node tables. Any failure anywhere aborts the whole session instead.
#[verifier::loop_isolation(false)]
pub fn load(data: Vec<u8>) -> (r: Result<Context, MastError>)
    ensures
        match load_spec(data@) {
            Ok(nodes) => {
                &&& r matches Ok(ctx)
                &&& ctx.expers@ == nodes
                &&& ctx.patts@.len() == 0
                &&& ctx.stream.data@ == data@
                &&& ctx.stream.pos == data@.len()
            },
            Err(e) => r == Err::<Context, MastError>(e),
        },
{
    let ghost d = data@;
    let mut ctx = Context::new(true, data);
    proof {
        assert(ctx.stream.remaining() =~= d);
    }
    match ctx.stream.check_magic_numbers() {
        Ok(_) => {},
        Err(e) => {
            return Err(e);
        },
    }
    proof {
        assert(d.skip(0) =~= d);
        assert(d.skip(ctx.stream.pos as int) =~= d.skip(10));
    }
    while !ctx.stream.at_end()
        invariant
            ctx.wf(),
            ctx.stream.data@ == d,
            ctx.patts@.len() == 0,
            header_check(d) is Ok,
            match run_spec(d.skip(ctx.stream.pos as int)) {
                Ok(rest) => run_spec(d.skip(10)) == Ok::<Seq<Expression>, MastError>(
                    ctx.expers@ + rest,
                ),
                Err(e2) => run_spec(d.skip(10)) == Err::<Seq<Expression>, MastError>(e2),
            },
        decreases d.len() - ctx.stream.pos,
    {
        let ghost pos_old = ctx.stream.pos as int;
        let ghost expers_old = ctx.expers@;
        let ghost rem_old = d.skip(pos_old);
        match ctx.decode_next_tag() {
            Ok(_step) => {
                proof {
                    match dispatch(rem_old) {
                        Dispatch::Built(node, n) => {
                            assert(d.skip(ctx.stream.pos as int) =~= rem_old.skip(n));
                            match run_spec(rem_old.skip(n)) {
                                Ok(rest) => {
                                    assert(expers_old + (seq![node] + rest) =~= (
                                    expers_old.push(node)) + rest);
                                },
                                Err(_) => {},
                            }
                        },
                        Dispatch::Abort(_) => {
                            assert(false);
                        },
                    }
                }
            },
            Err(e) => {
                proof {
                    assert(rem_old.len() > 0);
                    match dispatch(rem_old) {
                        Dispatch::Built(_, _) => {
                            assert(false);
                        },
                        Dispatch::Abort(_) => {},
                    }
                }
                return Err(e);
            },
        }
    }
    proof {
        assert(d.skip(ctx.stream.pos as int).len() == 0);
        assert(run_spec(d.skip(ctx.stream.pos as int)) == Ok::<Seq<Expression>, MastError>(
            Seq::empty(),
        ));
        assert(ctx.expers@ + Seq::<Expression>::empty() =~= ctx.expers@);
    }
    Ok(ctx)
}

/// An accepted stream opens with exactly the fixed magic signature and
/// version: header validation passes only on those 10 bytes.
pub proof fn lemma_accepted_header(s: Seq<u8>)
    requires
        header_check(s) is Ok,
    ensures
        s.len() >= 10,
        s.take(10) == header_bytes(),
{
    assert(s.take(10) =~= header_bytes());
}

/// Any stream whose first 10 bytes differ anywhere from the fixed magic and
/// version sequence is rejected outright with `BadMagic` or `BadVersion`, so
/// no node of it is ever decoded.
pub proof fn lemma_header_exactness(s: Seq<u8>, i: int)
    requires
        s.len() >= 10,
        0 <= i < 10,
        s[i] != header_bytes()[i],
    ensures
        load_spec(s) == Err::<Seq<Expression>, MastError>(MastError::BadMagic) || load_spec(s)
            == Err::<Seq<Expression>, MastError>(MastError::BadVersion),
{
    if i < 9 {
        assert(s.take(9)[i] != header_bytes().take(9)[i]);
        assert(s.take(9) != header_bytes().take(9));
    }
}

} // verus!

