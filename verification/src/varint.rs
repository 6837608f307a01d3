//! Arbitrary-precision non-negative integers and their varint encoding.
//!
//! A varint stores an unbounded non-negative integer as a sequence of bytes,
//! least-significant group first: the low 7 bits of each byte contribute to
//! the value at bit offset `7 * group_index`, and a set high bit (`0x80`)
//! means another group follows. There is no upper bound on the number of
//! groups, so decoded values may exceed 64 bits.

use vstd::prelude::*;

use crate::errors::MastError;

verus! {

/// The value of a little-endian sequence of base-128 digit groups.
pub open spec fn groups_value(g: Seq<u8>) -> nat
    decreases g.len(),
{
    if g.len() == 0 {
        0
    } else {
        g[0] as nat + 128 * groups_value(g.drop_first())
    }
}

/// Every group carries at most 7 bits.
pub open spec fn groups_wf(g: Seq<u8>) -> bool {
    forall|i: int| 0 <= i < g.len() ==> g[i] < 128
}

/// True when the bytes form exactly one complete varint: every byte but the
/// last has its continuation bit (`0x80`) set, and the last has it clear.
pub open spec fn is_varint(s: Seq<u8>) -> bool {
    &&& s.len() >= 1
    &&& forall|i: int| 0 <= i < s.len() - 1 ==> s[i] >= 0x80
    &&& s[s.len() - 1] < 0x80
}

/// The 7 payload bits of each byte of a varint, least-significant group first.
pub open spec fn varint_groups(s: Seq<u8>) -> Seq<u8> {
    s.map_values(|b: u8| (b % 0x80) as u8)
}

/// The non-negative integer a varint encodes.
pub open spec fn varint_value(s: Seq<u8>) -> nat {
    groups_value(varint_groups(s))
}

/// The canonical varint encoding of a value.
pub open spec fn spec_encode_varint(v: nat) -> Seq<u8>
    decreases v,
{
    if v < 128 {
        seq![v as u8]
    } else {
        seq![(v % 128 + 128) as u8] + spec_encode_varint(v / 128)
    }
}

/// 128 raised to the given power.
pub open spec fn pow128(n: nat) -> nat
    decreases n,
{
    if n == 0 {
        1
    } else {
        128 * pow128((n - 1) as nat)
    }
}

/// Appending a group adds its value scaled by 128 to the power of the old
/// length.
proof fn lemma_groups_value_push(g: Seq<u8>, d: u8)
    ensures
        groups_value(g.push(d)) == groups_value(g) + d * pow128(g.len()),
    decreases g.len(),
{
    if g.len() == 0 {
        assert(g.push(d) =~= seq![d]);
        assert(g.push(d).drop_first() =~= Seq::<u8>::empty());
        assert(groups_value(g.push(d).drop_first()) == 0);
        assert(groups_value(g.push(d)) == d as nat + 128 * groups_value(g.push(d).drop_first()));
        assert(d * pow128(0) == d) by (nonlinear_arith)
            requires
                pow128(0) == 1,
        ;
    } else {
        assert(g.push(d).drop_first() =~= g.drop_first().push(d));
        lemma_groups_value_push(g.drop_first(), d);
        assert(groups_value(g.push(d)) == g[0] + 128 * groups_value(g.drop_first().push(d)));
        assert(pow128(g.len()) == 128 * pow128((g.len() - 1) as nat));
        assert(128 * (groups_value(g.drop_first()) + d * pow128((g.len() - 1) as nat))
            == 128 * groups_value(g.drop_first()) + d * (128 * pow128((g.len() - 1) as nat)))
            by (nonlinear_arith);
    }
}

/// A sequence of 7-bit groups encodes a value below 128 to the power of its
/// length.
proof fn lemma_groups_value_bound(g: Seq<u8>)
    requires
        groups_wf(g),
    ensures
        groups_value(g) < pow128(g.len()),
    decreases g.len(),
{
    if g.len() > 0 {
        lemma_groups_value_bound(g.drop_first());
        assert(128 * groups_value(g.drop_first()) <= 128 * (pow128((g.len() - 1) as nat) - 1))
            by (nonlinear_arith)
            requires
                groups_value(g.drop_first()) <= pow128((g.len() - 1) as nat) - 1,
        ;
    }
}

/// The whole value is at least any single group's contribution.
proof fn lemma_groups_value_lower(g: Seq<u8>, i: int)
    requires
        0 <= i < g.len(),
    ensures
        groups_value(g) >= g[i] * pow128(i as nat),
    decreases i,
{
    if i == 0 {
        assert(g[0] * pow128(0) == g[0]) by (nonlinear_arith);
    } else {
        lemma_groups_value_lower(g.drop_first(), i - 1);
        assert(128 * groups_value(g.drop_first()) >= 128 * (g[i] * pow128((i - 1) as nat)))
            by (nonlinear_arith)
            requires
                groups_value(g.drop_first()) >= g[i] * pow128((i - 1) as nat),
        ;
        assert(128 * (g[i] * pow128((i - 1) as nat)) == g[i] * (128 * pow128((i - 1) as nat)))
            by (nonlinear_arith);
    }
}

/// 128 to a power never shrinks as the exponent grows.
proof fn lemma_pow128_increases(i: nat, j: nat)
    requires
        i <= j,
    ensures
        pow128(i) <= pow128(j),
    decreases j,
{
    if i < j {
        lemma_pow128_increases(i, (j - 1) as nat);
        assert(pow128((j - 1) as nat) <= 128 * pow128((j - 1) as nat)) by (nonlinear_arith)
            requires
                pow128((j - 1) as nat) >= 0,
        ;
    }
}

/// Dropping an all-zero suffix of groups leaves the value unchanged.
proof fn lemma_groups_value_drop_zeros(g: Seq<u8>, n: int)
    requires
        0 <= n <= g.len(),
        forall|i: int| n <= i < g.len() ==> g[i] == 0,
    ensures
        groups_value(g) == groups_value(g.take(n)),
    decreases g.len(),
{
    if n == 0 {
        assert(g.take(0) =~= Seq::<u8>::empty());
        lemma_groups_value_all_zero(g);
    } else if g.len() > 0 {
        assert(g.take(n).drop_first() =~= g.drop_first().take(n - 1));
        lemma_groups_value_drop_zeros(g.drop_first(), n - 1);
    }
}

/// A sequence of zero groups has value zero.
proof fn lemma_groups_value_all_zero(g: Seq<u8>)
    requires
        forall|i: int| 0 <= i < g.len() ==> g[i] == 0,
    ensures
        groups_value(g) == 0,
    decreases g.len(),
{
    if g.len() > 0 {
        lemma_groups_value_all_zero(g.drop_first());
    }
}

/// Encoding any non-negative integer as continuation-bit groups and decoding
/// the result yields the integer back, whatever its size.
pub proof fn lemma_varint_round_trip(v: nat)
    ensures
        is_varint(spec_encode_varint(v)),
        varint_value(spec_encode_varint(v)) == v,
    decreases v,
{
    if v < 128 {
        let e = spec_encode_varint(v);
        assert(e =~= seq![v as u8]);
        assert(varint_groups(e).len() == 1);
        assert(varint_groups(e)[0] == (v as u8) % 0x80);
        assert(varint_groups(e)[0] == v);
        assert(varint_groups(e).drop_first() =~= Seq::<u8>::empty());
        assert(groups_value(varint_groups(e)) == varint_groups(e)[0] as nat + 128 * groups_value(
            varint_groups(e).drop_first(),
        ));
    } else {
        lemma_varint_round_trip(v / 128);
        let e = spec_encode_varint(v);
        let rest = spec_encode_varint(v / 128);
        assert(e == seq![(v % 128 + 128) as u8] + rest);
        assert(e[0] == (v % 128 + 128) as u8);
        assert(e[0] >= 0x80);
        assert(e[e.len() - 1] == rest[rest.len() - 1]);
        assert(forall|i: int| 0 < i < e.len() - 1 ==> e[i] == rest[i - 1] && e[i] >= 0x80);
        assert(is_varint(e));
        assert(varint_groups(e).drop_first() =~= varint_groups(rest));
        assert(varint_groups(e)[0] == (v % 128 + 128) as u8 % 0x80);
        assert(varint_groups(e)[0] == v % 128);
        assert(groups_value(varint_groups(e)) == varint_groups(e)[0] as nat + 128 * groups_value(
            varint_groups(e).drop_first(),
        ));
        assert(groups_value(varint_groups(e)) == v % 128 + 128 * (v / 128));
    }
}

/// An arbitrary-precision non-negative integer, stored as base-128 digit
/// groups, least significant first. No sign is defined anywhere in the
/// format's observed usages.
pub struct UnsignedInt {
    /// The digit groups; each holds 7 bits.
    pub groups: Vec<u8>,
}

impl UnsignedInt {
    /// Every group is below 128.
    pub open spec fn wf(&self) -> bool {
        groups_wf(self.groups@)
    }

    /// The integer this value stands for.
    pub open spec fn value(&self) -> nat {
        groups_value(self.groups@)
    }

    /// Builds the integer with the given 64-bit value.
    pub fn from_u64(x: u64) -> (r: UnsignedInt)
        ensures
            r.wf(),
            r.value() == x,
    {
        let mut groups: Vec<u8> = Vec::new();
        let mut rem: u64 = x;
        proof {
            assert(groups_value(groups@) == 0);
            assert(rem * pow128(0) == rem) by (nonlinear_arith)
                requires
                    pow128(0) == 1,
            ;
        }
        while rem >= 128
            invariant
                groups_wf(groups@),
                groups_value(groups@) + rem * pow128(groups@.len()) == x,
            decreases rem,
        {
            let d: u8 = (rem % 128) as u8;
            let q: u64 = rem / 128;
            proof {
                lemma_groups_value_push(groups@, d);
                assert(q * (128 * pow128(groups@.len())) == 128 * q * pow128(groups@.len()))
                    by (nonlinear_arith);
                assert((128 * q + d) * pow128(groups@.len())
                    == 128 * q * pow128(groups@.len()) + d * pow128(groups@.len()))
                    by (nonlinear_arith);
            }
            groups.push(d);
            rem = q;
        }
        proof {
            lemma_groups_value_push(groups@, rem as u8);
        }
        groups.push(rem as u8);
        UnsignedInt { groups }
    }

    /// Narrows the integer to 64 bits; fails with `LengthOverflow` exactly
    /// when the value does not fit.
    pub fn to_u64(&self) -> (r: Result<u64, MastError>)
        requires
            self.wf(),
        ensures
            r matches Ok(x) ==> x == self.value(),
            r is Ok <==> self.value() < 0x1_0000_0000_0000_0000nat,
            r is Err ==> r == Err::<u64, MastError>(MastError::LengthOverflow),
    {
        let g = &self.groups;
        let mut acc: u64 = 0;
        let mut p: u64 = 1;
        let mut i: usize = 0;
        proof {
            assert(g@.take(0) =~= Seq::<u8>::empty());
        }
        while i < g.len()
            invariant
                self.wf(),
                g == &self.groups,
                i <= g@.len(),
                acc == groups_value(g@.take(i as int)),
                i <= 9 ==> p == pow128(i as nat),
            decreases g@.len() - i,
        {
            let b = g[i];
            proof {
                assert(g@.take(i + 1) =~= g@.take(i as int).push(g@[i as int]));
                lemma_groups_value_push(g@.take(i as int), g@[i as int]);
                assert(groups_wf(g@.take(i as int)));
                lemma_groups_value_bound(g@.take(i as int));
                lemma_pow128_unfold_to_ten();
            }
            if b != 0 {
                if i > 9 {
                    proof {
                        lemma_groups_value_lower(g@, i as int);
                        lemma_pow128_increases(10, i as nat);
                        assert(g@[i as int] * pow128(i as nat) >= 1 * pow128(i as nat))
                            by (nonlinear_arith)
                            requires
                                g@[i as int] >= 1,
                                pow128(i as nat) >= 0,
                        ;
                    }
                    return Err(MastError::LengthOverflow);
                }
                if i == 9 && b > 1 {
                    proof {
                        lemma_groups_value_lower(g@, i as int);
                        assert(g@[i as int] * pow128(9) >= 2 * pow128(9)) by (nonlinear_arith)
                            requires
                                g@[i as int] >= 2,
                                pow128(9) >= 0,
                        ;
                    }
                    return Err(MastError::LengthOverflow);
                }
                proof {
                    if i == 9 {
                        assert(g@[i as int] <= 1);
                        assert(g@[i as int] * pow128(9) <= 1 * pow128(9)) by (nonlinear_arith)
                            requires
                                g@[i as int] <= 1,
                                pow128(9) >= 0,
                        ;
                    } else {
                        lemma_pow128_increases((i + 1) as nat, 9);
                        assert(g@[i as int] * pow128(i as nat) <= 127 * pow128(i as nat))
                            by (nonlinear_arith)
                            requires
                                g@[i as int] <= 127,
                                pow128(i as nat) >= 0,
                        ;
                        assert(pow128(i as nat) + 127 * pow128(i as nat)
                            == 128 * pow128(i as nat)) by (nonlinear_arith);
                    }
                }
                acc = acc + (b as u64) * p;
            }
            proof {
                if b == 0 {
                    assert(g@[i as int] * pow128(i as nat) == 0) by (nonlinear_arith)
                        requires
                            g@[i as int] == 0,
                    ;
                    assert(acc == groups_value(g@.take(i + 1)));
                }
            }
            i = i + 1;
            if i <= 9 {
                proof {
                    lemma_pow128_unfold_to_ten();
                    lemma_pow128_increases(i as nat, 9);
                }
                p = p * 128;
            }
        }
        proof {
            assert(g@.take(g@.len() as int) =~= g@);
        }
        Ok(acc)
    }

    /// Encodes the integer as continuation-bit groups: all groups up to the
    /// last non-zero one, each with the high bit set except the final byte.
    pub fn encode(&self) -> (r: Vec<u8>)
        requires
            self.wf(),
        ensures
            is_varint(r@),
            varint_value(r@) == self.value(),
    {
        let g = &self.groups;
        // Find the length once all-zero trailing groups are dropped.
        let mut n: usize = g.len();
        while n > 0 && g[n - 1] == 0
            invariant
                g == &self.groups,
                n <= g@.len(),
                forall|i: int| n <= i < g@.len() ==> g@[i] == 0,
            decreases n,
        {
            n = n - 1;
        }
        proof {
            lemma_groups_value_drop_zeros(g@, n as int);
        }
        if n == 0 {
            let mut out: Vec<u8> = Vec::new();
            out.push(0);
            proof {
                assert(g@.take(0) =~= Seq::<u8>::empty());
                assert(varint_groups(out@) =~= seq![0u8]);
                assert(varint_groups(out@).drop_first() =~= Seq::<u8>::empty());
                assert(groups_value(varint_groups(out@)) == 0);
            }
            return out;
        }
        let mut out: Vec<u8> = Vec::new();
        let mut i: usize = 0;
        while i < n - 1
            invariant
                g == &self.groups,
                self.wf(),
                0 < n <= g@.len(),
                i <= n - 1,
                out@.len() == i,
                forall|j: int| 0 <= j < i ==> out@[j] == g@[j] + 0x80,
            decreases n - i,
        {
            out.push(g[i] + 0x80);
            i = i + 1;
        }
        out.push(g[n - 1]);
        proof {
            assert(varint_groups(out@) =~= g@.take(n as int));
        }
        out
    }
}

/// Spells out 128 to each power up to ten, for the 64-bit narrowing bounds.
proof fn lemma_pow128_unfold_to_ten()
    ensures
        pow128(8) == 0x100_0000_0000_0000,
        pow128(9) == 0x8000_0000_0000_0000,
        pow128(10) == 0x40_0000_0000_0000_0000,
{
    reveal_with_fuel(pow128, 11);
}

} // verus!
