//! Byte-level encodings: little-/big-endian integers, byte comparison and
//! concatenation helpers shared by the serialisers.
use vstd::prelude::*;

verus! {

/// The unsigned integer denoted by `s` read little-endian (first byte least significant).
pub open spec fn le_nat(s: Seq<u8>) -> nat
    decreases s.len(),
{
    if s.len() == 0 {
        0
    } else {
        s[0] as nat + 256 * le_nat(s.drop_first())
    }
}

/// Little-endian encodings of equal length and equal value are equal.
pub proof fn lemma_le_nat_injective(a: Seq<u8>, b: Seq<u8>)
    requires
        a.len() == b.len(),
        le_nat(a) == le_nat(b),
    ensures
        a == b,
    decreases a.len(),
{
    if a.len() > 0 {
        lemma_le_nat_injective(a.drop_first(), b.drop_first());
        assert(a =~= seq![a[0]] + a.drop_first());
        assert(b =~= seq![b[0]] + b.drop_first());
    }
}

} // verus!

verus! {

/// The eight little-endian bytes of `x` (`u64::to_le_bytes`).
pub open spec fn u64_le(x: u64) -> Seq<u8> {
    Seq::new(8, |j: int| ((x >> (8 * j) as u64) & 0xff) as u8)
}

/// The eight big-endian bytes of `x` (`u64::to_be_bytes`).
pub open spec fn u64_be(x: u64) -> Seq<u8> {
    Seq::new(8, |j: int| ((x >> (8 * (7 - j)) as u64) & 0xff) as u8)
}

/// The four little-endian bytes of `x` (`u32::to_le_bytes`).
pub open spec fn u32_le(x: u32) -> Seq<u8> {
    Seq::new(4, |j: int| ((x >> (8 * j) as u32) & 0xff) as u8)
}

/// The integer whose little-endian bytes are `b` (`u32::from_le_bytes`).
pub open spec fn u32_of_le(b: Seq<u8>) -> u32 {
    (b[0] as u32) | ((b[1] as u32) << 8) | ((b[2] as u32) << 16) | ((b[3] as u32) << 24)
}

/// `u64::to_le_bytes`.
pub fn u64_to_le_bytes(x: u64) -> (r: [u8; 8])
    ensures
        r@ == u64_le(x),
{
    let r = [
        (x & 0xff) as u8,
        ((x >> 8) & 0xff) as u8,
        ((x >> 16) & 0xff) as u8,
        ((x >> 24) & 0xff) as u8,
        ((x >> 32) & 0xff) as u8,
        ((x >> 40) & 0xff) as u8,
        ((x >> 48) & 0xff) as u8,
        ((x >> 56) & 0xff) as u8,
    ];
    assert(x == x >> 0u64) by (bit_vector);
    assert(r@ =~= u64_le(x));
    r
}

/// `u64::to_be_bytes`.
pub fn u64_to_be_bytes(x: u64) -> (r: [u8; 8])
    ensures
        r@ == u64_be(x),
{
    let r = [
        ((x >> 56) & 0xff) as u8,
        ((x >> 48) & 0xff) as u8,
        ((x >> 40) & 0xff) as u8,
        ((x >> 32) & 0xff) as u8,
        ((x >> 24) & 0xff) as u8,
        ((x >> 16) & 0xff) as u8,
        ((x >> 8) & 0xff) as u8,
        (x & 0xff) as u8,
    ];
    assert(x == x >> 0u64) by (bit_vector);
    assert(r@ =~= u64_be(x));
    r
}

/// `u32::to_le_bytes`.
pub fn u32_to_le_bytes(x: u32) -> (r: [u8; 4])
    ensures
        r@ == u32_le(x),
{
    let r = [
        (x & 0xff) as u8,
        ((x >> 8) & 0xff) as u8,
        ((x >> 16) & 0xff) as u8,
        ((x >> 24) & 0xff) as u8,
    ];
    assert(x == x >> 0u32) by (bit_vector);
    assert(r@ =~= u32_le(x));
    r
}

/// `u32::from_le_bytes`.
pub fn u32_from_le_bytes(b: &[u8; 4]) -> (r: u32)
    ensures
        r == u32_of_le(b@),
{
    (b[0] as u32) | ((b[1] as u32) << 8) | ((b[2] as u32) << 16) | ((b[3] as u32) << 24)
}

/// Reading back the little-endian bytes of a `u32` gives the integer.
pub proof fn lemma_u32_le_roundtrip(x: u32)
    ensures
        u32_of_le(u32_le(x)) == x,
{
    let b = u32_le(x);
    assert(x >> 0u32 == x) by (bit_vector);
    let b0 = b[0];
    let b1 = b[1];
    let b2 = b[2];
    let b3 = b[3];
    assert(b0 == (x & 0xff) as u8);
    assert(b1 == ((x >> 8) & 0xff) as u8);
    assert(b2 == ((x >> 16) & 0xff) as u8);
    assert(b3 == ((x >> 24) & 0xff) as u8);
    assert((b0 as u32) | ((b1 as u32) << 8) | ((b2 as u32) << 16) | ((b3 as u32) << 24) == x)
        by (bit_vector)
        requires
            b0 == (x & 0xff) as u8,
            b1 == ((x >> 8) & 0xff) as u8,
            b2 == ((x >> 16) & 0xff) as u8,
            b3 == ((x >> 24) & 0xff) as u8,
    ;
}

/// The eight bytes of `u64_be(x)`, most significant first.
proof fn lemma_u64_be_bytes(x: u64)
    ensures
        u64_be(x)[0] == ((x >> 56u64) & 0xff) as u8,
        u64_be(x)[1] == ((x >> 48u64) & 0xff) as u8,
        u64_be(x)[2] == ((x >> 40u64) & 0xff) as u8,
        u64_be(x)[3] == ((x >> 32u64) & 0xff) as u8,
        u64_be(x)[4] == ((x >> 24u64) & 0xff) as u8,
        u64_be(x)[5] == ((x >> 16u64) & 0xff) as u8,
        u64_be(x)[6] == ((x >> 8u64) & 0xff) as u8,
        u64_be(x)[7] == (x & 0xff) as u8,
        u64_be(x).len() == 8,
{
    assert(x >> 0u64 == x) by (bit_vector);
}

/// Big-endian encodings of distinct integers differ.
pub proof fn lemma_u64_be_injective(x: u64, y: u64)
    ensures
        u64_be(x) == u64_be(y) <==> x == y,
{
    lemma_u64_be_bytes(x);
    lemma_u64_be_bytes(y);
    if u64_be(x) == u64_be(y) {
        assert(u64_be(x)[0] == u64_be(y)[0]);
        assert(u64_be(x)[1] == u64_be(y)[1]);
        assert(u64_be(x)[2] == u64_be(y)[2]);
        assert(u64_be(x)[3] == u64_be(y)[3]);
        assert(u64_be(x)[4] == u64_be(y)[4]);
        assert(u64_be(x)[5] == u64_be(y)[5]);
        assert(u64_be(x)[6] == u64_be(y)[6]);
        assert(u64_be(x)[7] == u64_be(y)[7]);
        assert(x == y) by (bit_vector)
            requires
                ((x >> 56u64) & 0xff) as u8 == ((y >> 56u64) & 0xff) as u8,
                ((x >> 48u64) & 0xff) as u8 == ((y >> 48u64) & 0xff) as u8,
                ((x >> 40u64) & 0xff) as u8 == ((y >> 40u64) & 0xff) as u8,
                ((x >> 32u64) & 0xff) as u8 == ((y >> 32u64) & 0xff) as u8,
                ((x >> 24u64) & 0xff) as u8 == ((y >> 24u64) & 0xff) as u8,
                ((x >> 16u64) & 0xff) as u8 == ((y >> 16u64) & 0xff) as u8,
                ((x >> 8u64) & 0xff) as u8 == ((y >> 8u64) & 0xff) as u8,
                (x & 0xff) as u8 == (y & 0xff) as u8,
        ;
    }
}

/// When the big-endian bytes of `x` and `y` agree before position `k` and byte `k` of
/// `x` is the smaller, `x < y`.
proof fn lemma_u64_be_first_difference(x: u64, y: u64, k: int)
    requires
        0 <= k < 8,
        forall|j: int| 0 <= j < k ==> u64_be(x)[j] == u64_be(y)[j],
        u64_be(x)[k] < u64_be(y)[k],
    ensures
        x < y,
{
    lemma_u64_be_bytes(x);
    lemma_u64_be_bytes(y);
    if 0 < k {
        assert(u64_be(x)[0] == u64_be(y)[0]);
    }
    if 1 < k {
        assert(u64_be(x)[1] == u64_be(y)[1]);
    }
    if 2 < k {
        assert(u64_be(x)[2] == u64_be(y)[2]);
    }
    if 3 < k {
        assert(u64_be(x)[3] == u64_be(y)[3]);
    }
    if 4 < k {
        assert(u64_be(x)[4] == u64_be(y)[4]);
    }
    if 5 < k {
        assert(u64_be(x)[5] == u64_be(y)[5]);
    }
    if 6 < k {
        assert(u64_be(x)[6] == u64_be(y)[6]);
    }
    if 7 < k {
        assert(u64_be(x)[7] == u64_be(y)[7]);
    }
    if k == 0 {
        assert(x < y) by (bit_vector)
            requires
                (((x >> 56u64) & 0xff) as u8) < ((y >> 56u64) & 0xff) as u8,
        ;
    } else if k == 1 {
        assert(x < y) by (bit_vector)
            requires
                ((x >> 56u64) & 0xff) as u8 == ((y >> 56u64) & 0xff) as u8,
                (((x >> 48u64) & 0xff) as u8) < ((y >> 48u64) & 0xff) as u8,
        ;
    } else if k == 2 {
        assert(x < y) by (bit_vector)
            requires
                ((x >> 56u64) & 0xff) as u8 == ((y >> 56u64) & 0xff) as u8,
                ((x >> 48u64) & 0xff) as u8 == ((y >> 48u64) & 0xff) as u8,
                (((x >> 40u64) & 0xff) as u8) < ((y >> 40u64) & 0xff) as u8,
        ;
    } else if k == 3 {
        assert(x < y) by (bit_vector)
            requires
                ((x >> 56u64) & 0xff) as u8 == ((y >> 56u64) & 0xff) as u8,
                ((x >> 48u64) & 0xff) as u8 == ((y >> 48u64) & 0xff) as u8,
                ((x >> 40u64) & 0xff) as u8 == ((y >> 40u64) & 0xff) as u8,
                (((x >> 32u64) & 0xff) as u8) < ((y >> 32u64) & 0xff) as u8,
        ;
    } else if k == 4 {
        assert(x < y) by (bit_vector)
            requires
                ((x >> 56u64) & 0xff) as u8 == ((y >> 56u64) & 0xff) as u8,
                ((x >> 48u64) & 0xff) as u8 == ((y >> 48u64) & 0xff) as u8,
                ((x >> 40u64) & 0xff) as u8 == ((y >> 40u64) & 0xff) as u8,
                ((x >> 32u64) & 0xff) as u8 == ((y >> 32u64) & 0xff) as u8,
                (((x >> 24u64) & 0xff) as u8) < ((y >> 24u64) & 0xff) as u8,
        ;
    } else if k == 5 {
        assert(x < y) by (bit_vector)
            requires
                ((x >> 56u64) & 0xff) as u8 == ((y >> 56u64) & 0xff) as u8,
                ((x >> 48u64) & 0xff) as u8 == ((y >> 48u64) & 0xff) as u8,
                ((x >> 40u64) & 0xff) as u8 == ((y >> 40u64) & 0xff) as u8,
                ((x >> 32u64) & 0xff) as u8 == ((y >> 32u64) & 0xff) as u8,
                ((x >> 24u64) & 0xff) as u8 == ((y >> 24u64) & 0xff) as u8,
                (((x >> 16u64) & 0xff) as u8) < ((y >> 16u64) & 0xff) as u8,
        ;
    } else if k == 6 {
        assert(x < y) by (bit_vector)
            requires
                ((x >> 56u64) & 0xff) as u8 == ((y >> 56u64) & 0xff) as u8,
                ((x >> 48u64) & 0xff) as u8 == ((y >> 48u64) & 0xff) as u8,
                ((x >> 40u64) & 0xff) as u8 == ((y >> 40u64) & 0xff) as u8,
                ((x >> 32u64) & 0xff) as u8 == ((y >> 32u64) & 0xff) as u8,
                ((x >> 24u64) & 0xff) as u8 == ((y >> 24u64) & 0xff) as u8,
                ((x >> 16u64) & 0xff) as u8 == ((y >> 16u64) & 0xff) as u8,
                (((x >> 8u64) & 0xff) as u8) < ((y >> 8u64) & 0xff) as u8,
        ;
    } else if k == 7 {
        assert(x < y) by (bit_vector)
            requires
                ((x >> 56u64) & 0xff) as u8 == ((y >> 56u64) & 0xff) as u8,
                ((x >> 48u64) & 0xff) as u8 == ((y >> 48u64) & 0xff) as u8,
                ((x >> 40u64) & 0xff) as u8 == ((y >> 40u64) & 0xff) as u8,
                ((x >> 32u64) & 0xff) as u8 == ((y >> 32u64) & 0xff) as u8,
                ((x >> 24u64) & 0xff) as u8 == ((y >> 24u64) & 0xff) as u8,
                ((x >> 16u64) & 0xff) as u8 == ((y >> 16u64) & 0xff) as u8,
                ((x >> 8u64) & 0xff) as u8 == ((y >> 8u64) & 0xff) as u8,
                ((x & 0xff) as u8) < (y & 0xff) as u8,
        ;
    }
}

/// `a` comes strictly before `b` in lexicographic byte order (as `Vec<u8>` orders):
/// after a common prefix, `a` ends first or has the smaller byte.
pub open spec fn lex_lt(a: Seq<u8>, b: Seq<u8>) -> bool {
    exists|i: int|
        0 <= i <= a.len() && i <= b.len() && #[trigger] a.subrange(0, i) == b.subrange(0, i) && ((i
            == a.len() && i < b.len()) || (i < a.len() && i < b.len() && a[i] < b[i]))
}

/// Big-endian encodings order as the integers do.
pub proof fn lemma_u64_be_order(x: u64, y: u64)
    ensures
        x < y <==> lex_lt(u64_be(x), u64_be(y)),
{
    let a = u64_be(x);
    let b = u64_be(y);
    lemma_u64_be_bytes(x);
    lemma_u64_be_bytes(y);
    if lex_lt(a, b) {
        let i = choose|i: int|
            0 <= i <= a.len() && i <= b.len() && #[trigger] a.subrange(0, i) == b.subrange(0, i)
                && ((i == a.len() && i < b.len()) || (i < a.len() && i < b.len() && a[i] < b[i]));
        assert forall|j: int| 0 <= j < i implies a[j] == b[j] by {
            assert(a.subrange(0, i)[j] == b.subrange(0, i)[j]);
        }
        lemma_u64_be_first_difference(x, y, i);
    }
    if x < y {
        lemma_u64_be_injective(x, y);
        assert(a != b);
        let k = choose|k: int| 0 <= k < 8 && a[k] != b[k] && forall|j: int| 0 <= j < k ==> a[j] == b[j];
        assert(exists|k: int| 0 <= k < 8 && a[k] != b[k] && forall|j: int| 0 <= j < k ==> a[j] == b[j])
            by {
            if a[0] != b[0] {
                assert(0 <= 0int < 8 && a[0] != b[0]);
            } else if a[1] != b[1] {
                assert(forall|j: int| 0 <= j < 1 ==> a[j] == b[j]);
            } else if a[2] != b[2] {
                assert(forall|j: int| 0 <= j < 2 ==> a[j] == b[j]);
            } else if a[3] != b[3] {
                assert(forall|j: int| 0 <= j < 3 ==> a[j] == b[j]);
            } else if a[4] != b[4] {
                assert(forall|j: int| 0 <= j < 4 ==> a[j] == b[j]);
            } else if a[5] != b[5] {
                assert(forall|j: int| 0 <= j < 5 ==> a[j] == b[j]);
            } else if a[6] != b[6] {
                assert(forall|j: int| 0 <= j < 6 ==> a[j] == b[j]);
            } else if a[7] != b[7] {
                assert(forall|j: int| 0 <= j < 7 ==> a[j] == b[j]);
            } else {
                assert(a =~= b);
            }
        }
        if b[k] < a[k] {
            assert forall|j: int| 0 <= j < k implies b[j] == a[j] by {}
            lemma_u64_be_first_difference(y, x, k);
        }
        assert(a.subrange(0, k) =~= b.subrange(0, k));
    }
}

/// The eight bytes of `u64_le(x)`, least significant first.
proof fn lemma_u64_le_bytes(x: u64)
    ensures
        u64_le(x)[0] == (x & 0xff) as u8,
        u64_le(x)[1] == ((x >> 8u64) & 0xff) as u8,
        u64_le(x)[2] == ((x >> 16u64) & 0xff) as u8,
        u64_le(x)[3] == ((x >> 24u64) & 0xff) as u8,
        u64_le(x)[4] == ((x >> 32u64) & 0xff) as u8,
        u64_le(x)[5] == ((x >> 40u64) & 0xff) as u8,
        u64_le(x)[6] == ((x >> 48u64) & 0xff) as u8,
        u64_le(x)[7] == ((x >> 56u64) & 0xff) as u8,
        u64_le(x).len() == 8,
{
    assert(x >> 0u64 == x) by (bit_vector);
}

/// Little-endian encodings of distinct integers differ.
pub proof fn lemma_u64_le_injective(x: u64, y: u64)
    ensures
        u64_le(x) == u64_le(y) <==> x == y,
{
    lemma_u64_le_bytes(x);
    lemma_u64_le_bytes(y);
    if u64_le(x) == u64_le(y) {
        assert(u64_le(x)[0] == u64_le(y)[0]);
        assert(u64_le(x)[1] == u64_le(y)[1]);
        assert(u64_le(x)[2] == u64_le(y)[2]);
        assert(u64_le(x)[3] == u64_le(y)[3]);
        assert(u64_le(x)[4] == u64_le(y)[4]);
        assert(u64_le(x)[5] == u64_le(y)[5]);
        assert(u64_le(x)[6] == u64_le(y)[6]);
        assert(u64_le(x)[7] == u64_le(y)[7]);
        assert(x == y) by (bit_vector)
            requires
                (x & 0xff) as u8 == (y & 0xff) as u8,
                ((x >> 8u64) & 0xff) as u8 == ((y >> 8u64) & 0xff) as u8,
                ((x >> 16u64) & 0xff) as u8 == ((y >> 16u64) & 0xff) as u8,
                ((x >> 24u64) & 0xff) as u8 == ((y >> 24u64) & 0xff) as u8,
                ((x >> 32u64) & 0xff) as u8 == ((y >> 32u64) & 0xff) as u8,
                ((x >> 40u64) & 0xff) as u8 == ((y >> 40u64) & 0xff) as u8,
                ((x >> 48u64) & 0xff) as u8 == ((y >> 48u64) & 0xff) as u8,
                ((x >> 56u64) & 0xff) as u8 == ((y >> 56u64) & 0xff) as u8,
        ;
    }
}

/// Two concatenations with first parts of the same length are equal exactly when both
/// parts are.
pub proof fn lemma_concat_split(a1: Seq<u8>, r1: Seq<u8>, a2: Seq<u8>, r2: Seq<u8>)
    requires
        a1.len() == a2.len(),
        a1 + r1 == a2 + r2,
    ensures
        a1 == a2,
        r1 == r2,
{
    let s = a1 + r1;
    assert(s.subrange(0, a1.len() as int) =~= a1);
    assert((a2 + r2).subrange(0, a2.len() as int) =~= a2);
    assert(s.subrange(a1.len() as int, s.len() as int) =~= r1);
    assert((a2 + r2).subrange(a2.len() as int, (a2 + r2).len() as int) =~= r2);
}

/// The little-endian value of eight bytes, written out.
proof fn lemma_le_nat_8(b: Seq<u8>)
    requires
        b.len() == 8,
    ensures
        le_nat(b) == b[0] as int + 256 * (b[1] as int + 256 * (b[2] as int + 256 * (b[3] as int + 256 * (b[4] as int + 256 * (b[5] as int + 256 * (b[6] as int + 256 * (b[7] as int))))))),
{
    let s0 = b;
    let s1 = s0.drop_first();
    let s2 = s1.drop_first();
    let s3 = s2.drop_first();
    let s4 = s3.drop_first();
    let s5 = s4.drop_first();
    let s6 = s5.drop_first();
    let s7 = s6.drop_first();
    let s8 = s7.drop_first();
    assert(s8.len() == 0);
    assert(le_nat(s8) == 0);
    assert(s7[0] == b[7]);
    assert(le_nat(s7) == s7[0] as nat + 256 * le_nat(s8));
    assert(s6[0] == b[6]);
    assert(le_nat(s6) == s6[0] as nat + 256 * le_nat(s7));
    assert(s5[0] == b[5]);
    assert(le_nat(s5) == s5[0] as nat + 256 * le_nat(s6));
    assert(s4[0] == b[4]);
    assert(le_nat(s4) == s4[0] as nat + 256 * le_nat(s5));
    assert(s3[0] == b[3]);
    assert(le_nat(s3) == s3[0] as nat + 256 * le_nat(s4));
    assert(s2[0] == b[2]);
    assert(le_nat(s2) == s2[0] as nat + 256 * le_nat(s3));
    assert(s1[0] == b[1]);
    assert(le_nat(s1) == s1[0] as nat + 256 * le_nat(s2));
    assert(s0[0] == b[0]);
    assert(le_nat(s0) == s0[0] as nat + 256 * le_nat(s1));
}

/// The little-endian value of four bytes, written out.
proof fn lemma_le_nat_4(b: Seq<u8>)
    requires
        b.len() == 4,
    ensures
        le_nat(b) == b[0] as int + 256 * (b[1] as int + 256 * (b[2] as int + 256 * (b[3] as int))),
{
    let s0 = b;
    let s1 = s0.drop_first();
    let s2 = s1.drop_first();
    let s3 = s2.drop_first();
    let s4 = s3.drop_first();
    assert(s4.len() == 0);
    assert(le_nat(s4) == 0);
    assert(s3[0] == b[3]);
    assert(le_nat(s3) == s3[0] as nat + 256 * le_nat(s4));
    assert(s2[0] == b[2]);
    assert(le_nat(s2) == s2[0] as nat + 256 * le_nat(s3));
    assert(s1[0] == b[1]);
    assert(le_nat(s1) == s1[0] as nat + 256 * le_nat(s2));
    assert(s0[0] == b[0]);
    assert(le_nat(s0) == s0[0] as nat + 256 * le_nat(s1));
}

/// The little-endian value of the eight bytes of `u64_le(x)` is `x`.
pub proof fn lemma_le_nat_u64_le(x: u64)
    ensures
        le_nat(u64_le(x)) == x,
{
    let b = u64_le(x);
    lemma_u64_le_bytes(x);
    lemma_le_nat_8(b);
    let b0 = b[0];
    let b1 = b[1];
    let b2 = b[2];
    let b3 = b[3];
    let b4 = b[4];
    let b5 = b[5];
    let b6 = b[6];
    let b7 = b[7];
    assert(x as int == b0 + 256 * (b1 + 256 * (b2 + 256 * (b3 + 256 * (b4 + 256 * (b5 + 256 * (b6 + 256 * (b7)))))))) by (bit_vector)
        requires
            b0 == (x & 0xff) as u8,
            b1 == ((x >> 8u64) & 0xff) as u8,
            b2 == ((x >> 16u64) & 0xff) as u8,
            b3 == ((x >> 24u64) & 0xff) as u8,
            b4 == ((x >> 32u64) & 0xff) as u8,
            b5 == ((x >> 40u64) & 0xff) as u8,
            b6 == ((x >> 48u64) & 0xff) as u8,
            b7 == ((x >> 56u64) & 0xff) as u8,
    ;
}

/// The little-endian value of the four bytes of `u32_le(x)` is `x`.
pub proof fn lemma_le_nat_u32_le(x: u32)
    ensures
        le_nat(u32_le(x)) == x,
{
    let b = u32_le(x);
    assert(x >> 0u32 == x) by (bit_vector);
    lemma_le_nat_4(b);
    let b0 = b[0];
    let b1 = b[1];
    let b2 = b[2];
    let b3 = b[3];
    assert(x as int == b0 + 256 * (b1 + 256 * (b2 + 256 * (b3)))) by (bit_vector)
        requires
            b0 == (x & 0xff) as u8,
            b1 == ((x >> 8u32) & 0xff) as u8,
            b2 == ((x >> 16u32) & 0xff) as u8,
            b3 == ((x >> 24u32) & 0xff) as u8,
    ;
}

/// Reading four bytes little-endian as a `u32` gives their little-endian value.
pub proof fn lemma_u32_of_le_value(b: Seq<u8>)
    requires
        b.len() == 4,
    ensures
        u32_of_le(b) == le_nat(b),
{
    lemma_le_nat_4(b);
    let b0 = b[0];
    let b1 = b[1];
    let b2 = b[2];
    let b3 = b[3];
    assert(((b0 as u32) | ((b1 as u32) << 8) | ((b2 as u32) << 16) | ((b3 as u32) << 24)) as int
        == b0 + 256 * (b1 + 256 * (b2 + 256 * b3))) by (bit_vector);
}

/// Appends `b` to `out` (`Vec::extend_from_slice`).
pub fn append_bytes(out: &mut Vec<u8>, b: &[u8])
    ensures
        final(out)@ == old(out)@ + b@,
{
    let ghost start = out@;
    let mut i: usize = 0;
    while i < b.len()
        invariant
            i <= b.len(),
            out@ == start + b@.subrange(0, i as int),
        decreases b.len() - i,
    {
        out.push(b[i]);
        i = i + 1;
        assert(out@ =~= start + b@.subrange(0, i as int));
    }
    assert(b@.subrange(0, b@.len() as int) =~= b@);
}

/// Copies a 32-byte slice into an array.
pub fn array32_from_slice(s: &[u8]) -> (r: [u8; 32])
    requires
        s@.len() == 32,
    ensures
        r@ == s@,
{
    let mut r = [0u8; 32];
    let mut i: usize = 0;
    while i < 32
        invariant
            i <= 32,
            s@.len() == 32,
            forall|j: int| 0 <= j < i ==> r@[j] == s@[j],
        decreases 32 - i,
    {
        r[i] = s[i];
        i = i + 1;
    }
    assert(r@ =~= s@);
    r
}

/// Copies `s[off..off + 32]` into an array.
pub fn array32_at(s: &[u8], off: usize) -> (r: [u8; 32])
    requires
        off + 32 <= s@.len(),
    ensures
        r@ == s@.subrange(off as int, off + 32),
{
    let n = s.len();
    let mut r = [0u8; 32];
    let mut i: usize = 0;
    while i < 32
        invariant
            i <= 32,
            n == s@.len(),
            off + 32 <= s@.len(),
            forall|j: int| 0 <= j < i ==> r@[j] == s@[off + j],
        decreases 32 - i,
    {
        r[i] = s[off + i];
        i = i + 1;
    }
    assert(r@ =~= s@.subrange(off as int, off + 32));
    r
}

} // verus!
