//! Sets of small numbers held as the bits of a word.
use vstd::prelude::*;
use vstd::std_specs::bits::{axiom_u64_leading_zeros, u64_leading_zeros};

verus! {

/// Whether bit `i` of `v` is set.
pub open spec fn bit_is_set(v: u64, i: int) -> bool {
    0 <= i < 64 && (v >> (i as u64)) & 1 == 1
}

/// No bit of zero is set.
pub proof fn lemma_bits_zero(i: int)
    ensures
        !bit_is_set(0, i),
{
    if 0 <= i < 64 {
        let s: u64 = i as u64;
        assert((0u64 >> s) & 1 != 1) by (bit_vector);
    }
}

/// The bits of `v | (1 << i)` are those of `v`, and bit `i`.
pub proof fn lemma_bits_set(v: u64, i: u64, j: int)
    requires
        i < 64,
    ensures
        bit_is_set(v | (1u64 << i), j) == (j == i || bit_is_set(v, j)),
{
    if 0 <= j < 64 {
        let s: u64 = j as u64;
        assert((((v | (1u64 << i)) >> s) & 1 == 1) == (s == i || (v >> s) & 1 == 1))
            by (bit_vector)
            requires
                i < 64,
                s < 64,
        ;
    }
}

/// The bits of `v & !(1 << i)` are those of `v` without bit `i`.
pub proof fn lemma_bits_clear(v: u64, i: u64, j: int)
    requires
        i < 64,
    ensures
        bit_is_set(v & !(1u64 << i), j) == (j != i && bit_is_set(v, j)),
{
    if 0 <= j < 64 {
        let s: u64 = j as u64;
        assert((((v & !(1u64 << i)) >> s) & 1 == 1) == (s != i && (v >> s) & 1 == 1))
            by (bit_vector)
            requires
                i < 64,
                s < 64,
        ;
    }
}

/// The bits of `a & b` are those set in both.
pub proof fn lemma_bits_and(a: u64, b: u64, j: int)
    ensures
        bit_is_set(a & b, j) == (bit_is_set(a, j) && bit_is_set(b, j)),
{
    if 0 <= j < 64 {
        let s: u64 = j as u64;
        assert((((a & b) >> s) & 1 == 1) == ((a >> s) & 1 == 1 && (b >> s) & 1 == 1))
            by (bit_vector)
            requires
                s < 64,
        ;
    }
}

/// The bits of `a ^ b` are those set in exactly one of the two.
pub proof fn lemma_bits_xor(a: u64, b: u64, j: int)
    ensures
        bit_is_set(a ^ b, j) == (bit_is_set(a, j) != bit_is_set(b, j)),
{
    if 0 <= j < 64 {
        let s: u64 = j as u64;
        assert((((a ^ b) >> s) & 1 == 1) == (((a >> s) & 1 == 1) != ((b >> s) & 1 == 1)))
            by (bit_vector)
            requires
                s < 64,
        ;
    }
}

/// One plus the position of the highest bit that is set in `val`, or zero if
/// none is set.
pub fn ffs(val: u64) -> (r: u32)
    ensures
        val == 0 <==> r == 0,
        r <= 64,
        r > 0 ==> bit_is_set(val, r - 1),
        forall|j: int| r <= j ==> !bit_is_set(val, j),
{
    broadcast use axiom_u64_leading_zeros;

    let lz: u32 = val.leading_zeros();
    let r: u32 = 64 - lz;
    proof {
        assert(lz as int == u64_leading_zeros(val));
        if r > 0 {
            let s: u64 = (r - 1) as u64;
            assert((val >> s) & 1 != 0);
            assert(((val >> s) & 1 != 0) ==> ((val >> s) & 1 == 1)) by (bit_vector);
        }
        assert forall|j: int| r <= j implies !bit_is_set(val, j) by {
            if j < 64 {
                let s: u64 = j as u64;
                assert((val >> s) & 1 == 0);
            }
        }
    }
    r
}

/// The highest bit below `k` that is set in `v`.
pub open spec fn top_bit_below(v: u64, k: int) -> Option<int>
    decreases k,
{
    if k <= 0 {
        None
    } else if bit_is_set(v, k - 1) {
        Some(k - 1)
    } else {
        top_bit_below(v, k - 1)
    }
}

/// The highest bit that is set in `v`.
pub open spec fn top_bit(v: u64) -> Option<int> {
    top_bit_below(v, 64)
}

/// `top_bit_below` yields a set bit with no set bit between it and `k`, or
/// nothing if no bit below `k` is set.
pub proof fn lemma_top_bit_below(v: u64, k: int)
    ensures
        match top_bit_below(v, k) {
            Some(p) => 0 <= p < k && bit_is_set(v, p) && forall|j: int|
                p < j < k ==> !bit_is_set(v, j),
            None => forall|j: int| 0 <= j < k ==> !bit_is_set(v, j),
        },
    decreases k,
{
    if k > 0 && !bit_is_set(v, k - 1) {
        lemma_top_bit_below(v, k - 1);
    }
}

/// A set bit with no set bit above it is the top bit.
pub proof fn lemma_top_bit_is(v: u64, p: int)
    requires
        bit_is_set(v, p),
        forall|j: int| p < j ==> !bit_is_set(v, j),
    ensures
        top_bit(v) == Some(p),
{
    lemma_top_bit_below(v, 64);
}

/// A word without a set bit has no top bit.
pub proof fn lemma_top_bit_none(v: u64)
    requires
        forall|j: int| !bit_is_set(v, j),
    ensures
        top_bit(v).is_none(),
{
    lemma_top_bit_below(v, 64);
}

/// The highest number in the set `bitmap`, if it has a member.
pub fn from_bitmap(bitmap: u64) -> (r: Option<u8>)
    ensures
        bitmap == 0 <==> r.is_none(),
        r == match top_bit(bitmap) {
            Some(p) => Some(p as u8),
            None => None,
        },
{
    if bitmap == 0 {
        proof {
            assert forall|j: int| !bit_is_set(bitmap, j) by {
                lemma_bits_zero(j);
            }
            lemma_top_bit_none(bitmap);
        }
        return None;
    }
    let r: u32 = ffs(bitmap);
    proof {
        lemma_top_bit_is(bitmap, r - 1);
    }
    Some((r - 1) as u8)
}

/// Two words with the same bits are equal.
pub proof fn lemma_bits_equal(a: u64, b: u64)
    requires
        forall|j: int| 0 <= j < 64 ==> bit_is_set(a, j) == bit_is_set(b, j),
    ensures
        a == b,
{
    broadcast use axiom_u64_leading_zeros;

    let d: u64 = a ^ b;
    if d != 0 {
        let lz = u64_leading_zeros(d);
        let s: u64 = (63 - lz) as u64;
        assert((d >> s) & 1 != 0);
        assert(((d >> s) & 1 != 0) ==> ((d >> s) & 1 == 1)) by (bit_vector);
        assert(bit_is_set(d, s as int));
        lemma_bits_xor(a, b, s as int);
    }
    assert(a ^ b == 0 ==> a == b) by (bit_vector);
}

} // verus!
