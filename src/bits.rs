use vstd::prelude::*;
use vstd::std_specs::bits::{axiom_u64_trailing_zeros, u64_trailing_zeros};

verus! {

/// Bit `i` of `b`.
pub open spec fn bit64(b: u64, i: u64) -> bool {
    (b >> i) & 1u64 == 1u64
}

/// Bit `i` of `b & b << d & b << 2d & b << 3d` is set exactly where bit `i` and the three
/// bits `d`, `2d` and `3d` below it are set in `b`.
pub proof fn lemma_and4_shl(b: u64, d: u64, d2: u64, d3: u64, i: u64)
    requires
        1 <= d <= 9,
        d2 == 2 * d,
        d3 == 3 * d,
        i < 64,
    ensures
        bit64(b & (b << d) & (b << d2) & (b << d3), i) <==> (i >= d3 && bit64(b, i) && bit64(
            b,
            (i - d) as u64,
        ) && bit64(b, (i - d2) as u64) && bit64(b, (i - d3) as u64)),
{
    if i < d3 {
        assert(((b & (b << d) & (b << d2) & (b << d3)) >> i) & 1u64 == 0u64) by (bit_vector)
            requires
                1 <= d <= 9,
                d2 == 2 * d,
                d3 == 3 * d,
                i < d3,
        ;
    } else {
        let j1 = (i - d) as u64;
        let j2 = (i - d2) as u64;
        let j3 = (i - d3) as u64;
        assert(((b & (b << d) & (b << d2) & (b << d3)) >> i) & 1u64 == 1u64 <==> ((b >> i) & 1u64
            == 1u64 && (b >> j1) & 1u64 == 1u64 && (b >> j2) & 1u64 == 1u64 && (b >> j3) & 1u64
            == 1u64)) by (bit_vector)
            requires
                1 <= d <= 9,
                d2 == 2 * d,
                d3 == 3 * d,
                i < 64,
                j1 + d == i,
                j2 + d2 == i,
                j3 + d3 == i,
        ;
    }
}

/// Bit `i` of `b & b >> d & b >> 2d & b >> 3d` is set exactly where bit `i` and the three
/// bits `d`, `2d` and `3d` above it are set in `b`.
pub proof fn lemma_and4_shr(b: u64, d: u64, d2: u64, d3: u64, i: u64)
    requires
        1 <= d <= 9,
        d2 == 2 * d,
        d3 == 3 * d,
        i < 64,
    ensures
        bit64(b & (b >> d) & (b >> d2) & (b >> d3), i) <==> (i + d3 < 64 && bit64(b, i) && bit64(
            b,
            (i + d) as u64,
        ) && bit64(b, (i + d2) as u64) && bit64(b, (i + d3) as u64)),
{
    assert(((b & (b >> d) & (b >> d2) & (b >> d3)) >> i) & 1u64 == 1u64 <==> (i + d3 < 64 && (b
        >> i) & 1u64 == 1u64 && (b >> (i + d)) & 1u64 == 1u64 && (b >> (i + d2)) & 1u64 == 1u64 && (b
        >> (i + d3)) & 1u64 == 1u64)) by (bit_vector)
        requires
            1 <= d <= 9,
            d2 == 2 * d,
            d3 == 3 * d,
            i < 64,
    ;
}

/// `x & m` is non-zero exactly where some bit is set in both.
pub proof fn lemma_and_nonzero(x: u64, m: u64)
    ensures
        (x & m > 0) <==> exists|i: u64| i < 64 && #[trigger] bit64(x, i) && bit64(m, i),
{
    if x & m > 0 {
        let y = x & m;
        axiom_u64_trailing_zeros(y);
        let i = u64_trailing_zeros(y) as u64;
        assert(y != 0);
        assert(i < 64);
        assert((y >> i) & 1u64 == 1u64);
        assert(((x & m) >> i) & 1u64 == 1u64 ==> (x >> i) & 1u64 == 1u64 && (m >> i) & 1u64 == 1u64)
            by (bit_vector);
        assert(bit64(x, i) && bit64(m, i));
    }
    assert forall|i: u64| i < 64 && #[trigger] bit64(x, i) && bit64(m, i) implies x & m > 0 by {
        assert((x >> i) & 1u64 == 1u64 && (m >> i) & 1u64 == 1u64 ==> x & m > 0) by (bit_vector);
    }
}

/// A value below `2^n` has no bit at `n` or above.
pub proof fn lemma_high_bits_clear(b: u64, n: u64, i: u64)
    requires
        n < 64,
        b < (1u64 << n),
        n <= i < 64,
    ensures
        !bit64(b, i),
{
    assert(b < (1u64 << n) && n <= i && i < 64 && n < 64 ==> (b >> i) & 1u64 == 0u64) by (bit_vector);
}

} // verus!
