//! Facts about single bits of 64-bit words, one bit per square.
use vstd::prelude::*;

verus! {

/// Bit `i` of `x` is set (squares outside `0..64` never are).
pub open spec fn has_bit(x: u64, i: int) -> bool {
    0 <= i < 64 && (x >> (i as u64)) & 1u64 == 1u64
}

/// Testing a word against the one-bit mask of square `s` reads bit `s`.
pub proof fn lemma_mask_test(x: u64, s: u64)
    requires
        s < 64,
    ensures
        (x & (1u64 << s) != 0) == has_bit(x, s as int),
{
    assert((x & (1u64 << s) != 0) == ((x >> s) & 1u64 == 1u64)) by (bit_vector)
        requires
            s < 64,
    ;
}

/// A bit of an `|` is set iff it is set in either operand.
pub proof fn lemma_or_bit(a: u64, b: u64, i: int)
    ensures
        has_bit(a | b, i) == (has_bit(a, i) || has_bit(b, i)),
{
    if 0 <= i < 64 {
        let s = i as u64;
        assert(((a | b) >> s) & 1u64 == 1u64 <==> ((a >> s) & 1u64 == 1u64 || (b >> s) & 1u64
            == 1u64)) by (bit_vector);
    }
}

/// Setting bit `s` sets exactly that bit.
pub proof fn lemma_set_bit(x: u64, s: u64, i: int)
    requires
        s < 64,
    ensures
        has_bit(x | (1u64 << s), i) == (has_bit(x, i) || i == s),
{
    if 0 <= i < 64 {
        let t = i as u64;
        assert(((x | (1u64 << s)) >> t) & 1u64 == 1u64 <==> ((x >> t) & 1u64 == 1u64 || t == s))
            by (bit_vector)
            requires
                s < 64,
                t < 64,
        ;
    }
}

/// Clearing bit `s` clears exactly that bit.
pub proof fn lemma_clear_bit(x: u64, s: u64, i: int)
    requires
        s < 64,
    ensures
        has_bit(x & !(1u64 << s), i) == (has_bit(x, i) && i != s),
{
    if 0 <= i < 64 {
        let t = i as u64;
        assert(((x & !(1u64 << s)) >> t) & 1u64 == 1u64 <==> ((x >> t) & 1u64 == 1u64 && t != s))
            by (bit_vector)
            requires
                s < 64,
                t < 64,
        ;
    }
}

/// The empty word has no bit set.
pub proof fn lemma_zero_bits(i: int)
    ensures
        !has_bit(0u64, i),
{
    if 0 <= i < 64 {
        let t = i as u64;
        assert((0u64 >> t) & 1u64 == 0u64) by (bit_vector);
    }
}

} // verus!
