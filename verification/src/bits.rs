//! Facts about bit masks and little-endian words that the register models share.
use vstd::prelude::*;

verus! {

/// The 32-bit word whose bytes, lowest first, are `b0`, `b1`, `b2`, `b3`.
pub open spec fn word_of(b0: u8, b1: u8, b2: u8, b3: u8) -> u32 {
    (b0 as u32) | ((b1 as u32) << 8u32) | ((b2 as u32) << 16u32) | ((b3 as u32) << 24u32)
}

/// Byte `i` of `v`, counted from the lowest.
pub open spec fn byte_at(v: u32, i: u32) -> u8 {
    (v >> ((8 * i) as u32)) as u8
}

/// Assembles a word from its bytes, lowest first.
pub fn le_word(b0: u8, b1: u8, b2: u8, b3: u8) -> (r: u32)
    ensures
        r == word_of(b0, b1, b2, b3),
{
    (b0 as u32) | ((b1 as u32) << 8u32) | ((b2 as u32) << 16u32) | ((b3 as u32) << 24u32)
}

/// Picks byte `i` of a word, counted from the lowest.
pub fn byte_of(v: u32, i: u32) -> (r: u8)
    requires
        i < 4,
    ensures
        r == byte_at(v, i),
{
    (v >> (8 * i)) as u8
}

/// An array of equal elements.
pub fn filled<T: Copy, const N: usize>(t: T) -> (r: [T; N])
    ensures
        forall|i: int| 0 <= i < N ==> #[trigger] r@[i] == t,
{
    proof {
        vstd::array::axiom_spec_array_fill_for_copy_type::<T, N>(t);
    }
    vstd::array::array_fill_for_copy_types(t)
}

/// The mask of bit `b`.
pub open spec fn bit(b: int) -> u32 {
    1u32 << (b as u32)
}

/// Is bit `b` of `x` set?
pub open spec fn has_bit(x: u32, b: int) -> bool {
    x & bit(b) != 0
}

/// A word is the word of its bytes.
pub proof fn lemma_word_of_bytes(v: u32)
    ensures
        word_of(byte_at(v, 0), byte_at(v, 1), byte_at(v, 2), byte_at(v, 3)) == v,
{
    law_bytes_are_digits(v, byte_at(v, 0), byte_at(v, 1), byte_at(v, 2), byte_at(v, 3));
}

/// A byte with zeros above it is that byte.
pub proof fn lemma_one_byte(b: u8)
    ensures
        word_of(b, 0, 0, 0) == b,
{
    law_bytes_are_digits(0, b, 0, 0, 0);
}

/// A single bit is the bit that it is, and no other.
pub proof fn lemma_single_bits(b: int, c: int)
    requires
        0 <= b < 32,
        0 <= c < 32,
    ensures
        has_bit(bit(b), c) == (b == c),
{
    let (b, c) = (b as u32, c as u32);
    assert(b < 32 && c < 32 ==> ((1u32 << b) & (1u32 << c) != 0 <==> b == c)) by (bit_vector);
}

/// The bits of a union and of a difference.
pub proof fn lemma_bits_of_sets(x: u32, y: u32, b: int)
    requires
        0 <= b < 32,
    ensures
        has_bit(x | y, b) == (has_bit(x, b) || has_bit(y, b)),
        has_bit(x & !y, b) == (has_bit(x, b) && !has_bit(y, b)),
        has_bit(x ^ y, b) == (has_bit(x, b) != has_bit(y, b)),
        has_bit(x & y, b) == (has_bit(x, b) && has_bit(y, b)),
{
    let c = b as u32;
    assert(c < 32 ==> ((x | y) & (1u32 << c) != 0 <==> x & (1u32 << c) != 0 || y & (1u32 << c) != 0)
        && ((x & !y) & (1u32 << c) != 0 <==> x & (1u32 << c) != 0 && y & (1u32 << c) == 0)
        && ((x ^ y) & (1u32 << c) != 0 <==> (x & (1u32 << c) != 0) != (y & (1u32 << c) != 0)) && ((x
        & y) & (1u32 << c) != 0 <==> x & (1u32 << c) != 0 && y & (1u32 << c) != 0))
        by (bit_vector);
}

/// Setting one bit changes that bit and no other.
pub proof fn lemma_set_bit(x: u32, b: int, c: int)
    requires
        0 <= b < 32,
        0 <= c < 32,
    ensures
        has_bit(x | bit(b), c) == (b == c || has_bit(x, c)),
{
    lemma_single_bits(b, c);
    lemma_bits_of_sets(x, bit(b), c);
}

/// Clearing one bit changes that bit and no other.
pub proof fn lemma_clear_bit(x: u32, b: int, c: int)
    requires
        0 <= b < 32,
        0 <= c < 32,
    ensures
        has_bit(x & !bit(b), c) == (b != c && has_bit(x, c)),
{
    lemma_single_bits(b, c);
    lemma_bits_of_sets(x, bit(b), c);
}

/// Laws of masks: a masked word stays below the mask and the word, clearing a mask leaves
/// none of it, setting a mask leaves all of it, and bits outside a mask stay as they were.
pub proof fn lemma_mask(x: u32, m: u32)
    ensures
        x & m <= m,
        x & m <= x,
        x & !m <= x,
        (x & !m) & m == 0,
        (x | m) & m == m,
        (x | m) & !m == x & !m,
        (x & m) & !m == 0,
        (x & m) & m == x & m,
        x & 0 == 0,
        x | 0 == x,
        0u32 & x == 0,
        0u32 | x == x,
        m & m == m,
        x & !0u32 == x,
        x & 0xffff_ffff == x,
{
    assert(x & m <= m && x & m <= x && x & !m <= x && (x & !m) & m == 0 && (x | m) & m == m && (x
        | m) & !m == x & !m && (x & m) & !m == 0 && (x & m) & m == x & m && x & 0 == 0 && x | 0
        == x && 0u32 & x == 0 && 0u32 | x == x && m & m == m && x & !0u32 == x && x & 0xffff_ffff
        == x) by (bit_vector);
}

/// The byte-sized form of the mask bounds.
pub proof fn lemma_mask8(x: u8, m: u8)
    ensures
        x & m <= m,
        x & m <= x,
        (x & m) & m == x & m,
{
    assert(x & m <= m && x & m <= x && (x & m) & m == x & m) by (bit_vector);
}

/// The bytes of a word are its digits in base 256, lowest first, and a word is made of four
/// bytes accordingly.
pub proof fn law_bytes_are_digits(v: u32, b0: u8, b1: u8, b2: u8, b3: u8)
    ensures
        byte_at(v, 0) == v % 256,
        byte_at(v, 1) == (v / 0x100) % 256,
        byte_at(v, 2) == (v / 0x1_0000) % 256,
        byte_at(v, 3) == v / 0x100_0000,
        word_of(b0, b1, b2, b3) == b0 + 0x100 * b1 + 0x1_0000 * b2 + 0x100_0000 * b3,
        byte_at(word_of(b0, b1, b2, b3), 0) == b0,
        byte_at(word_of(b0, b1, b2, b3), 1) == b1,
        byte_at(word_of(b0, b1, b2, b3), 2) == b2,
        byte_at(word_of(b0, b1, b2, b3), 3) == b3,
{
    let w = word_of(b0, b1, b2, b3);
    assert((v >> 0u32) as u8 == v % 256 && (v >> 8u32) as u8 == (v / 0x100) % 256 && (v >> 16u32)
        as u8 == (v / 0x1_0000) % 256 && (v >> 24u32) as u8 == v / 0x100_0000 && (w == (b0 as u32)
        | ((b1 as u32) << 8u32) | ((b2 as u32) << 16u32) | ((b3 as u32) << 24u32) ==> w == b0
        + 0x100 * b1 + 0x1_0000 * b2 + 0x100_0000 * b3 && (w >> 0u32) as u8 == b0 && (w >> 8u32)
        as u8 == b1 && (w >> 16u32) as u8 == b2 && (w >> 24u32) as u8 == b3)) by (bit_vector);
}

/// The low eight bits of a word.
pub proof fn lemma_low_byte(v: u32)
    ensures
        (v & 0xFF) as u8 == v % 256,
        v as u8 == v % 256,
        v & 0xFF == v % 256,
{
    assert((v & 0xFF) as u8 == v % 256 && v as u8 == v % 256 && v & 0xFF == v % 256) by (bit_vector);
}

/// A flag that went up stays up when another one does, and one that went down is down. Zeros
/// written to the flags of a mask take those down and leave the rest alone.
pub proof fn lemma_flags(x: u32, m: u32, n: u32)
    ensures
        (x | m | n) & m == m,
        (x | m) & m == m,
        (x & !m) & m == 0,
        ((x | n) & !m) & m == 0,
        ((x | n | m) & !m) & m == 0,
        (x | m) | m == x | m,
        (x & !(!n & m)) & !m == x & !m,
        (x & !(!n & m)) & m == (x & n) & m,
{
    assert((x | m | n) & m == m && (x | m) & m == m && (x & !m) & m == 0 && ((x | n) & !m) & m == 0
        && ((x | n | m) & !m) & m == 0 && (x | m) | m == x | m && (x & !(!n & m)) & !m == x & !m && (
    x & !(!n & m)) & m == (x & n) & m) by (bit_vector);
}

} // verus!
