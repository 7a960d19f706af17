//! Piece availability bits, packed most significant bit first.
use vstd::prelude::*;

verus! {

/// A bitfield holds one bit per piece; piece `i` is bit `7 - i % 8` of byte `i / 8`.
pub type Bitfield = Vec<u8>;

/// Bit `k` (0 is the high bit) of the byte `b`.
pub open spec fn byte_has(b: u8, k: int) -> bool {
    (b >> ((7 - k) as u8)) & 1u8 != 0u8
}

/// Whether the bitfield `bf` marks piece `index` as present.
pub open spec fn has_bit(bf: Seq<u8>, index: int) -> bool {
    &&& 0 <= index
    &&& index / 8 < bf.len()
    &&& byte_has(bf[index / 8], index % 8)
}

/// The byte `b` with bit `k` (0 is the high bit) set.
pub open spec fn byte_with(b: u8, k: int) -> u8 {
    b | (1u8 << ((7 - k) as u8))
}

/// The bitfield `bf` with piece `index` marked; unchanged when `index` is out of range.
pub open spec fn with_bit(bf: Seq<u8>, index: int) -> Seq<u8> {
    if 0 <= index && index / 8 < bf.len() {
        bf.update(index / 8, byte_with(bf[index / 8], index % 8))
    } else {
        bf
    }
}

proof fn lemma_byte_with(b: u8, sk: u8, sj: u8)
    requires
        sk < 8,
        sj < 8,
    ensures
        (((b | (1u8 << sk)) >> sj) & 1u8 != 0u8) == (sj == sk || (b >> sj) & 1u8 != 0u8),
{
    assert((((b | (1u8 << sk)) >> sj) & 1u8 != 0u8) == (sj == sk || (b >> sj) & 1u8 != 0u8))
        by (bit_vector)
        requires
            sk < 8,
            sj < 8,
    ;
}

/// Setting a bit makes it present and leaves every other bit as it was.
pub proof fn lemma_set_then_has(bf: Seq<u8>, i: int, j: int)
    requires
        0 <= i,
        i / 8 < bf.len(),
    ensures
        has_bit(with_bit(bf, i), i),
        j != i ==> has_bit(with_bit(bf, i), j) == has_bit(bf, j),
{
    let b = bf[i / 8];
    lemma_byte_with(b, (7 - i % 8) as u8, (7 - i % 8) as u8);
    if 0 <= j && j / 8 < bf.len() && j / 8 == i / 8 {
        lemma_byte_with(b, (7 - i % 8) as u8, (7 - j % 8) as u8);
    }
}

/// Whether the bits mark piece `index`; false when `index` lies beyond them.
pub fn bit_at(bits: &[u8], index: usize) -> (r: bool)
    ensures
        r == has_bit(bits@, index as int),
{
    let byte_index: usize = index / 8;
    let offset: usize = index % 8;
    if byte_index >= bits.len() {
        false
    } else {
        let shift: u8 = (7 - offset) as u8;
        (bits[byte_index] >> shift) & 1u8 != 0u8
    }
}

/// Whether the bitfield marks piece `index`; false when `index` lies beyond it.
pub fn has_piece(bitfield: &mut Bitfield, index: usize) -> (r: bool)
    ensures
        r == has_bit(old(bitfield)@, index as int),
        *final(bitfield) == *old(bitfield),
{
    bit_at(bitfield.as_slice(), index)
}

/// A copy of the bitfield with piece `index` marked; an index beyond it changes nothing.
pub fn set_piece(bitfield: &Bitfield, index: usize) -> (r: Bitfield)
    ensures
        r@ == with_bit(bitfield@, index as int),
        forall|j: int| #[trigger]
            has_bit(r@, j) == (has_bit(bitfield@, j) || (j == index && (index / 8) < bitfield@.len())),
{
    let byte_index: usize = index / 8;
    let offset: usize = index % 8;
    let mut new_bitfield = bitfield.clone();
    if byte_index < new_bitfield.len() {
        let shift: u8 = (7 - offset) as u8;
        let b = new_bitfield[byte_index] | (1u8 << shift);
        new_bitfield.set(byte_index, b);
    }
    proof {
        assert(new_bitfield@ =~= with_bit(bitfield@, index as int));
        assert forall|j: int| #[trigger]
            has_bit(new_bitfield@, j) == (has_bit(bitfield@, j) || (j == index && (index / 8)
                < bitfield@.len())) by {
            if (index / 8) < bitfield@.len() {
                lemma_set_then_has(bitfield@, index as int, j);
            }
        }
    }
    new_bitfield
}

} // verus!
