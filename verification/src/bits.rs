//! Bytes as bit symbols, least significant bit first.
//!
//! The transmit side unpacks every byte into eight symbols; the receive side
//! packs eight symbols back into a byte. Both ends use the same order.

use vstd::prelude::*;

verus! {

/// The bit symbol at position `i` of `byte`, counting from the least significant bit.
pub open spec fn bit_at(byte: u8, i: int) -> u8 {
    (byte >> (i as u8)) & 1u8
}

/// The eight bit symbols of `byte`, least significant first.
pub open spec fn byte_bits(byte: u8) -> Seq<u8> {
    Seq::new(8, |i: int| bit_at(byte, i))
}

/// The byte whose bit `i` is symbol `i` of `bits`.
pub open spec fn bits_byte(bits: Seq<u8>) -> u8 {
    (bits[0] << 0u8) | (bits[1] << 1u8) | (bits[2] << 2u8) | (bits[3] << 3u8) | (bits[4] << 4u8)
        | (bits[5] << 5u8) | (bits[6] << 6u8) | (bits[7] << 7u8)
}

/// Every symbol of `bits` is 0 or 1.
pub open spec fn all_bits(bits: Seq<u8>) -> bool {
    forall|i: int| 0 <= i < bits.len() ==> #[trigger] bits[i] <= 1
}

/// The symbol stream of a byte sequence: eight symbols per byte, in order.
pub open spec fn bits_of(bytes: Seq<u8>) -> Seq<u8> {
    Seq::new(8 * bytes.len(), |k: int| bit_at(bytes[k / 8], k % 8))
}

/// The bytes carried by a symbol stream; symbols beyond the last whole byte are left out.
pub open spec fn bytes_of(bits: Seq<u8>) -> Seq<u8> {
    Seq::new(bits.len() / 8, |j: int| bits_byte(bits.subrange(8 * j, 8 * j + 8)))
}

/// The groups of eight laid end to end.
pub open spec fn flat(groups: Seq<[u8; 8]>) -> Seq<u8> {
    Seq::new(8 * groups.len(), |k: int| groups[k / 8]@[k % 8])
}

/// Splits a byte into its eight bit symbols, least significant bit first.
pub fn unpack_byte(input: u8) -> (bits: [u8; 8])
    ensures
        bits@ == byte_bits(input),
{
    let bits: [u8; 8] = [
        (input >> 0) & 1,
        (input >> 1) & 1,
        (input >> 2) & 1,
        (input >> 3) & 1,
        (input >> 4) & 1,
        (input >> 5) & 1,
        (input >> 6) & 1,
        (input >> 7) & 1,
    ];
    bits
}

/// Packs eight bit symbols into a byte, symbol `i` into bit `i`.
pub fn pack_byte(arr: [u8; 8]) -> (byte: u8)
    ensures
        byte == bits_byte(arr@),
{
    (arr[0] << 0) | (arr[1] << 1) | (arr[2] << 2) | (arr[3] << 3) | (arr[4] << 4) | (arr[5] << 5)
        | (arr[6] << 6) | (arr[7] << 7)
}

/// Lays groups of eight symbols end to end.
pub fn flatten(vec: Vec<[u8; 8]>) -> (out: Vec<u8>)
    ensures
        out@ == flat(vec@),
{
    let mut out: Vec<u8> = Vec::new();
    let mut i: usize = 0;
    while i < vec.len()
        invariant
            i <= vec@.len(),
            out@.len() == 8 * i,
            forall|k: int| 0 <= k < 8 * i ==> #[trigger] out@[k] == vec@[k / 8]@[k % 8],
        decreases vec@.len() - i,
    {
        let group: [u8; 8] = vec[i];
        let mut j: usize = 0;
        while j < 8
            invariant
                i < vec@.len(),
                j <= 8,
                group == vec@[i as int],
                out@.len() == 8 * i + j,
                forall|k: int| 0 <= k < 8 * i + j ==> #[trigger] out@[k] == vec@[k / 8]@[k % 8],
            decreases 8 - j,
        {
            out.push(group[j]);
            j = j + 1;
        }
        i = i + 1;
    }
    out
}

/// Turns bytes into the symbol stream that carries them.
pub fn unpack_bytes(bytes: &[u8]) -> (bits: Vec<u8>)
    ensures
        bits@ == bits_of(bytes@),
{
    let mut groups: Vec<[u8; 8]> = Vec::new();
    let mut i: usize = 0;
    while i < bytes.len()
        invariant
            i <= bytes@.len(),
            groups@.len() == i,
            forall|j: int| 0 <= j < i ==> (#[trigger] groups@[j])@ == byte_bits(bytes@[j]),
        decreases bytes@.len() - i,
    {
        groups.push(unpack_byte(bytes[i]));
        i = i + 1;
    }
    let bits = flatten(groups);
    bits
}

/// Tells whether every symbol of a buffer is 0 or 1.
pub fn is_bit_stream(symbols: &[u8]) -> (ok: bool)
    ensures
        ok == all_bits(symbols@),
{
    let mut i: usize = 0;
    while i < symbols.len()
        invariant
            i <= symbols@.len(),
            forall|j: int| 0 <= j < i ==> #[trigger] symbols@[j] <= 1,
        decreases symbols@.len() - i,
    {
        if symbols[i] > 1 {
            return false;
        }
        i = i + 1;
    }
    true
}

/// Packing the symbols of a byte gives the byte back.
pub proof fn lemma_pack_unpack(byte: u8)
    ensures
        bits_byte(byte_bits(byte)) == byte,
{
    let b = byte;
    assert((((b >> 0u8) & 1u8) << 0u8) | (((b >> 1u8) & 1u8) << 1u8) | (((b >> 2u8) & 1u8) << 2u8)
        | (((b >> 3u8) & 1u8) << 3u8) | (((b >> 4u8) & 1u8) << 4u8) | (((b >> 5u8) & 1u8) << 5u8)
        | (((b >> 6u8) & 1u8) << 6u8) | (((b >> 7u8) & 1u8) << 7u8) == b) by (bit_vector);
}

/// Unpacking a byte packed from eight bit symbols gives the symbols back.
pub proof fn lemma_unpack_pack(bits: Seq<u8>)
    requires
        bits.len() == 8,
        all_bits(bits),
    ensures
        byte_bits(bits_byte(bits)) == bits,
{
    let b0 = bits[0];
    let b1 = bits[1];
    let b2 = bits[2];
    let b3 = bits[3];
    let b4 = bits[4];
    let b5 = bits[5];
    let b6 = bits[6];
    let b7 = bits[7];
    let x = bits_byte(bits);
    assert(((x >> 0u8) & 1u8) == b0 && ((x >> 1u8) & 1u8) == b1 && ((x >> 2u8) & 1u8) == b2 && ((x
        >> 3u8) & 1u8) == b3 && ((x >> 4u8) & 1u8) == b4 && ((x >> 5u8) & 1u8) == b5 && ((x >> 6u8)
        & 1u8) == b6 && ((x >> 7u8) & 1u8) == b7) by (bit_vector)
        requires
            x == (b0 << 0u8) | (b1 << 1u8) | (b2 << 2u8) | (b3 << 3u8) | (b4 << 4u8) | (b5 << 5u8)
                | (b6 << 6u8) | (b7 << 7u8),
            b0 <= 1,
            b1 <= 1,
            b2 <= 1,
            b3 <= 1,
            b4 <= 1,
            b5 <= 1,
            b6 <= 1,
            b7 <= 1,
    ;
}

/// A byte unpacks into bit symbols only.
pub proof fn lemma_byte_bits_are_bits(byte: u8)
    ensures
        all_bits(byte_bits(byte)),
{
    assert forall|i: int| 0 <= i < 8 implies #[trigger] byte_bits(byte)[i] <= 1 by {
        let s = i as u8;
        assert((byte >> s) & 1u8 <= 1) by (bit_vector);
    }
}

/// The symbol stream of a byte sequence consists of bit symbols only.
pub proof fn lemma_bits_of_are_bits(bytes: Seq<u8>)
    ensures
        all_bits(bits_of(bytes)),
{
    assert forall|k: int| 0 <= k < bits_of(bytes).len() implies #[trigger] bits_of(bytes)[k]
        <= 1 by {
        lemma_byte_bits_are_bits(bytes[k / 8]);
        assert(byte_bits(bytes[k / 8])[k % 8] <= 1);
    }
}

/// Packing the symbol stream of a byte sequence gives the bytes back.
pub proof fn lemma_bytes_of_bits_of(bytes: Seq<u8>)
    ensures
        bytes_of(bits_of(bytes)) == bytes,
{
    let bits = bits_of(bytes);
    assert forall|j: int| 0 <= j < bytes.len() implies #[trigger] bytes_of(bits)[j]
        == bytes[j] by {
        lemma_pack_unpack(bytes[j]);
    }
}

} // verus!
