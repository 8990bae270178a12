//! The one-byte integrity check: the XOR of every byte of a frame.

use vstd::prelude::*;

verus! {

/// The XOR of all bytes of `bytes`; 0 for the empty sequence.
pub open spec fn xor_fold(bytes: Seq<u8>) -> u8
    decreases bytes.len(),
{
    if bytes.len() == 0 {
        0
    } else {
        xor_fold(bytes.drop_last()) ^ bytes.last()
    }
}

/// `byte` with bit `bit` inverted.
pub open spec fn flip_bit(byte: u8, bit: u8) -> u8 {
    byte ^ (1u8 << bit)
}

/// Folds a buffer into its XOR checksum.
pub fn fold_bytes(bytes: &[u8]) -> (sum: u8)
    ensures
        sum == xor_fold(bytes@),
{
    let mut sum: u8 = 0;
    let mut i: usize = 0;
    while i < bytes.len()
        invariant
            i <= bytes@.len(),
            sum == xor_fold(bytes@.take(i as int)),
        decreases bytes@.len() - i,
    {
        assert(bytes@.take(i + 1).drop_last() =~= bytes@.take(i as int));
        sum = sum ^ bytes[i];
        i = i + 1;
    }
    assert(bytes@.take(i as int) =~= bytes@);
    sum
}

/// The fold of a concatenation is the XOR of the folds of its parts.
pub proof fn lemma_fold_concat(a: Seq<u8>, b: Seq<u8>)
    ensures
        xor_fold(a + b) == xor_fold(a) ^ xor_fold(b),
    decreases b.len(),
{
    let fa = xor_fold(a);
    if b.len() == 0 {
        assert(fa ^ 0u8 == fa) by (bit_vector);
    } else {
        assert((a + b).drop_last() =~= a + b.drop_last());
        lemma_fold_concat(a, b.drop_last());
        let fb = xor_fold(b.drop_last());
        let x = b.last();
        assert((fa ^ fb) ^ x == fa ^ (fb ^ x)) by (bit_vector);
    }
}

/// Appending the fold of a sequence to it makes the whole fold to zero, and
/// no other byte does.
pub proof fn lemma_fold_closes(body: Seq<u8>, last: u8)
    ensures
        xor_fold(body.push(last)) == 0 <==> last == xor_fold(body),
{
    assert(body.push(last).drop_last() =~= body);
    let f = xor_fold(body);
    assert((f ^ last == 0) <==> (last == f)) by (bit_vector);
}

/// Replacing one byte changes the fold by the XOR of the old and the new byte.
pub proof fn lemma_fold_update(bytes: Seq<u8>, at: int, byte: u8)
    requires
        0 <= at < bytes.len(),
    ensures
        xor_fold(bytes.update(at, byte)) == xor_fold(bytes) ^ bytes[at] ^ byte,
{
    let head = bytes.take(at);
    let tail = bytes.skip(at + 1);
    assert(bytes =~= head + seq![bytes[at]] + tail);
    assert(bytes.update(at, byte) =~= head + seq![byte] + tail);
    lemma_fold_concat(head, seq![bytes[at]]);
    lemma_fold_concat(head + seq![bytes[at]], tail);
    lemma_fold_concat(head, seq![byte]);
    lemma_fold_concat(head + seq![byte], tail);
    lemma_fold_closes(Seq::<u8>::empty(), bytes[at]);
    lemma_fold_closes(Seq::<u8>::empty(), byte);
    assert(seq![byte].drop_last() =~= Seq::<u8>::empty());
    assert(seq![bytes[at]].drop_last() =~= Seq::<u8>::empty());
    let h = xor_fold(head);
    let t = xor_fold(tail);
    let o = bytes[at];
    assert(0u8 ^ o == o) by (bit_vector);
    assert(0u8 ^ byte == byte) by (bit_vector);
    assert(((h ^ byte) ^ t) == ((h ^ o) ^ t) ^ o ^ byte) by (bit_vector);
}

/// Inverting any single bit of a sequence changes its fold.
pub proof fn lemma_flip_changes_fold(bytes: Seq<u8>, at: int, bit: u8)
    requires
        0 <= at < bytes.len(),
        bit < 8,
    ensures
        xor_fold(bytes.update(at, flip_bit(bytes[at], bit))) != xor_fold(bytes),
{
    lemma_fold_update(bytes, at, flip_bit(bytes[at], bit));
    let f = xor_fold(bytes);
    let o = bytes[at];
    assert(f ^ o ^ (o ^ (1u8 << bit)) != f) by (bit_vector)
        requires
            bit < 8,
    ;
}

} // verus!
