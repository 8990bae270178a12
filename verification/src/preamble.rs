//! The preamble that both ends of the link agree on.

use crate::bits::all_bits;
use vstd::prelude::*;

verus! {

/// Symbols in the preamble.
pub const PREAMBLE_LEN: usize = 256;

/// The preamble: a fixed pattern of bit symbols sent before every packet.
pub const PREAMBLE: [u8; 256] = [
    1, 0, 1, 0, 1, 1, 1, 1, 0, 0, 1, 0, 1, 1, 0, 0, 0, 1, 0, 0, 1, 0, 0, 1, 0, 0, 0, 0, 1, 0, 0, 1,
    0, 0, 0, 0, 1, 0, 1, 1, 0, 0, 1, 1, 0, 0, 1, 1, 1, 1, 1, 0, 1, 1, 1, 1, 0, 1, 1, 1, 1, 1, 1, 1,
    0, 0, 1, 1, 0, 1, 1, 1, 1, 1, 1, 0, 0, 0, 1, 1, 1, 0, 0, 1, 1, 1, 0, 0, 1, 0, 1, 1, 0, 1, 1, 1,
    1, 1, 1, 1, 0, 1, 1, 0, 1, 1, 0, 1, 1, 0, 0, 0, 1, 1, 0, 0, 1, 1, 1, 0, 0, 1, 1, 0, 0, 1, 0, 1,
    0, 0, 0, 1, 1, 1, 0, 1, 1, 0, 0, 0, 0, 1, 1, 1, 0, 0, 1, 0, 0, 0, 1, 1, 1, 0, 0, 1, 0, 1, 0, 0,
    1, 1, 0, 0, 0, 1, 1, 1, 1, 0, 1, 0, 0, 1, 0, 1, 0, 1, 1, 0, 1, 0, 1, 0, 0, 1, 1, 0, 1, 1, 0, 1,
    1, 0, 1, 1, 1, 0, 0, 0, 0, 1, 1, 1, 0, 0, 1, 1, 1, 1, 1, 1, 1, 1, 0, 0, 0, 1, 1, 0, 0, 0, 1, 1,
    0, 0, 0, 0, 1, 1, 1, 0, 1, 0, 0, 0, 1, 0, 0, 0, 1, 0, 1, 0, 1, 0, 1, 0, 0, 1, 0, 1, 0, 0, 1, 1,
];

/// The preamble as a buffer of its own, for a framer or a synchronizer.
pub fn preamble() -> (symbols: Vec<u8>)
    ensures
        symbols@ == PREAMBLE@,
        symbols@.len() == PREAMBLE_LEN,
        all_bits(symbols@),
{
    let mut symbols: Vec<u8> = Vec::with_capacity(PREAMBLE_LEN);
    let mut i: usize = 0;
    while i < PREAMBLE_LEN
        invariant
            i <= PREAMBLE_LEN,
            symbols@.len() == i,
            forall|j: int| 0 <= j < i ==> #[trigger] symbols@[j] == PREAMBLE@[j],
            forall|j: int| 0 <= j < i ==> #[trigger] symbols@[j] <= 1,
        decreases PREAMBLE_LEN - i,
    {
        symbols.push(PREAMBLE[i]);
        i = i + 1;
    }
    symbols
}

} // verus!
