//! The sliding window of captured samples that spectral demodulation reads.
//!
//! The window is filled block by block, one block per buffer period. Once it
//! is full, every new block pushes the oldest one out. The code is generic in
//! the sample type: it moves samples and never computes with them.

use vstd::prelude::*;

verus! {

/// `window` moved down by `block` samples: the oldest block is gone, the last
/// block keeps what it held.
pub open spec fn shifted<S>(window: Seq<S>, block: int) -> Seq<S> {
    Seq::new(
        window.len(),
        |i: int|
            if i + block < window.len() {
                window[i + block]
            } else {
                window[i]
            },
    )
}

/// `window` with `src` written over the samples from `at` on.
pub open spec fn placed<S>(window: Seq<S>, at: int, src: Seq<S>) -> Seq<S> {
    Seq::new(
        window.len(),
        |i: int|
            if at <= i < at + src.len() {
                src[i - at]
            } else {
                window[i]
            },
    )
}

/// The window and its fill count, in blocks, after the block `src` is added to
/// a window that held `pos` blocks. A full window is moved down first.
pub open spec fn added<S>(window: Seq<S>, pos: int, src: Seq<S>) -> (Seq<S>, int) {
    let block = src.len() as int;
    let room = (window.len() as int) / block;
    if pos >= room {
        (placed(shifted(window, block), block * (room - 1), src), room)
    } else {
        (placed(window, block * pos, src), pos + 1)
    }
}

/// Adds the newest block of captured samples to the window. `pos` counts the
/// blocks the window holds; in a full window the oldest block makes room.
pub fn add_to_buf<S: Copy>(dst: &mut [S], pos: &mut usize, src: &[S])
    requires
        src@.len() > 0,
        old(dst)@.len() >= src@.len(),
    ensures
        (final(dst)@, *final(pos) as int) == added(old(dst)@, *old(pos) as int, src@),
{
    let block: usize = src.len();
    let size: usize = dst.len();
    let room: usize = size / block;
    proof {
        lemma_room(size as int, block as int);
    }
    if *pos >= room {
        let keep: usize = size - block;
        let mut i: usize = 0;
        while i < keep
            invariant
                i <= keep,
                keep + block == size,
                dst@.len() == size,
                old(dst)@.len() == size,
                forall|j: int| 0 <= j < i ==> #[trigger] dst@[j] == old(dst)@[j + block],
                forall|j: int| i <= j < size ==> #[trigger] dst@[j] == old(dst)@[j],
            decreases keep - i,
        {
            let sample: S = dst[i + block];
            dst[i] = sample;
            i = i + 1;
        }
        *pos = room - 1;
    }
    let ghost base = dst@;
    proof {
        lemma_block_fits(size as int, block as int, *pos as int);
    }
    let at: usize = block * *pos;
    let mut i: usize = 0;
    while i < block
        invariant
            i <= block,
            block == src@.len(),
            at + block <= size,
            dst@.len() == size,
            base.len() == size,
            forall|j: int| at <= j < at + i ==> #[trigger] dst@[j] == src@[j - at],
            forall|j: int| 0 <= j < size && !(at <= j < at + i) ==> #[trigger] dst@[j] == base[j],
        decreases block - i,
    {
        dst[at + i] = src[i];
        i = i + 1;
    }
    *pos = *pos + 1;
}

/// The newest `want` samples of a window that holds `pos` blocks of `block`
/// samples, or nothing while the window holds fewer.
pub fn newest<S: Copy>(window: &[S], pos: usize, block: usize, want: usize) -> (out: Option<Vec<S>>)
    requires
        block * pos <= window@.len(),
    ensures
        out is Some <==> want <= block * pos,
        out is Some ==> out->Some_0@ == window@.subrange(block * pos - want, block * pos),
{
    let size: usize = window.len();
    let filled: usize = block * pos;
    if want > filled {
        return None;
    }
    let start: usize = filled - want;
    let mut out: Vec<S> = Vec::with_capacity(want);
    let mut i: usize = 0;
    while i < want
        invariant
            i <= want,
            start + want == filled,
            filled <= size,
            size == window@.len(),
            out@.len() == i,
            forall|j: int| 0 <= j < i ==> #[trigger] out@[j] == window@[start + j],
        decreases want - i,
    {
        out.push(window[start + i]);
        i = i + 1;
    }
    Some(out)
}

/// A window at least one block long has room for one block or more, and all
/// its blocks lie inside it.
pub proof fn lemma_room(size: int, block: int)
    requires
        0 < block <= size,
    ensures
        1 <= size / block,
        block * (size / block) <= size,
{
    vstd::arithmetic::div_mod::lemma_fundamental_div_mod(size, block);
    vstd::arithmetic::div_mod::lemma_mod_bound(size, block);
    let q = size / block;
    assert(q >= 1) by (nonlinear_arith)
        requires
            size == block * q + size % block,
            0 <= size % block < block,
            0 < block <= size,
    ;
}

/// Block `pos` of the window lies inside it when the window has room for more
/// than `pos` blocks.
pub proof fn lemma_block_fits(size: int, block: int, pos: int)
    requires
        0 < block <= size,
        0 <= pos < size / block,
    ensures
        0 <= block * pos,
        block * pos + block <= size,
{
    lemma_room(size, block);
    let q = size / block;
    assert(block * pos + block <= block * q && 0 <= block * pos) by (nonlinear_arith)
        requires
            0 < block,
            0 <= pos < q,
    ;
}

/// What the window holds after a block is added: the blocks it held, then the
/// new one. A full window loses its oldest block.
pub proof fn lemma_added_keeps_order<S>(window: Seq<S>, pos: int, src: Seq<S>)
    requires
        src.len() > 0,
        window.len() >= src.len(),
        0 <= pos <= (window.len() as int) / (src.len() as int),
    ensures
        ({
            let block = src.len() as int;
            let held = window.take(block * pos);
            let (after, count) = added(window, pos, src);
            after.take(block * count) == (if pos < (window.len() as int) / block {
                held + src
            } else {
                held.skip(block) + src
            })
        }),
{
    let block = src.len() as int;
    let room = (window.len() as int) / block;
    lemma_room(window.len() as int, block);
    if pos < room {
        lemma_block_fits(window.len() as int, block, pos);
        assert(block * (pos + 1) == block * pos + block) by (nonlinear_arith);
    } else {
        lemma_block_fits(window.len() as int, block, room - 1);
        assert(block * (room - 1) + block == block * room) by (nonlinear_arith);
    }
}

} // verus!
