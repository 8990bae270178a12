//! The duplex audio callback, as a step function over explicit state.
//!
//! The callback is generic in the sample type: it only moves samples
//! between buffers and never computes with them.

use vstd::prelude::*;

verus! {

/// Interleaved channels per frame; both carry the same mono signal.
pub const CHANNELS: usize = 2;

/// What the callback remembers from one buffer period to the next.
pub struct Driver {
    symbol: usize,
    phase: usize,
}

/// Every symbol has a waveform, and all waveforms have the same non-zero length.
pub open spec fn tables_wf<S>(tables: Seq<Vec<S>>) -> bool {
    &&& tables.len() > 0
    &&& tables[0]@.len() > 0
    &&& forall|s: int| 0 <= s < tables.len() ==> (#[trigger] tables[s])@.len() == tables[0]@.len()
}

/// Length shared by all waveforms of a well-formed table set.
pub open spec fn table_len<S>(tables: Seq<Vec<S>>) -> int {
    tables[0]@.len() as int
}

/// The sample played at position `k` of an interleaved output buffer when the
/// waveform of `symbol` is read from `phase` on, wrapping at the table's end.
pub open spec fn played<S>(tables: Seq<Vec<S>>, symbol: int, phase: int, k: int) -> S {
    tables[symbol]@[(phase + k / 2) % table_len(tables)]
}

impl Driver {
    /// Index of the symbol currently being played.
    pub closed spec fn symbol(&self) -> int {
        self.symbol as int
    }

    /// Position in the waveform of the next sample to play.
    pub closed spec fn phase(&self) -> int {
        self.phase as int
    }

    /// The state fits a table set: its symbol has a waveform and its phase lies inside it.
    pub open spec fn fits<S>(&self, tables: Seq<Vec<S>>) -> bool {
        &&& tables_wf(tables)
        &&& 0 <= self.symbol() < tables.len()
        &&& 0 <= self.phase() < table_len(tables)
    }

    /// A driver that plays symbol 0 from the start of its waveform.
    pub fn new() -> (d: Driver)
        ensures
            d.symbol() == 0,
            d.phase() == 0,
    {
        Driver { symbol: 0, phase: 0 }
    }

    /// Reads the single-slot mailbox: a posted symbol is adopted, an empty
    /// mailbox leaves the current symbol in place.
    pub fn adopt(&mut self, mailbox: Option<usize>)
        ensures
            final(self).symbol() == (match mailbox {
                Some(s) => s as int,
                None => old(self).symbol(),
            }),
            final(self).phase() == old(self).phase(),
    {
        match mailbox {
            Some(s) => {
                self.symbol = s;
            },
            None => {},
        }
    }

    /// Fills an interleaved output buffer from the current symbol's waveform,
    /// both channels alike, and advances the phase modulo the table length.
    pub fn synthesize<S: Copy>(&mut self, tables: &Vec<Vec<S>>, output: &mut [S])
        requires
            old(self).fits(tables@),
            old(output)@.len() % 2 == 0,
        ensures
            final(output)@.len() == old(output)@.len(),
            forall|k: int|
                0 <= k < old(output)@.len() ==> #[trigger] final(output)@[k] == played(
                    tables@,
                    old(self).symbol(),
                    old(self).phase(),
                    k,
                ),
            final(self).symbol() == old(self).symbol(),
            final(self).phase() == (old(self).phase() + old(output)@.len() / 2) % table_len(
                tables@,
            ),
    {
        let frames: usize = output.len() / CHANNELS;
        let table: &Vec<S> = &tables[self.symbol];
        let size: usize = table.len();
        let ghost start: int = self.phase as int;
        let mut phase: usize = self.phase;
        let mut i: usize = 0;
        proof {
            assert(start % (size as int) == start) by (nonlinear_arith)
                requires
                    0 <= start < size,
            ;
        }
        while i < frames
            invariant
                frames == old(output)@.len() / 2,
                old(output)@.len() % 2 == 0,
                old(output)@.len() <= usize::MAX,
                output@.len() == old(output)@.len(),
                i <= frames,
                tables_wf(tables@),
                size == table_len(tables@),
                table@ == tables@[old(self).symbol()]@,
                0 <= old(self).symbol() < tables@.len(),
                start == old(self).phase(),
                phase < size,
                phase == (start + i) % (size as int),
                forall|k: int|
                    0 <= k < 2 * i ==> #[trigger] output@[k] == played(
                        tables@,
                        old(self).symbol(),
                        start,
                        k,
                    ),
            decreases frames - i,
        {
            let sample: S = table[phase];
            let at: usize = CHANNELS * i;
            output[at] = sample;
            output[at + 1] = sample;
            proof {
                lemma_wrap_step(start + i, size as int);
            }
            phase = phase + 1;
            if phase >= size {
                phase = phase - size;
            }
            i = i + 1;
        }
        self.phase = phase;
    }

    /// One buffer period of the callback: captures the first input channel,
    /// reads the symbol mailbox, then synthesizes the output buffer.
    pub fn step<S: Copy>(
        &mut self,
        tables: &Vec<Vec<S>>,
        mailbox: Option<usize>,
        input: &[S],
        output: &mut [S],
    ) -> (captured: Vec<S>)
        requires
            old(self).fits(tables@),
            mailbox matches Some(s) ==> s < tables@.len(),
            input@.len() == old(output)@.len(),
            input@.len() % 2 == 0,
        ensures
            captured@ == first_channel(input@),
            final(self).symbol() == (match mailbox {
                Some(s) => s as int,
                None => old(self).symbol(),
            }),
            final(self).phase() == (old(self).phase() + input@.len() / 2) % table_len(tables@),
            final(self).fits(tables@),
            final(output)@.len() == old(output)@.len(),
            forall|k: int|
                0 <= k < old(output)@.len() ==> #[trigger] final(output)@[k] == played(
                    tables@,
                    final(self).symbol(),
                    old(self).phase(),
                    k,
                ),
    {
        let captured = capture(input);
        self.adopt(mailbox);
        self.synthesize(tables, output);
        proof {
            vstd::arithmetic::div_mod::lemma_mod_bound(
                old(self).phase() + input@.len() / 2,
                table_len(tables@),
            );
        }
        captured
    }
}

/// The first channel of an interleaved buffer: every second sample, from the first.
pub open spec fn first_channel<S>(input: Seq<S>) -> Seq<S> {
    Seq::new(input.len() / 2, |i: int| input[2 * i])
}

/// Copies the first channel of an interleaved input buffer into a message of its own.
pub fn capture<S: Copy>(input: &[S]) -> (message: Vec<S>)
    requires
        input@.len() % 2 == 0,
    ensures
        message@ == first_channel(input@),
{
    let frames: usize = input.len() / CHANNELS;
    let mut message: Vec<S> = Vec::with_capacity(frames);
    let mut i: usize = 0;
    while i < frames
        invariant
            frames == input@.len() / 2,
            input@.len() % 2 == 0,
            input@.len() <= usize::MAX,
            i <= frames,
            message@.len() == i,
            forall|j: int| 0 <= j < i ==> #[trigger] message@[j] == input@[2 * j],
        decreases frames - i,
    {
        message.push(input[CHANNELS * i]);
        i = i + 1;
    }
    message
}

/// One sample further along a table of length `size` is the next index, or
/// index 0 after the last one.
pub proof fn lemma_wrap_step(at: int, size: int)
    requires
        0 <= at,
        0 < size,
    ensures
        (at + 1) % size == (if at % size + 1 == size {
            0
        } else {
            at % size + 1
        }),
{
    vstd::arithmetic::div_mod::lemma_fundamental_div_mod(at, size);
    vstd::arithmetic::div_mod::lemma_fundamental_div_mod(at + 1, size);
    vstd::arithmetic::div_mod::lemma_mod_bound(at, size);
    vstd::arithmetic::div_mod::lemma_mod_bound(at + 1, size);
    let q = at / size;
    let r = at % size;
    if r + 1 == size {
        assert(at + 1 == (q + 1) * size + 0) by (nonlinear_arith)
            requires
                at == size * q + r,
                r + 1 == size,
        ;
        vstd::arithmetic::div_mod::lemma_fundamental_div_mod_converse(at + 1, size, q + 1, 0);
    } else {
        assert(at + 1 == q * size + (r + 1)) by (nonlinear_arith)
            requires
                at == size * q + r,
        ;
        vstd::arithmetic::div_mod::lemma_fundamental_div_mod_converse(at + 1, size, q, r + 1);
    }
}

} // verus!
