//! The radio context: the state that the caller, the transmit framer and the
//! receive synchronizer share.

use crate::bits::all_bits;
use crate::error::RadioError;
use std::collections::VecDeque;
use vstd::prelude::*;

verus! {

/// The frame id counter and the two queues of a link. Both queues are first
/// in, first out.
pub struct Radio {
    frame_id: u8,
    pending: VecDeque<Vec<u8>>,
    delivered: VecDeque<String>,
}

impl Radio {
    /// The id that the next packet will carry.
    pub closed spec fn frame_id(&self) -> u8 {
        self.frame_id
    }

    /// The symbol buffers waiting to be sent, oldest first.
    pub closed spec fn pending(&self) -> Seq<Seq<u8>> {
        self.pending@.map_values(|buffer: Vec<u8>| buffer@)
    }

    /// The received texts waiting to be fetched, oldest first.
    pub closed spec fn delivered(&self) -> Seq<Seq<char>> {
        self.delivered@.map_values(|text: String| text@)
    }

    /// Every pending buffer is a non-empty stream of bit symbols.
    pub open spec fn wf(&self) -> bool {
        forall|i: int|
            0 <= i < self.pending().len() ==> (#[trigger] self.pending()[i]).len() > 0 && all_bits(
                self.pending()[i],
            )
    }

    /// A radio with its counter at zero and both queues empty.
    pub fn new() -> (radio: Radio)
        ensures
            radio.wf(),
            radio.frame_id() == 0,
            radio.pending() == Seq::<Seq<u8>>::empty(),
            radio.delivered() == Seq::<Seq<char>>::empty(),
    {
        Radio { frame_id: 0, pending: VecDeque::new(), delivered: VecDeque::new() }
    }

    /// How many symbol buffers wait to be sent.
    pub fn pending_len(&self) -> (n: usize)
        ensures
            n == self.pending().len(),
    {
        self.pending.len()
    }

    /// How many received texts wait to be fetched.
    pub fn delivered_len(&self) -> (n: usize)
        ensures
            n == self.delivered().len(),
    {
        self.delivered.len()
    }

    /// The frame id counter, for the packetizer to draw from.
    pub(crate) fn frame_id_mut(&mut self) -> (counter: &mut u8)
        ensures
            *counter == old(self).frame_id(),
            final(self).frame_id() == *final(counter),
            final(self).pending() == old(self).pending(),
            final(self).delivered() == old(self).delivered(),
    {
        &mut self.frame_id
    }

    /// Appends a symbol buffer to the pending-transmit queue.
    pub(crate) fn enqueue(&mut self, buffer: Vec<u8>)
        ensures
            final(self).pending() == old(self).pending().push(buffer@),
            final(self).frame_id() == old(self).frame_id(),
            final(self).delivered() == old(self).delivered(),
    {
        self.pending.push_back(buffer);
    }

    /// Takes the oldest symbol buffer off the pending-transmit queue.
    pub fn next_buffer(&mut self) -> (buffer: Option<Vec<u8>>)
        ensures
            buffer is Some <==> old(self).pending().len() > 0,
            buffer is Some ==> buffer->Some_0@ == old(self).pending()[0],
            buffer is Some ==> final(self).pending() == old(self).pending().drop_first(),
            buffer is None ==> final(self).pending() == old(self).pending(),
            final(self).frame_id() == old(self).frame_id(),
            final(self).delivered() == old(self).delivered(),
    {
        self.pending.pop_front()
    }

    /// Appends a received text to the delivery queue.
    pub fn deliver(&mut self, text: String)
        ensures
            final(self).delivered() == old(self).delivered().push(text@),
            final(self).frame_id() == old(self).frame_id(),
            final(self).pending() == old(self).pending(),
    {
        self.delivered.push_back(text);
    }

    /// Takes the oldest received text off the delivery queue.
    pub fn fetch(&mut self) -> (text: Option<String>)
        ensures
            text is Some <==> old(self).delivered().len() > 0,
            text is Some ==> text->Some_0@ == old(self).delivered()[0],
            text is Some ==> final(self).delivered() == old(self).delivered().drop_first(),
            text is None ==> final(self).delivered() == old(self).delivered(),
            final(self).frame_id() == old(self).frame_id(),
            final(self).pending() == old(self).pending(),
    {
        self.delivered.pop_front()
    }
}

/// Brings the link up: fills an empty slot with a fresh radio. A slot that
/// holds a radio is left alone and the call fails with `AlreadyInitialized`.
pub fn start(slot: &mut Option<Radio>) -> (r: Result<(), RadioError>)
    ensures
        r is Ok <==> *old(slot) is None,
        *final(slot) is Some,
        *old(slot) is None ==> (*final(slot))->Some_0.wf(),
        *old(slot) is None ==> (*final(slot))->Some_0.frame_id() == 0,
        *old(slot) is None ==> (*final(slot))->Some_0.pending() == Seq::<Seq<u8>>::empty(),
        *old(slot) is None ==> (*final(slot))->Some_0.delivered() == Seq::<Seq<char>>::empty(),
        *old(slot) is Some ==> r == Err::<(), RadioError>(RadioError::AlreadyInitialized),
        *old(slot) is Some ==> *final(slot) == *old(slot),
{
    if slot.is_none() {
        *slot = Some(Radio::new());
        Ok(())
    } else {
        Err(RadioError::AlreadyInitialized)
    }
}

} // verus!
