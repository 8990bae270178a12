//! The receive side: the synchronizer that locks onto the preamble and
//! reassembles frames from the symbol stream, and the delivery of their text.

use crate::bits::{bits_byte, bits_of, byte_bits, lemma_pack_unpack, pack_byte};
use crate::error::RadioError;
use crate::matcher::{
    advance, ends_with, lemma_advance_tracks, lemma_overlap_bounded, lemma_overlap_full, overlap,
    Matcher,
};
use crate::packet::{decode, parse_frame, payloads, well_framed, Packet, PacketView};
use crate::radio::Radio;
use vstd::prelude::*;

verus! {

/// How incoming symbols are read.
#[derive(Clone, Copy, Debug, PartialEq, Eq, Structural)]
pub enum RxState {
    /// The stream is searched for the preamble.
    SearchingPreamble,
    /// The symbols are collected as the bytes of a frame.
    ReceivingPacket,
}

/// What a symbol brought about.
#[derive(Debug, PartialEq, Eq)]
pub enum RxEvent {
    /// Nothing to report.
    Nothing,
    /// The preamble ended with this symbol: a frame follows.
    Locked,
    /// A frame ended with this symbol and decoded to this packet.
    Delivered(Packet),
    /// A frame ended with this symbol and was dropped for this reason.
    Dropped(RadioError),
}

/// An event as a mathematical value.
pub ghost enum RxOutcome {
    Nothing,
    Locked,
    Delivered(PacketView),
    Dropped(RadioError),
}

impl View for RxEvent {
    type V = RxOutcome;

    open spec fn view(&self) -> RxOutcome {
        match self {
            RxEvent::Nothing => RxOutcome::Nothing,
            RxEvent::Locked => RxOutcome::Locked,
            RxEvent::Delivered(p) => RxOutcome::Delivered(p@),
            RxEvent::Dropped(e) => RxOutcome::Dropped(*e),
        }
    }
}

/// The synchronizer as a mathematical value.
pub ghost struct SyncView {
    /// The preamble looked for.
    pub pattern: Seq<u8>,
    /// The state of the machine.
    pub state: RxState,
    /// How many symbols of the preamble the stream has matched.
    pub progress: int,
    /// The symbols of the byte being assembled, first received first.
    pub partial: Seq<u8>,
    /// The bytes of the frame received so far.
    pub frame: Seq<u8>,
}

/// The frame holds its header and as many bytes as the header announces:
/// header, payload and checksum.
pub open spec fn frame_complete(frame: Seq<u8>) -> bool {
    frame.len() > 3 && frame.len() >= frame[3] + 5
}

/// A synchronizer for `pattern` that searches, having seen nothing.
pub open spec fn sync_init(pattern: Seq<u8>) -> SyncView {
    SyncView {
        pattern,
        state: RxState::SearchingPreamble,
        progress: 0,
        partial: Seq::empty(),
        frame: Seq::empty(),
    }
}

/// The progress lies inside the preamble, the byte in hand is unfinished and
/// so is the frame; a searching synchronizer holds no part of a frame.
pub open spec fn sync_wf(v: SyncView) -> bool {
    &&& v.pattern.len() > 0
    &&& 0 <= v.progress < v.pattern.len()
    &&& v.partial.len() < 8
    &&& !frame_complete(v.frame)
    &&& (v.state is SearchingPreamble ==> v.partial.len() == 0 && v.frame.len() == 0)
    &&& (v.state is ReceivingPacket ==> v.progress == 0)
}

/// What a finished frame is reported as.
pub open spec fn frame_outcome(frame: Seq<u8>) -> RxOutcome {
    match parse_frame(frame) {
        Ok(p) => RxOutcome::Delivered(p),
        Err(e) => RxOutcome::Dropped(e),
    }
}

/// One symbol. While searching, the progress through the preamble is
/// advanced, and the symbol that completes the preamble locks. While
/// receiving, every eighth symbol completes a byte, and the byte that completes
/// the frame ends it: the frame is decoded and the search begins anew.
pub open spec fn sync_step(v: SyncView, bit: u8) -> (SyncView, RxOutcome) {
    match v.state {
        RxState::SearchingPreamble => {
            let k = advance(v.pattern, v.progress, bit);
            if k == v.pattern.len() {
                (sync_locked(v.pattern), RxOutcome::Locked)
            } else {
                (SyncView { progress: k, ..v }, RxOutcome::Nothing)
            }
        },
        RxState::ReceivingPacket => {
            let partial = v.partial.push(bit);
            if partial.len() < 8 {
                (SyncView { partial, ..v }, RxOutcome::Nothing)
            } else {
                let frame = v.frame.push(bits_byte(partial));
                if frame_complete(frame) {
                    (sync_init(v.pattern), frame_outcome(frame))
                } else {
                    (SyncView { partial: Seq::empty(), frame, ..v }, RxOutcome::Nothing)
                }
            }
        },
    }
}

/// The synchronizer after a stream of symbols.
pub open spec fn sync_run(v: SyncView, bits: Seq<u8>) -> SyncView
    decreases bits.len(),
{
    if bits.len() == 0 {
        v
    } else {
        sync_step(sync_run(v, bits.drop_last()), bits.last()).0
    }
}

/// The packets that a stream of symbols delivers, in order.
pub open spec fn sync_yield(v: SyncView, bits: Seq<u8>) -> Seq<PacketView>
    decreases bits.len(),
{
    if bits.len() == 0 {
        Seq::empty()
    } else {
        let before = sync_yield(v, bits.drop_last());
        match sync_step(sync_run(v, bits.drop_last()), bits.last()).1 {
            RxOutcome::Delivered(p) => before.push(p),
            _ => before,
        }
    }
}

/// The number of frames that a stream of symbols ends and that are dropped.
pub open spec fn sync_drops(v: SyncView, bits: Seq<u8>) -> nat
    decreases bits.len(),
{
    if bits.len() == 0 {
        0
    } else {
        let before = sync_drops(v, bits.drop_last());
        match sync_step(sync_run(v, bits.drop_last()), bits.last()).1 {
            RxOutcome::Dropped(_) => before + 1,
            _ => before,
        }
    }
}

/// A symbol keeps a well-formed synchronizer well-formed, with its preamble.
pub proof fn lemma_sync_step_wf(v: SyncView, bit: u8)
    requires
        sync_wf(v),
    ensures
        sync_wf(sync_step(v, bit).0),
        sync_step(v, bit).0.pattern == v.pattern,
{
    if v.state is SearchingPreamble {
        crate::matcher::lemma_overlap_bounded(v.pattern.take(v.progress).push(bit), v.pattern);
    }
}

/// A synchronizer that has locked and holds the given part of a frame.
pub open spec fn receiving(pattern: Seq<u8>, partial: Seq<u8>, frame: Seq<u8>) -> SyncView {
    SyncView { pattern, state: RxState::ReceivingPacket, progress: 0, partial, frame }
}

/// A synchronizer that has just locked.
pub open spec fn sync_locked(pattern: Seq<u8>) -> SyncView {
    receiving(pattern, Seq::empty(), Seq::empty())
}

/// Running over two streams on end is running over the first, then the second.
pub proof fn lemma_sync_run_concat(v: SyncView, a: Seq<u8>, b: Seq<u8>)
    ensures
        sync_run(v, a + b) == sync_run(sync_run(v, a), b),
        sync_yield(v, a + b) == sync_yield(v, a) + sync_yield(sync_run(v, a), b),
    decreases b.len(),
{
    if b.len() > 0 {
        assert((a + b).drop_last() =~= a + b.drop_last());
        lemma_sync_run_concat(v, a, b.drop_last());
    }
}

/// While no part of the stream from its start ends with the preamble, the
/// synchronizer searches, and its progress is how far the stream has got into
/// the preamble.
pub proof fn lemma_search(pattern: Seq<u8>, stream: Seq<u8>)
    requires
        pattern.len() > 0,
        forall|m: int| 0 <= m <= stream.len() ==> !ends_with(#[trigger] stream.take(m), pattern),
    ensures
        overlap(stream, pattern) < pattern.len(),
        sync_run(sync_init(pattern), stream) == (SyncView {
            progress: overlap(stream, pattern),
            ..sync_init(pattern)
        }),
        sync_yield(sync_init(pattern), stream) == Seq::<PacketView>::empty(),
    decreases stream.len(),
{
    lemma_overlap_bounded(stream, pattern);
    lemma_overlap_full(stream, pattern);
    assert(stream.take(stream.len() as int) =~= stream);
    if stream.len() > 0 {
        let before = stream.drop_last();
        assert forall|m: int| 0 <= m <= before.len() implies !ends_with(
            #[trigger] before.take(m),
            pattern,
        ) by {
            assert(before.take(m) =~= stream.take(m));
        }
        lemma_search(pattern, before);
        lemma_advance_tracks(before, pattern, stream.last());
        assert(before.push(stream.last()) =~= stream);
    }
}

/// The synchronizer locks with the symbol that completes the first
/// occurrence of the preamble, and not before.
pub proof fn lemma_lock(pattern: Seq<u8>, stream: Seq<u8>)
    requires
        pattern.len() > 0,
        forall|m: int| 0 <= m < stream.len() ==> !ends_with(#[trigger] stream.take(m), pattern),
        ends_with(stream, pattern),
    ensures
        sync_run(sync_init(pattern), stream) == sync_locked(pattern),
        sync_yield(sync_init(pattern), stream) == Seq::<PacketView>::empty(),
        forall|m: int|
            0 <= m < stream.len() ==> (#[trigger] sync_run(
                sync_init(pattern),
                stream.take(m),
            )).state is SearchingPreamble,
{
    let before = stream.drop_last();
    assert forall|m: int| 0 <= m <= before.len() implies !ends_with(
        #[trigger] before.take(m),
        pattern,
    ) by {
        assert(before.take(m) =~= stream.take(m));
    }
    lemma_search(pattern, before);
    lemma_advance_tracks(before, pattern, stream.last());
    lemma_overlap_full(stream, pattern);
    assert forall|m: int| 0 <= m < stream.len() implies (#[trigger] sync_run(
        sync_init(pattern),
        stream.take(m),
    )).state is SearchingPreamble by {
        let part = stream.take(m);
        assert forall|n: int| 0 <= n <= part.len() implies !ends_with(
            #[trigger] part.take(n),
            pattern,
        ) by {
            assert(part.take(n) =~= stream.take(n));
        }
        lemma_search(pattern, part);
    }
}

/// After `n` symbols of a frame, short of all, a locked synchronizer holds
/// the whole bytes received and the symbols of the byte in hand.
pub proof fn lemma_receive_part(pattern: Seq<u8>, frame: Seq<u8>, n: int)
    requires
        pattern.len() > 0,
        well_framed(frame),
        0 <= n < 8 * frame.len(),
    ensures
        sync_run(sync_locked(pattern), bits_of(frame).take(n)) == receiving(
            pattern,
            bits_of(frame).subrange(8 * (n / 8), n),
            frame.take(n / 8),
        ),
        sync_yield(sync_locked(pattern), bits_of(frame).take(n)) == Seq::<PacketView>::empty(),
    decreases n,
{
    let bits = bits_of(frame);
    if n == 0 {
        assert(bits.subrange(0, 0) =~= Seq::<u8>::empty());
        assert(frame.take(0) =~= Seq::<u8>::empty());
    } else {
        lemma_receive_part(pattern, frame, n - 1);
        assert(bits.take(n).drop_last() =~= bits.take(n - 1));
        let partial = bits.subrange(8 * ((n - 1) / 8), n - 1).push(bits[n - 1]);
        assert(partial =~= bits.subrange(8 * ((n - 1) / 8), n));
        if n % 8 == 0 {
            let at = n / 8 - 1;
            lemma_pack_unpack(frame[at]);
            assert(frame.take(at).push(frame[at]) =~= frame.take(n / 8));
            assert(bits.subrange(8 * (n / 8), n) =~= Seq::<u8>::empty());
        }
    }
}

/// A locked synchronizer that takes the symbols of a frame ends the frame
/// with the last of them: it reports what the frame decodes to and searches
/// again.
pub proof fn lemma_receive_frame(pattern: Seq<u8>, frame: Seq<u8>)
    requires
        pattern.len() > 0,
        well_framed(frame),
    ensures
        sync_run(sync_locked(pattern), bits_of(frame)) == sync_init(pattern),
        sync_yield(sync_locked(pattern), bits_of(frame)) == (match parse_frame(frame) {
            Ok(p) => seq![p],
            Err(_) => Seq::<PacketView>::empty(),
        }),
{
    let at = frame.len() - 1;
    lemma_receive_part(pattern, frame, 8 * frame.len() - 1);
    lemma_pack_unpack(frame[at]);
    assert(frame.take(at).push(frame[at]) =~= frame);
}

/// The receive synchronizer and demodulator.
pub struct Synchronizer {
    matcher: Matcher,
    state: RxState,
    bits: [u8; 8],
    bit_count: usize,
    frame: Vec<u8>,
}

impl View for Synchronizer {
    type V = SyncView;

    closed spec fn view(&self) -> SyncView {
        SyncView {
            pattern: self.matcher.pattern(),
            state: self.state,
            progress: self.matcher.progress(),
            partial: self.bits@.take(self.bit_count as int),
            frame: self.frame@,
        }
    }
}

impl Synchronizer {
    /// The synchronizer is in a state that `push_bit` can go on from.
    pub closed spec fn wf(&self) -> bool {
        &&& self.matcher.wf()
        &&& self.bit_count < 8
        &&& sync_wf(self@)
    }

    /// What `wf` promises of the view.
    pub proof fn lemma_wf(&self)
        requires
            self.wf(),
        ensures
            sync_wf(self@),
    {
    }

    /// A synchronizer that searches for `preamble`, having seen nothing.
    pub fn new(preamble: Vec<u8>) -> (sync: Synchronizer)
        requires
            preamble@.len() > 0,
        ensures
            sync.wf(),
            sync@ == sync_init(preamble@),
    {
        let sync = Synchronizer {
            matcher: Matcher::new(preamble),
            state: RxState::SearchingPreamble,
            bits: [0u8; 8],
            bit_count: 0,
            frame: Vec::new(),
        };
        assert(sync@.partial =~= Seq::<u8>::empty());
        sync
    }

    /// The state of the machine.
    pub fn state(&self) -> (state: RxState)
        ensures
            state == self@.state,
    {
        self.state
    }

    /// Takes the next symbol of the stream and reports what it brought about.
    pub fn push_bit(&mut self, bit: u8) -> (event: RxEvent)
        requires
            old(self).wf(),
        ensures
            final(self).wf(),
            (final(self)@, event@) == sync_step(old(self)@, bit),
    {
        proof {
            lemma_sync_step_wf(self@, bit);
            self.matcher.lemma_wf();
        }
        match self.state {
            RxState::SearchingPreamble => {
                let found = self.matcher.push(bit);
                if found {
                    self.state = RxState::ReceivingPacket;
                    self.bit_count = 0;
                    self.frame = Vec::new();
                    assert(self@.partial =~= Seq::<u8>::empty());
                    RxEvent::Locked
                } else {
                    RxEvent::Nothing
                }
            },
            RxState::ReceivingPacket => {
                let ghost partial = old(self)@.partial.push(bit);
                self.bits[self.bit_count] = bit;
                self.bit_count = self.bit_count + 1;
                assert(self.bits@.take(self.bit_count as int) =~= partial);
                if self.bit_count < 8 {
                    return RxEvent::Nothing;
                }
                let byte: u8 = pack_byte(self.bits);
                self.bit_count = 0;
                self.frame.push(byte);
                assert(self@.partial =~= Seq::<u8>::empty());
                let size: usize = self.frame.len();
                if size > 3 && size >= self.frame[3] as usize + 5 {
                    let outcome = decode(self.frame.as_slice());
                    self.frame = Vec::new();
                    self.state = RxState::SearchingPreamble;
                    self.matcher.reset();
                    match outcome {
                        Ok(packet) => RxEvent::Delivered(packet),
                        Err(e) => RxEvent::Dropped(e),
                    }
                } else {
                    RxEvent::Nothing
                }
            },
        }
    }

    /// Takes a buffer of symbols, one after the other, and appends the text of
    /// every packet they deliver to the delivery queue. Frames that fail are
    /// dropped; their number is returned.
    pub fn feed(&mut self, bits: &[u8], radio: &mut Radio) -> (dropped: usize)
        requires
            old(self).wf(),
            old(radio).wf(),
        ensures
            final(self).wf(),
            final(radio).wf(),
            final(self)@ == sync_run(old(self)@, bits@),
            final(radio).delivered() == old(radio).delivered() + payloads(
                sync_yield(old(self)@, bits@),
            ),
            dropped == sync_drops(old(self)@, bits@),
            final(radio).pending() == old(radio).pending(),
            final(radio).frame_id() == old(radio).frame_id(),
    {
        let mut dropped: usize = 0;
        let mut i: usize = 0;
        while i < bits.len()
            invariant
                i <= bits@.len(),
                dropped <= i,
                dropped == sync_drops(old(self)@, bits@.take(i as int)),
                self.wf(),
                radio.wf(),
                self@ == sync_run(old(self)@, bits@.take(i as int)),
                radio.delivered() == old(radio).delivered() + payloads(
                    sync_yield(old(self)@, bits@.take(i as int)),
                ),
                radio.pending() == old(radio).pending(),
                radio.frame_id() == old(radio).frame_id(),
            decreases bits@.len() - i,
        {
            let ghost longer = bits@.take(i + 1);
            assert(longer.drop_last() =~= bits@.take(i as int));
            let event = self.push_bit(bits[i]);
            match event {
                RxEvent::Delivered(packet) => {
                    radio.deliver(packet.payload);
                    assert(radio.delivered() =~= old(radio).delivered() + payloads(
                        sync_yield(old(self)@, longer),
                    ));
                },
                RxEvent::Dropped(_) => {
                    dropped = dropped + 1;
                },
                _ => {},
            }
            i = i + 1;
        }
        assert(bits@.take(i as int) =~= bits@);
        dropped
    }
}

/// Fetches the oldest received text, if there is one; never waits.
pub fn receive(radio: &mut Radio) -> (text: Option<String>)
    ensures
        text is Some <==> old(radio).delivered().len() > 0,
        text is Some ==> text->Some_0@ == old(radio).delivered()[0],
        text is Some ==> final(radio).delivered() == old(radio).delivered().drop_first(),
        text is None ==> final(radio).delivered() == old(radio).delivered(),
        final(radio).pending() == old(radio).pending(),
        final(radio).frame_id() == old(radio).frame_id(),
{
    radio.fetch()
}

} // verus!
