//! The transmit side: text into queued symbol buffers, and the framer that
//! sends them symbol by symbol behind a preamble.

use crate::bits::{all_bits, bits_of, lemma_bits_of_are_bits, unpack_bytes};
use crate::error::RadioError;
use crate::packet::{
    encode, frame_of, lemma_frame_len, lemma_packets_encodable, packetize, packets_of, Packet,
    PacketView,
};
use crate::radio::Radio;
use vstd::prelude::*;

verus! {

/// Which source feeds the line at a tick.
#[derive(Clone, Copy, Debug, PartialEq, Eq, Structural)]
pub enum TxState {
    /// Nothing to send: the last symbol is repeated.
    Idle,
    /// The preamble is being sent.
    SendingPreamble,
    /// The symbols of a packet are being sent.
    SendingPacket,
}

/// The symbol buffers that a text is queued as: for each of its packets the
/// symbols of the packet's frame.
pub open spec fn line_buffers(text: Seq<char>, to: u8, first: u8) -> Seq<Seq<u8>> {
    buffers_of(packets_of(text, to, first))
}

/// The symbol buffers of a sequence of packets: the symbols of each frame.
pub open spec fn buffers_of(packets: Seq<PacketView>) -> Seq<Seq<u8>> {
    Seq::new(packets.len(), |i: int| bits_of(frame_of(packets[i])))
}

/// Queues `s` for station `to`: the text is split into packets, each packet is
/// encoded and unpacked into symbols, and the symbol buffers join the
/// pending-transmit queue in the order of the text. Returns once queued.
pub fn transmit(radio: &mut Radio, s: String, to: u8) -> (r: Result<(), RadioError>)
    requires
        old(radio).wf(),
    ensures
        r is Ok,
        final(radio).wf(),
        final(radio).pending() == old(radio).pending() + line_buffers(
            s@,
            to,
            old(radio).frame_id(),
        ),
        final(radio).frame_id() == crate::packet::nth_id(
            old(radio).frame_id(),
            packets_of(s@, to, old(radio).frame_id()).len() as int,
        ),
        final(radio).delivered() == old(radio).delivered(),
{
    let ghost first = radio.frame_id();
    let ghost before = radio.pending();
    let ghost views = packets_of(s@, to, first);
    let ghost wanted = line_buffers(s@, to, first);
    let packets: Vec<Packet> = packetize(s, to, radio.frame_id_mut());
    let total: usize = packets.len();
    assert(total == views.len());
    let mut i: usize = 0;
    while i < total
        invariant
            total == packets@.len(),
            total == views.len(),
            i <= total,
            views == packets_of(s@, to, first),
            wanted == line_buffers(s@, to, first),
            packets@.map_values(|p: Packet| p@) == views,
            radio.wf(),
            radio.pending() == before + wanted.take(i as int),
            radio.frame_id() == crate::packet::nth_id(first, total as int),
            radio.delivered() == old(radio).delivered(),
        decreases total - i,
    {
        proof {
            lemma_packets_encodable(s@, to, first, i as int);
        }
        let frame: Vec<u8> = encode(&packets[i]);
        let buffer: Vec<u8> = unpack_bytes(frame.as_slice());
        proof {
            lemma_frame_len(views[i as int]);
            lemma_bits_of_are_bits(frame@);
        }
        radio.enqueue(buffer);
        i = i + 1;
    }
    Ok(())
}

/// The framer as a mathematical value.
pub ghost struct FramerView {
    /// The preamble sent before every packet.
    pub preamble: Seq<u8>,
    /// The state of the machine.
    pub state: TxState,
    /// Position of the next symbol in the preamble or in the packet.
    pub counter: int,
    /// The symbols of the packet in hand; empty while idle.
    pub packet: Seq<u8>,
    /// The symbol selected at the last tick.
    pub symbol: u8,
}

/// The preamble and the packet in hand are bit streams, and the counter
/// points into the source that the state names.
pub open spec fn framer_wf(v: FramerView) -> bool {
    &&& v.preamble.len() > 0
    &&& all_bits(v.preamble)
    &&& all_bits(v.packet)
    &&& v.symbol <= 1
    &&& match v.state {
        TxState::Idle => v.counter == 0 && v.packet.len() == 0,
        TxState::SendingPreamble => 0 <= v.counter < v.preamble.len() && v.packet.len() > 0,
        TxState::SendingPacket => 0 <= v.counter < v.packet.len(),
    }
}

/// A framer that has sent nothing: idle, with symbol 0 on the line.
pub open spec fn framer_init(preamble: Seq<u8>) -> FramerView {
    FramerView {
        preamble,
        state: TxState::Idle,
        counter: 0,
        packet: Seq::empty(),
        symbol: 0,
    }
}

/// The start of a tick: an idle framer takes the oldest pending buffer, if
/// there is one, and turns to the preamble.
pub open spec fn framer_load(v: FramerView, queue: Seq<Seq<u8>>) -> (FramerView, Seq<Seq<u8>>) {
    if v.state is Idle && queue.len() > 0 {
        (
            FramerView { state: TxState::SendingPreamble, counter: 0, packet: queue[0], ..v },
            queue.drop_first(),
        )
    } else {
        (v, queue)
    }
}

/// The rest of a tick: the state's source gives the symbol and the counter
/// moves on; at the end of the preamble the packet follows, at the end of the
/// packet the framer falls idle. An idle framer keeps its symbol.
pub open spec fn framer_emit(v: FramerView) -> FramerView {
    match v.state {
        TxState::Idle => v,
        TxState::SendingPreamble => {
            if v.counter + 1 >= v.preamble.len() {
                FramerView {
                    state: TxState::SendingPacket,
                    counter: 0,
                    symbol: v.preamble[v.counter],
                    ..v
                }
            } else {
                FramerView { counter: v.counter + 1, symbol: v.preamble[v.counter], ..v }
            }
        },
        TxState::SendingPacket => {
            if v.counter + 1 >= v.packet.len() {
                FramerView {
                    state: TxState::Idle,
                    counter: 0,
                    packet: Seq::empty(),
                    symbol: v.packet[v.counter],
                    ..v
                }
            } else {
                FramerView { counter: v.counter + 1, symbol: v.packet[v.counter], ..v }
            }
        },
    }
}

/// One tick of the framer over the pending-transmit queue.
pub open spec fn framer_step(v: FramerView, queue: Seq<Seq<u8>>) -> (FramerView, Seq<Seq<u8>>) {
    let (loaded, rest) = framer_load(v, queue);
    (framer_emit(loaded), rest)
}

/// The framer and the queue after `ticks` ticks.
pub open spec fn framer_run(v: FramerView, queue: Seq<Seq<u8>>, ticks: nat) -> (
    FramerView,
    Seq<Seq<u8>>,
)
    decreases ticks,
{
    if ticks == 0 {
        (v, queue)
    } else {
        let (before, rest) = framer_run(v, queue, (ticks - 1) as nat);
        framer_step(before, rest)
    }
}

/// The symbols put on the line by `ticks` ticks, in order.
pub open spec fn framer_line(v: FramerView, queue: Seq<Seq<u8>>, ticks: nat) -> Seq<u8>
    decreases ticks,
{
    if ticks == 0 {
        Seq::empty()
    } else {
        let (before, rest) = framer_run(v, queue, (ticks - 1) as nat);
        framer_line(v, queue, (ticks - 1) as nat).push(framer_step(before, rest).0.symbol)
    }
}

/// Every buffer of the queue is a non-empty stream of bit symbols.
pub open spec fn queue_wf(queue: Seq<Seq<u8>>) -> bool {
    forall|i: int| 0 <= i < queue.len() ==> (#[trigger] queue[i]).len() > 0 && all_bits(queue[i])
}

/// A tick keeps a well-formed framer and queue well-formed.
pub proof fn lemma_step_wf(v: FramerView, queue: Seq<Seq<u8>>)
    requires
        framer_wf(v),
        queue_wf(queue),
    ensures
        framer_wf(framer_step(v, queue).0),
        queue_wf(framer_step(v, queue).1),
        framer_step(v, queue).0.preamble == v.preamble,
{
    let rest = framer_load(v, queue).1;
    assert(queue_wf(rest));
}

/// What the line carries for a queue of buffers sent without a pause: before
/// each buffer the preamble.
pub open spec fn wire(preamble: Seq<u8>, queue: Seq<Seq<u8>>) -> Seq<u8>
    decreases queue.len(),
{
    if queue.len() == 0 {
        Seq::empty()
    } else {
        preamble + queue[0] + wire(preamble, queue.drop_first())
    }
}

/// The ticks it takes to send a queue of buffers.
pub open spec fn wire_ticks(preamble: Seq<u8>, queue: Seq<Seq<u8>>) -> nat
    decreases queue.len(),
{
    if queue.len() == 0 {
        0
    } else {
        preamble.len() + queue[0].len() + wire_ticks(preamble, queue.drop_first())
    }
}

/// Running `a + b` ticks is running `a` ticks, then `b` more.
pub proof fn lemma_framer_run_concat(v: FramerView, queue: Seq<Seq<u8>>, a: nat, b: nat)
    ensures
        framer_run(v, queue, a + b) == framer_run(
            framer_run(v, queue, a).0,
            framer_run(v, queue, a).1,
            b,
        ),
        framer_line(v, queue, a + b) == framer_line(v, queue, a) + framer_line(
            framer_run(v, queue, a).0,
            framer_run(v, queue, a).1,
            b,
        ),
    decreases b,
{
    if b > 0 {
        lemma_framer_run_concat(v, queue, a, (b - 1) as nat);
    }
}

/// An idle framer with work pending sends the preamble first: after `n` of
/// its symbols the buffer is in hand and the line has carried those symbols.
pub proof fn lemma_send_preamble(v: FramerView, queue: Seq<Seq<u8>>, n: nat)
    requires
        framer_wf(v),
        v.state is Idle,
        queue_wf(queue),
        queue.len() > 0,
        1 <= n <= v.preamble.len(),
    ensures
        framer_run(v, queue, n).1 == queue.drop_first(),
        framer_run(v, queue, n).0 == (if n < v.preamble.len() {
            FramerView {
                state: TxState::SendingPreamble,
                counter: n as int,
                packet: queue[0],
                symbol: v.preamble[n - 1],
                ..v
            }
        } else {
            FramerView {
                state: TxState::SendingPacket,
                counter: 0,
                packet: queue[0],
                symbol: v.preamble[n - 1],
                ..v
            }
        }),
        framer_line(v, queue, n) == v.preamble.take(n as int),
    decreases n,
{
    assert(framer_line(v, queue, 0) =~= Seq::<u8>::empty());
    if n > 1 {
        lemma_send_preamble(v, queue, (n - 1) as nat);
    }
}

/// A framer at the start of a packet sends its symbols in order; with the
/// last one it falls idle.
pub proof fn lemma_send_packet(v: FramerView, queue: Seq<Seq<u8>>, n: nat)
    requires
        framer_wf(v),
        v.state is SendingPacket,
        v.counter == 0,
        1 <= n <= v.packet.len(),
    ensures
        framer_run(v, queue, n).1 == queue,
        framer_run(v, queue, n).0 == (if n < v.packet.len() {
            FramerView { counter: n as int, symbol: v.packet[n - 1], ..v }
        } else {
            FramerView {
                state: TxState::Idle,
                counter: 0,
                packet: Seq::empty(),
                symbol: v.packet[n - 1],
                ..v
            }
        }),
        framer_line(v, queue, n) == v.packet.take(n as int),
    decreases n,
{
    assert(framer_line(v, queue, 0) =~= Seq::<u8>::empty());
    if n > 1 {
        lemma_send_packet(v, queue, (n - 1) as nat);
    }
}

/// An idle framer sends the oldest pending buffer behind the preamble and is
/// idle again.
pub proof fn lemma_send_buffer(v: FramerView, queue: Seq<Seq<u8>>)
    requires
        framer_wf(v),
        v.state is Idle,
        queue_wf(queue),
        queue.len() > 0,
    ensures
        framer_run(v, queue, v.preamble.len() + queue[0].len()) == (
            FramerView { symbol: queue[0].last(), ..v },
            queue.drop_first(),
        ),
        framer_line(v, queue, v.preamble.len() + queue[0].len()) == v.preamble + queue[0],
{
    let size = v.preamble.len();
    let buffer = queue[0];
    lemma_send_preamble(v, queue, size);
    let (mid, rest) = framer_run(v, queue, size);
    lemma_send_packet(mid, rest, buffer.len());
    lemma_framer_run_concat(v, queue, size, buffer.len());
    assert(v.packet =~= Seq::<u8>::empty());
}

/// An idle framer sends every pending buffer, oldest first, each behind the
/// preamble, and is idle when the queue is empty.
pub proof fn lemma_send_all(v: FramerView, queue: Seq<Seq<u8>>)
    requires
        framer_wf(v),
        v.state is Idle,
        queue_wf(queue),
    ensures
        framer_run(v, queue, wire_ticks(v.preamble, queue)).1.len() == 0,
        framer_run(v, queue, wire_ticks(v.preamble, queue)).0.state is Idle,
        framer_wf(framer_run(v, queue, wire_ticks(v.preamble, queue)).0),
        framer_line(v, queue, wire_ticks(v.preamble, queue)) == wire(v.preamble, queue),
    decreases queue.len(),
{
    if queue.len() > 0 {
        let first = v.preamble.len() + queue[0].len();
        let rest = queue.drop_first();
        lemma_send_buffer(v, queue);
        let mid = FramerView { symbol: queue[0].last(), ..v };
        assert(queue_wf(rest));
        lemma_send_all(mid, rest);
        lemma_framer_run_concat(v, queue, first, wire_ticks(v.preamble, rest));
    }
}

/// The transmit framer: it selects, tick by tick, the symbol on the line.
pub struct TxFramer {
    preamble: Vec<u8>,
    state: TxState,
    counter: usize,
    packet: Vec<u8>,
    symbol: u8,
}

impl View for TxFramer {
    type V = FramerView;

    closed spec fn view(&self) -> FramerView {
        FramerView {
            preamble: self.preamble@,
            state: self.state,
            counter: self.counter as int,
            packet: self.packet@,
            symbol: self.symbol,
        }
    }
}

impl TxFramer {
    /// The framer is in a state that `tick` can go on from.
    pub open spec fn wf(&self) -> bool {
        framer_wf(self@)
    }

    /// An idle framer for `preamble`.
    pub fn new(preamble: Vec<u8>) -> (framer: TxFramer)
        requires
            preamble@.len() > 0,
            all_bits(preamble@),
        ensures
            framer.wf(),
            framer@ == framer_init(preamble@),
    {
        TxFramer { preamble, state: TxState::Idle, counter: 0, packet: Vec::new(), symbol: 0 }
    }

    /// The state of the machine.
    pub fn state(&self) -> (state: TxState)
        ensures
            state == self@.state,
    {
        self.state
    }

    /// One tick. An idle framer first takes the oldest pending buffer, if any.
    /// Then the preamble or the packet gives the symbol for this tick; an idle
    /// framer repeats its last one. The symbol is returned for publishing.
    pub fn tick(&mut self, radio: &mut Radio) -> (symbol: u8)
        requires
            old(self).wf(),
            old(radio).wf(),
        ensures
            final(self).wf(),
            final(radio).wf(),
            (final(self)@, final(radio).pending()) == framer_step(
                old(self)@,
                old(radio).pending(),
            ),
            symbol == final(self)@.symbol,
            symbol <= 1,
            final(radio).frame_id() == old(radio).frame_id(),
            final(radio).delivered() == old(radio).delivered(),
    {
        proof {
            lemma_step_wf(self@, radio.pending());
        }
        if self.state == TxState::Idle {
            match radio.next_buffer() {
                Some(buffer) => {
                    self.packet = buffer;
                    self.counter = 0;
                    self.state = TxState::SendingPreamble;
                },
                None => {},
            }
        }
        match self.state {
            TxState::Idle => {},
            TxState::SendingPreamble => {
                let size: usize = self.preamble.len();
                self.symbol = self.preamble[self.counter];
                self.counter = self.counter + 1;
                if self.counter >= size {
                    self.counter = 0;
                    self.state = TxState::SendingPacket;
                }
            },
            TxState::SendingPacket => {
                let size: usize = self.packet.len();
                self.symbol = self.packet[self.counter];
                self.counter = self.counter + 1;
                if self.counter >= size {
                    self.counter = 0;
                    self.packet = Vec::new();
                    self.state = TxState::Idle;
                }
            },
        }
        self.symbol
    }

    /// Runs `ticks` ticks and returns the symbols they put on the line.
    pub fn run(&mut self, radio: &mut Radio, ticks: usize) -> (line: Vec<u8>)
        requires
            old(self).wf(),
            old(radio).wf(),
        ensures
            final(self).wf(),
            final(radio).wf(),
            (final(self)@, final(radio).pending()) == framer_run(
                old(self)@,
                old(radio).pending(),
                ticks as nat,
            ),
            line@ == framer_line(old(self)@, old(radio).pending(), ticks as nat),
            final(radio).frame_id() == old(radio).frame_id(),
            final(radio).delivered() == old(radio).delivered(),
    {
        let mut line: Vec<u8> = Vec::with_capacity(ticks);
        let mut done: usize = 0;
        while done < ticks
            invariant
                done <= ticks,
                self.wf(),
                radio.wf(),
                (self@, radio.pending()) == framer_run(
                    old(self)@,
                    old(radio).pending(),
                    done as nat,
                ),
                line@ == framer_line(old(self)@, old(radio).pending(), done as nat),
                radio.frame_id() == old(radio).frame_id(),
                radio.delivered() == old(radio).delivered(),
            decreases ticks - done,
        {
            let symbol = self.tick(radio);
            line.push(symbol);
            done = done + 1;
        }
        line
    }
}

} // verus!
