//! The link end to end: what holds of a text that goes through the packet
//! codec, the transmit framer, a lossless line and the receive synchronizer.

use crate::bits::{all_bits, bits_of, lemma_bits_of_are_bits};
use crate::matcher::ends_with;
use crate::packet::{
    encodable, frame_of, lemma_frame_len, lemma_packets_encodable, lemma_packets_join,
    lemma_parse_frame_of, packets_of, payloads, sealed, PacketView,
};
use crate::rx::{
    lemma_lock, lemma_receive_frame, lemma_sync_run_concat, sync_init, sync_locked, sync_run,
    sync_yield,
};
use crate::text::chunks_of;
use crate::tx::{
    buffers_of, framer_init, framer_line, framer_run, lemma_send_all, line_buffers, queue_wf,
    wire, wire_ticks,
};
use vstd::prelude::*;

verus! {

/// The packets as their frames carry them: each with its length and checksum.
pub open spec fn sealed_all(packets: Seq<PacketView>) -> Seq<PacketView> {
    Seq::new(packets.len(), |i: int| sealed(packets[i]))
}

/// Every packet of the sequence can be encoded.
pub open spec fn all_encodable(packets: Seq<PacketView>) -> bool {
    forall|i: int| 0 <= i < packets.len() ==> encodable(#[trigger] packets[i])
}

/// The symbol buffers of encodable packets are non-empty bit streams.
pub proof fn lemma_buffers_wf(packets: Seq<PacketView>)
    ensures
        queue_wf(buffers_of(packets)),
{
    assert forall|i: int| 0 <= i < buffers_of(packets).len() implies (#[trigger] buffers_of(
        packets,
    )[i]).len() > 0 && all_bits(buffers_of(packets)[i]) by {
        lemma_frame_len(packets[i]);
        lemma_bits_of_are_bits(frame_of(packets[i]));
    }
}

/// A searching synchronizer that takes the preamble and then the symbols of
/// an encoded packet delivers that packet and searches again.
pub proof fn lemma_frame_received(preamble: Seq<u8>, p: PacketView)
    requires
        preamble.len() > 0,
        encodable(p),
    ensures
        sync_run(sync_init(preamble), preamble + bits_of(frame_of(p))) == sync_init(preamble),
        sync_yield(sync_init(preamble), preamble + bits_of(frame_of(p))) == seq![sealed(p)],
{
    let bits = bits_of(frame_of(p));
    lemma_lock(preamble, preamble);
    lemma_parse_frame_of(p);
    lemma_receive_frame(preamble, frame_of(p));
    lemma_sync_run_concat(sync_init(preamble), preamble, bits);
}

/// A searching synchronizer that takes what the line carries for a queue of
/// encoded packets delivers every packet, in order, and searches again.
pub proof fn lemma_wire_received(preamble: Seq<u8>, packets: Seq<PacketView>)
    requires
        preamble.len() > 0,
        all_encodable(packets),
    ensures
        sync_run(sync_init(preamble), wire(preamble, buffers_of(packets))) == sync_init(preamble),
        sync_yield(sync_init(preamble), wire(preamble, buffers_of(packets))) == sealed_all(
            packets,
        ),
    decreases packets.len(),
{
    if packets.len() > 0 {
        let queue = buffers_of(packets);
        let rest = packets.drop_first();
        assert(all_encodable(rest));
        assert(queue.drop_first() =~= buffers_of(rest));
        lemma_frame_received(preamble, packets[0]);
        lemma_wire_received(preamble, rest);
        lemma_sync_run_concat(
            sync_init(preamble),
            preamble + queue[0],
            wire(preamble, buffers_of(rest)),
        );
    }
}

/// A text queued for sending, put on the line by an idle framer and taken off
/// a lossless line by a searching synchronizer, is delivered as the chunks it
/// was split into, in their order; joined, they are the text. Framer and
/// synchronizer end as they began: idle and searching.
pub proof fn lemma_round_trip(text: Seq<char>, to: u8, first: u8, preamble: Seq<u8>)
    requires
        preamble.len() > 0,
        all_bits(preamble),
    ensures
        ({
            let queue = line_buffers(text, to, first);
            let ticks = wire_ticks(preamble, queue);
            let line = framer_line(framer_init(preamble), queue, ticks);
            let got = sync_yield(sync_init(preamble), line);
            &&& framer_run(framer_init(preamble), queue, ticks).0.state is Idle
            &&& framer_run(framer_init(preamble), queue, ticks).1.len() == 0
            &&& line == wire(preamble, queue)
            &&& sync_run(sync_init(preamble), line) == sync_init(preamble)
            &&& got == sealed_all(packets_of(text, to, first))
            &&& payloads(got) == chunks_of(text, crate::packet::MAX_CHUNK_CHARS as int)
            &&& payloads(got).flatten() == text
        }),
{
    let packets = packets_of(text, to, first);
    let queue = line_buffers(text, to, first);
    assert forall|i: int| 0 <= i < packets.len() implies encodable(#[trigger] packets[i]) by {
        lemma_packets_encodable(text, to, first, i);
    }
    lemma_buffers_wf(packets);
    lemma_send_all(framer_init(preamble), queue);
    lemma_wire_received(preamble, packets);
    lemma_packets_join(text, to, first);
}

/// Of a stream that is noise, then the preamble, then the symbols of an
/// encoded packet, where the preamble occurs nowhere before its place: the
/// synchronizer searches through every symbol before the end of the preamble,
/// locks with the last symbol of the preamble, and delivers the packet with
/// the last symbol of the frame.
pub proof fn lemma_preamble_lock(noise: Seq<u8>, preamble: Seq<u8>, p: PacketView)
    requires
        preamble.len() > 0,
        encodable(p),
        forall|m: int|
            0 <= m < noise.len() + preamble.len() ==> !ends_with(
                #[trigger] (noise + preamble).take(m),
                preamble,
            ),
    ensures
        forall|m: int|
            0 <= m < noise.len() + preamble.len() ==> (#[trigger] sync_run(
                sync_init(preamble),
                (noise + preamble).take(m),
            )).state is SearchingPreamble,
        sync_run(sync_init(preamble), noise + preamble) == sync_locked(preamble),
        sync_run(sync_init(preamble), noise + preamble + bits_of(frame_of(p))) == sync_init(
            preamble,
        ),
        sync_yield(sync_init(preamble), noise + preamble + bits_of(frame_of(p))) == seq![
            sealed(p),
        ],
{
    let head = noise + preamble;
    let bits = bits_of(frame_of(p));
    lemma_lock(preamble, head);
    lemma_parse_frame_of(p);
    lemma_receive_frame(preamble, frame_of(p));
    lemma_sync_run_concat(sync_init(preamble), head, bits);
}

} // verus!
