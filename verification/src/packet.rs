//! The packet codec: text in chunks, chunks in frames, frames checked and read back.
//!
//! A frame on the wire is
//!
//! ```text
//! to | from | id | payload_len | payload (payload_len bytes of UTF-8) | checksum
//! ```
//!
//! where the checksum makes the XOR of all bytes of the frame zero.

use crate::checksum::{
    flip_bit, fold_bytes, lemma_flip_changes_fold, lemma_fold_closes, xor_fold,
};
use crate::error::RadioError;
use crate::text::{
    char_chunks, chunks_of, lemma_chunk_lengths, lemma_chunks_join, lemma_chunks_one_over,
    lemma_utf8_len_bound, text_from_utf8,
};
use vstd::prelude::*;
use vstd::slice::*;
use vstd::string::*;
use vstd::utf8::*;

verus! {

/// Most characters a packet carries. Four bytes per character at worst, so the
/// payload of a chunk always fits the one-byte length field.
pub const MAX_CHUNK_CHARS: usize = 63;

/// Bytes of a frame before its payload.
pub const HEADER_LEN: usize = 4;

/// Position of the payload length in a frame.
pub const LENGTH_AT: usize = 3;

/// Bytes of a frame that are not payload: the header and the checksum.
pub const OVERHEAD: usize = 5;

/// Station id that outgoing packets carry as their sender.
pub const LOCAL_STATION: u8 = 0;

/// One chunk of text with its addressing. `payload_len` and `checksum` are
/// what the wire carried for a received packet; `encode` computes both anew.
#[derive(Clone, Debug, PartialEq, Eq)]
pub struct Packet {
    pub to: u8,
    pub from: u8,
    pub id: u8,
    pub payload_len: u8,
    pub payload: String,
    pub checksum: u8,
}

/// A packet as a mathematical value.
pub ghost struct PacketView {
    pub to: u8,
    pub from: u8,
    pub id: u8,
    pub payload_len: u8,
    pub payload: Seq<char>,
    pub checksum: u8,
}

impl View for Packet {
    type V = PacketView;

    open spec fn view(&self) -> PacketView {
        PacketView {
            to: self.to,
            from: self.from,
            id: self.id,
            payload_len: self.payload_len,
            payload: self.payload@,
            checksum: self.checksum,
        }
    }
}

/// The payload fits the one-byte length field.
pub open spec fn encodable(p: PacketView) -> bool {
    encode_utf8(p.payload).len() <= 255
}

/// Header and payload of the frame of `p`: everything but the checksum.
pub open spec fn frame_body(p: PacketView) -> Seq<u8> {
    seq![p.to, p.from, p.id, encode_utf8(p.payload).len() as u8] + encode_utf8(p.payload)
}

/// The frame of `p`: its body, closed by the XOR of the body.
pub open spec fn frame_of(p: PacketView) -> Seq<u8> {
    frame_body(p).push(xor_fold(frame_body(p)))
}

/// `p` with the length and the checksum that its frame carries.
pub open spec fn sealed(p: PacketView) -> PacketView {
    PacketView {
        payload_len: encode_utf8(p.payload).len() as u8,
        checksum: xor_fold(frame_body(p)),
        ..p
    }
}

/// The payload bytes of a frame: what lies between header and checksum.
pub open spec fn payload_bytes(frame: Seq<u8>) -> Seq<u8> {
    frame.subrange(4, frame.len() - 1)
}

/// The frame has the fixed layout: a header, as many payload bytes as the
/// header declares, one checksum byte, and nothing else.
pub open spec fn well_framed(frame: Seq<u8>) -> bool {
    frame.len() >= 5 && frame.len() == frame[3] + 5
}

/// What a candidate frame decodes to. The checksum is judged first, over the
/// whole candidate; only a candidate that passes is parsed.
pub open spec fn parse_frame(frame: Seq<u8>) -> Result<PacketView, RadioError> {
    if xor_fold(frame) != 0 {
        Err(RadioError::ChecksumMismatch)
    } else if !well_framed(frame) || !valid_utf8(payload_bytes(frame)) {
        Err(RadioError::Deserialize)
    } else {
        Ok(
            PacketView {
                to: frame[0],
                from: frame[1],
                id: frame[2],
                payload_len: frame[3],
                payload: decode_utf8(payload_bytes(frame)),
                checksum: frame[frame.len() - 1],
            },
        )
    }
}

/// The frame id of packet number `i` when the counter stood at `first`.
pub open spec fn nth_id(first: u8, i: int) -> u8 {
    ((first + i) % 256) as u8
}

/// The packets that `text` is split into for station `to`, the frame id
/// counter standing at `first`.
pub open spec fn packets_of(text: Seq<char>, to: u8, first: u8) -> Seq<PacketView> {
    let chunks = chunks_of(text, MAX_CHUNK_CHARS as int);
    Seq::new(
        chunks.len(),
        |i: int|
            PacketView {
                to,
                from: LOCAL_STATION,
                id: nth_id(first, i),
                payload_len: 0,
                payload: chunks[i],
                checksum: 0,
            },
    )
}

/// Splits `s` into packets of at most `MAX_CHUNK_CHARS` characters for
/// station `to`, in the order of the text. Each packet takes the next value
/// of the frame id counter, which wraps at 256.
pub fn packetize(s: String, to: u8, frame_id: &mut u8) -> (packets: Vec<Packet>)
    ensures
        packets@.map_values(|p: Packet| p@) == packets_of(s@, to, *old(frame_id)),
        *final(frame_id) == nth_id(*old(frame_id), packets@.len() as int),
{
    let mut pieces: Vec<String> = char_chunks(s.as_str(), MAX_CHUNK_CHARS);
    let ghost chunks = chunks_of(s@, MAX_CHUNK_CHARS as int);
    let ghost first = *frame_id;
    let total: usize = pieces.len();
    let mut packets: Vec<Packet> = Vec::with_capacity(total);
    let mut i: usize = 0;
    while i < total
        invariant
            total == chunks.len(),
            pieces@.len() == total,
            i <= total,
            forall|j: int| i <= j < total ==> (#[trigger] pieces@[j])@ == chunks[j],
            packets@.len() == i,
            forall|j: int| 0 <= j < i ==> (#[trigger] packets@[j])@ == packets_of(s@, to, first)[j],
            chunks == chunks_of(s@, MAX_CHUNK_CHARS as int),
            *frame_id == nth_id(first, i as int),
        decreases total - i,
    {
        let mut payload = String::new();
        std::mem::swap(&mut payload, &mut pieces[i]);
        packets.push(
            Packet { to, from: LOCAL_STATION, id: *frame_id, payload_len: 0, payload, checksum: 0 },
        );
        *frame_id = frame_id.wrapping_add(1);
        i = i + 1;
    }
    packets
}

/// Serialises a packet into its frame: the fields in their fixed order, the
/// payload length set to the byte length of the payload, and last the checksum
/// that makes the XOR of the whole frame zero.
pub fn encode(packet: &Packet) -> (frame: Vec<u8>)
    requires
        encodable(packet@),
    ensures
        frame@ == frame_of(packet@),
{
    let text: &[u8] = packet.payload.as_str().as_bytes();
    let len: usize = text.len();
    let mut frame: Vec<u8> = Vec::with_capacity(len + OVERHEAD);
    frame.push(packet.to);
    frame.push(packet.from);
    frame.push(packet.id);
    frame.push(len as u8);
    let mut i: usize = 0;
    while i < len
        invariant
            len == text@.len(),
            i <= len,
            frame@ == seq![packet.to, packet.from, packet.id, len as u8] + text@.take(i as int),
        decreases len - i,
    {
        frame.push(text[i]);
        i = i + 1;
    }
    assert(text@.take(len as int) =~= text@);
    let sum: u8 = fold_bytes(frame.as_slice());
    frame.push(sum);
    frame
}

/// Reads a candidate frame back into a packet. Fails with `ChecksumMismatch`
/// when the XOR of the candidate is not zero, and with `Deserialize` when a
/// candidate that passes does not have the fixed layout or its payload is not
/// valid text.
pub fn decode(bytes: &[u8]) -> (r: Result<Packet, RadioError>)
    ensures
        match r {
            Ok(p) => parse_frame(bytes@) == Ok::<PacketView, RadioError>(p@),
            Err(e) => parse_frame(bytes@) == Err::<PacketView, RadioError>(e),
        },
{
    if fold_bytes(bytes) != 0 {
        return Err(RadioError::ChecksumMismatch);
    }
    let len: usize = bytes.len();
    if len < OVERHEAD || len - OVERHEAD != bytes[LENGTH_AT] as usize {
        return Err(RadioError::Deserialize);
    }
    let raw: Vec<u8> = slice_to_vec(slice_subrange(bytes, HEADER_LEN, len - 1));
    match text_from_utf8(raw) {
        None => Err(RadioError::Deserialize),
        Some(payload) => {
            proof {
                encode_utf8_decode_utf8(payload@);
            }
            Ok(
                Packet {
                    to: bytes[0],
                    from: bytes[1],
                    id: bytes[2],
                    payload_len: bytes[LENGTH_AT],
                    payload,
                    checksum: bytes[len - 1],
                },
            )
        },
    }
}

/// The payloads of a sequence of packets, in order.
pub open spec fn payloads(packets: Seq<PacketView>) -> Seq<Seq<char>> {
    Seq::new(packets.len(), |i: int| packets[i].payload)
}

/// A frame has five bytes more than its payload.
pub proof fn lemma_frame_len(p: PacketView)
    ensures
        frame_of(p).len() == encode_utf8(p.payload).len() + 5,
        frame_body(p).len() == encode_utf8(p.payload).len() + 4,
{
}

/// Decoding the frame of a packet gives the packet back, with the length and
/// the checksum that the frame carries.
pub proof fn lemma_parse_frame_of(p: PacketView)
    requires
        encodable(p),
    ensures
        parse_frame(frame_of(p)) == Ok::<PacketView, RadioError>(sealed(p)),
        well_framed(frame_of(p)),
        xor_fold(frame_of(p)) == 0,
{
    let text = encode_utf8(p.payload);
    let frame = frame_of(p);
    lemma_fold_closes(frame_body(p), xor_fold(frame_body(p)));
    assert(payload_bytes(frame) =~= text);
    encode_utf8_valid_utf8(p.payload);
    encode_utf8_decode_utf8(p.payload);
}

/// A frame that decodes to a packet is the frame of that packet: the wire
/// format has one frame per packet.
pub proof fn lemma_frame_of_parsed(frame: Seq<u8>)
    requires
        parse_frame(frame) is Ok,
    ensures
        frame_of(parse_frame(frame)->Ok_0) == frame,
        encodable(parse_frame(frame)->Ok_0),
{
    let p = parse_frame(frame)->Ok_0;
    let text = payload_bytes(frame);
    decode_utf8_encode_utf8(text);
    assert(frame.drop_last() =~= frame_body(p));
    assert(frame =~= frame.drop_last().push(frame.last()));
    lemma_fold_closes(frame.drop_last(), frame.last());
}

/// Inverting any single bit of a frame that passes the checksum makes
/// decoding fail with `ChecksumMismatch`.
pub proof fn lemma_flip_rejected(frame: Seq<u8>, at: int, bit: u8)
    requires
        xor_fold(frame) == 0,
        0 <= at < frame.len(),
        bit < 8,
    ensures
        parse_frame(frame.update(at, flip_bit(frame[at], bit))) == Err::<PacketView, RadioError>(
            RadioError::ChecksumMismatch,
        ),
{
    lemma_flip_changes_fold(frame, at, bit);
}

/// Inverting any single bit of an encoded packet makes decoding fail with
/// `ChecksumMismatch`.
pub proof fn lemma_encoded_flip_rejected(p: PacketView, at: int, bit: u8)
    requires
        encodable(p),
        0 <= at < frame_of(p).len(),
        bit < 8,
    ensures
        parse_frame(frame_of(p).update(at, flip_bit(frame_of(p)[at], bit))) == Err::<
            PacketView,
            RadioError,
        >(RadioError::ChecksumMismatch),
{
    lemma_parse_frame_of(p);
    lemma_flip_rejected(frame_of(p), at, bit);
}

/// Every packet that text is split into can be encoded: its payload has at
/// most `MAX_CHUNK_CHARS` characters and so at most 252 bytes.
pub proof fn lemma_packets_encodable(text: Seq<char>, to: u8, first: u8, i: int)
    requires
        0 <= i < packets_of(text, to, first).len(),
    ensures
        0 < packets_of(text, to, first)[i].payload.len() <= MAX_CHUNK_CHARS,
        encode_utf8(packets_of(text, to, first)[i].payload).len() <= 252,
        encodable(packets_of(text, to, first)[i]),
{
    lemma_chunk_lengths(text, MAX_CHUNK_CHARS as int, i);
    lemma_utf8_len_bound(packets_of(text, to, first)[i].payload);
}

/// The payloads of the packets of a text, joined in order, are the text.
pub proof fn lemma_packets_join(text: Seq<char>, to: u8, first: u8)
    ensures
        payloads(packets_of(text, to, first)) == chunks_of(text, MAX_CHUNK_CHARS as int),
        payloads(packets_of(text, to, first)).flatten() == text,
{
    lemma_chunks_join(text, MAX_CHUNK_CHARS as int);
}

/// A text of one character more than a packet holds makes exactly two
/// packets: the first full, the second with the last character.
pub proof fn lemma_packets_one_over(text: Seq<char>, to: u8, first: u8)
    requires
        text.len() == MAX_CHUNK_CHARS + 1,
    ensures
        packets_of(text, to, first).len() == 2,
        packets_of(text, to, first)[0].payload == text.take(MAX_CHUNK_CHARS as int),
        packets_of(text, to, first)[1].payload == text.skip(MAX_CHUNK_CHARS as int),
        packets_of(text, to, first)[0].payload.len() == MAX_CHUNK_CHARS,
        packets_of(text, to, first)[1].payload.len() == 1,
{
    lemma_chunks_one_over(text, MAX_CHUNK_CHARS as int);
}

} // verus!
