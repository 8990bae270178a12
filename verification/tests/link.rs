use fsk_modem::bits::unpack_bytes;
use fsk_modem::error::RadioError;
use fsk_modem::packet::{encode, Packet};
use fsk_modem::preamble::preamble;
use fsk_modem::radio::Radio;
use fsk_modem::rx::{RxEvent, RxState, Synchronizer};
use fsk_modem::tx::{TxFramer, TxState};
use fsk_modem::{receive, start, transmit};

fn packet(to: u8, id: u8, payload: &str) -> Packet {
    Packet { to, from: 0, id, payload_len: 0, payload: payload.to_string(), checksum: 0 }
}

fn noise(len: usize, seed: u32) -> Vec<u8> {
    let mut state: u32 = seed;
    let mut out: Vec<u8> = Vec::with_capacity(len);
    for _ in 0..len {
        state = state.wrapping_mul(1664525).wrapping_add(1013904223);
        out.push(((state >> 16) & 1) as u8);
    }
    out
}

fn send_and_receive(text: &str, pattern: Vec<u8>) -> Vec<String> {
    let mut sender = Radio::new();
    let mut framer = TxFramer::new(pattern.clone());
    assert_eq!(transmit(&mut sender, text.to_string(), 1), Ok(()));
    let chunks: usize = (text.chars().count() + 62) / 63;
    let ticks: usize = chunks * pattern.len() + 8 * (5 * chunks + text.len());
    let line: Vec<u8> = framer.run(&mut sender, ticks);
    assert_eq!(line.len(), ticks);
    assert_eq!(framer.state(), TxState::Idle);
    assert_eq!(sender.next_buffer(), None);
    let mut receiver = Radio::new();
    let mut sync = Synchronizer::new(pattern);
    assert_eq!(sync.feed(&line, &mut receiver), 0);
    let mut texts = Vec::new();
    while let Some(text) = receive(&mut receiver) {
        texts.push(text);
    }
    texts
}

#[test]
fn start_succeeds_once() {
    let mut slot: Option<Radio> = None;
    assert_eq!(start(&mut slot), Ok(()));
    assert!(slot.is_some());
    assert_eq!(start(&mut slot), Err(RadioError::AlreadyInitialized));
    assert!(slot.is_some());
}

#[test]
fn start_keeps_a_running_radio_as_it_is() {
    let mut slot: Option<Radio> = None;
    assert_eq!(start(&mut slot), Ok(()));
    if let Some(radio) = slot.as_mut() {
        radio.deliver("kept".to_string());
    }
    assert_eq!(start(&mut slot), Err(RadioError::AlreadyInitialized));
    match slot.as_mut() {
        Some(radio) => assert_eq!(receive(radio), Some("kept".to_string())),
        None => panic!("the radio is gone"),
    }
}

#[test]
fn receive_on_an_empty_queue_is_none() {
    let mut radio = Radio::new();
    assert_eq!(receive(&mut radio), None);
}

#[test]
fn receive_is_first_in_first_out() {
    let mut radio = Radio::new();
    radio.deliver("one".to_string());
    radio.deliver("two".to_string());
    assert_eq!(receive(&mut radio), Some("one".to_string()));
    assert_eq!(receive(&mut radio), Some("two".to_string()));
    assert_eq!(receive(&mut radio), None);
}

#[test]
fn transmit_queues_one_buffer_per_packet() {
    let mut radio = Radio::new();
    let text: String = "a".repeat(64);
    assert_eq!(transmit(&mut radio, text, 5), Ok(()));
    let first = radio.next_buffer();
    let second = radio.next_buffer();
    assert_eq!(first, Some(unpack_bytes(&encode(&packet(5, 0, &"a".repeat(63))))));
    assert_eq!(second, Some(unpack_bytes(&encode(&packet(5, 1, "a")))));
    assert_eq!(radio.next_buffer(), None);
}

#[test]
fn transmit_goes_on_counting_frame_ids() {
    let mut radio = Radio::new();
    assert_eq!(transmit(&mut radio, "one".to_string(), 1), Ok(()));
    assert_eq!(transmit(&mut radio, "two".to_string(), 2), Ok(()));
    assert_eq!(radio.next_buffer(), Some(unpack_bytes(&encode(&packet(1, 0, "one")))));
    assert_eq!(radio.next_buffer(), Some(unpack_bytes(&encode(&packet(2, 1, "two")))));
}

#[test]
fn transmit_of_an_empty_text_queues_nothing() {
    let mut radio = Radio::new();
    assert_eq!(transmit(&mut radio, String::new(), 1), Ok(()));
    assert_eq!(radio.next_buffer(), None);
}

#[test]
fn idle_framer_repeats_its_symbol() {
    let mut radio = Radio::new();
    let mut framer = TxFramer::new(vec![1, 0]);
    assert_eq!(framer.state(), TxState::Idle);
    assert_eq!(framer.tick(&mut radio), 0);
    assert_eq!(framer.tick(&mut radio), 0);
    assert_eq!(framer.state(), TxState::Idle);
}

#[test]
fn framer_sends_preamble_then_packet_then_idles() {
    let mut radio = Radio::new();
    let mut framer = TxFramer::new(vec![1, 1, 0]);
    assert_eq!(transmit(&mut radio, "A".to_string(), 2), Ok(()));
    let frame = encode(&packet(2, 0, "A"));
    assert_eq!(frame, vec![2, 0, 0, 1, 0x41, 0x42]);
    let mut expected: Vec<u8> = vec![1, 1, 0];
    expected.extend(unpack_bytes(&frame));
    let mut states = Vec::new();
    let mut line = Vec::new();
    for _ in 0..expected.len() {
        line.push(framer.tick(&mut radio));
        states.push(framer.state());
    }
    assert_eq!(line, expected);
    assert_eq!(states[0], TxState::SendingPreamble);
    assert_eq!(states[1], TxState::SendingPreamble);
    assert_eq!(states[2], TxState::SendingPacket);
    assert_eq!(states[expected.len() - 2], TxState::SendingPacket);
    assert_eq!(states[expected.len() - 1], TxState::Idle);
    let last = expected[expected.len() - 1];
    assert_eq!(framer.tick(&mut radio), last);
    assert_eq!(framer.tick(&mut radio), last);
    assert_eq!(framer.state(), TxState::Idle);
}

#[test]
fn framer_sends_queued_buffers_without_a_pause() {
    let mut radio = Radio::new();
    let mut framer = TxFramer::new(vec![1, 0]);
    assert_eq!(transmit(&mut radio, "x".to_string(), 1), Ok(()));
    assert_eq!(transmit(&mut radio, "y".to_string(), 1), Ok(()));
    let mut expected: Vec<u8> = vec![1, 0];
    expected.extend(unpack_bytes(&encode(&packet(1, 0, "x"))));
    expected.extend([1, 0]);
    expected.extend(unpack_bytes(&encode(&packet(1, 1, "y"))));
    let line = framer.run(&mut radio, expected.len());
    assert_eq!(line, expected);
    assert_eq!(framer.state(), TxState::Idle);
}

#[test]
fn synchronizer_locks_at_the_end_of_the_preamble() {
    let pattern = preamble();
    let before = noise(500, 7);
    let frame = encode(&packet(3, 9, "locked"));
    let mut sync = Synchronizer::new(pattern.clone());
    for symbol in before.iter() {
        assert_eq!(sync.push_bit(*symbol), RxEvent::Nothing);
        assert_eq!(sync.state(), RxState::SearchingPreamble);
    }
    for symbol in pattern[..255].iter() {
        assert_eq!(sync.push_bit(*symbol), RxEvent::Nothing);
        assert_eq!(sync.state(), RxState::SearchingPreamble);
    }
    assert_eq!(sync.push_bit(pattern[255]), RxEvent::Locked);
    assert_eq!(sync.state(), RxState::ReceivingPacket);
    let symbols = unpack_bytes(&frame);
    for symbol in symbols[..symbols.len() - 1].iter() {
        assert_eq!(sync.push_bit(*symbol), RxEvent::Nothing);
        assert_eq!(sync.state(), RxState::ReceivingPacket);
    }
    let last = sync.push_bit(symbols[symbols.len() - 1]);
    assert_eq!(
        last,
        RxEvent::Delivered(Packet {
            to: 3,
            from: 0,
            id: 9,
            payload_len: 6,
            payload: "locked".to_string(),
            checksum: frame[frame.len() - 1],
        })
    );
    assert_eq!(sync.state(), RxState::SearchingPreamble);
}

#[test]
fn synchronizer_locks_on_a_self_overlapping_preamble() {
    let mut sync = Synchronizer::new(vec![1, 1, 0]);
    assert_eq!(sync.push_bit(1), RxEvent::Nothing);
    assert_eq!(sync.push_bit(1), RxEvent::Nothing);
    assert_eq!(sync.push_bit(1), RxEvent::Nothing);
    assert_eq!(sync.push_bit(0), RxEvent::Locked);
    assert_eq!(sync.state(), RxState::ReceivingPacket);
}

#[test]
fn damaged_frame_is_dropped_and_the_search_resumes() {
    let pattern: Vec<u8> = vec![1, 0, 1, 1];
    let mut frame = encode(&packet(1, 0, "bad"));
    frame[5] ^= 0x10;
    let mut line = pattern.clone();
    line.extend(unpack_bytes(&frame));
    let mut sync = Synchronizer::new(pattern.clone());
    let mut events = Vec::new();
    for symbol in line.iter() {
        match sync.push_bit(*symbol) {
            RxEvent::Nothing => {}
            event => events.push(event),
        }
    }
    assert_eq!(events, vec![RxEvent::Locked, RxEvent::Dropped(RadioError::ChecksumMismatch)]);
    assert_eq!(sync.state(), RxState::SearchingPreamble);
    let mut good = pattern.clone();
    good.extend(unpack_bytes(&encode(&packet(1, 1, "good"))));
    let mut radio = Radio::new();
    assert_eq!(sync.feed(&good, &mut radio), 0);
    assert_eq!(receive(&mut radio), Some("good".to_string()));
}

#[test]
fn frame_with_invalid_text_is_dropped() {
    let pattern: Vec<u8> = vec![1, 0, 1, 1];
    let mut frame: Vec<u8> = vec![1, 0, 0, 1, 0xff];
    frame.push(frame.iter().fold(0u8, |acc, b| acc ^ b));
    let mut line = pattern.clone();
    line.extend(unpack_bytes(&frame));
    let mut sync = Synchronizer::new(pattern);
    let mut radio = Radio::new();
    assert_eq!(sync.feed(&line, &mut radio), 1);
    assert_eq!(receive(&mut radio), None);
    assert_eq!(sync.state(), RxState::SearchingPreamble);
}

#[test]
fn feed_counts_dropped_frames_and_delivers_the_rest() {
    let pattern: Vec<u8> = vec![1, 0, 1, 1];
    let mut bad = encode(&packet(1, 0, "lost"));
    bad[0] ^= 1;
    let mut line = pattern.clone();
    line.extend(unpack_bytes(&bad));
    line.extend(pattern.clone());
    line.extend(unpack_bytes(&encode(&packet(1, 1, "kept"))));
    let mut sync = Synchronizer::new(pattern);
    let mut radio = Radio::new();
    assert_eq!(sync.feed(&line, &mut radio), 1);
    assert_eq!(receive(&mut radio), Some("kept".to_string()));
    assert_eq!(receive(&mut radio), None);
}

#[test]
fn short_text_makes_the_round_trip() {
    let texts = send_and_receive("transmissions begin now", preamble());
    assert_eq!(texts, vec!["transmissions begin now"]);
}

#[test]
fn long_text_makes_the_round_trip_chunk_by_chunk() {
    let text = "abcdefghijklmnopqrstuvwxyz1234567890 abcdefghijklmnopqrstuvwxyz1234567890
    abcdefghijklmnopqrstuvwxyz1234567890 ";
    let texts = send_and_receive(text, preamble());
    assert_eq!(texts.len(), 2);
    assert_eq!(texts[0], text[..63]);
    assert_eq!(texts[1], text[63..]);
    assert_eq!(texts.concat(), text);
}

#[test]
fn multi_byte_text_makes_the_round_trip() {
    let text: String = "€uro ".repeat(40);
    let texts = send_and_receive(&text, vec![1, 1, 0, 1]);
    assert_eq!(texts.len(), 4);
    assert_eq!(texts[0].chars().count(), 63);
    assert_eq!(texts[3].chars().count(), 200 - 3 * 63);
    assert_eq!(texts.concat(), text);
}

#[test]
fn empty_text_delivers_nothing() {
    let mut sender = Radio::new();
    let mut framer = TxFramer::new(vec![1, 0]);
    assert_eq!(transmit(&mut sender, String::new(), 1), Ok(()));
    let line = framer.run(&mut sender, 64);
    assert_eq!(line, vec![0; 64]);
    let mut receiver = Radio::new();
    let mut sync = Synchronizer::new(vec![1, 0]);
    assert_eq!(sync.feed(&line, &mut receiver), 0);
    assert_eq!(receive(&mut receiver), None);
}
