use fsk_modem::error::RadioError;
use fsk_modem::packet::{decode, encode, packetize, Packet, MAX_CHUNK_CHARS};

fn packet(to: u8, id: u8, payload: &str) -> Packet {
    Packet { to, from: 0, id, payload_len: 0, payload: payload.to_string(), checksum: 0 }
}

#[test]
fn chunk_size_is_a_quarter_of_the_length_field() {
    assert_eq!(MAX_CHUNK_CHARS, 63);
    assert_eq!(MAX_CHUNK_CHARS, 255 / 4);
}

#[test]
fn one_character_over_makes_two_packets() {
    let text: String =
        "abcdefghijklmnopqrstuvwxyzABCDEFGHIJKLMNOPQRSTUVWXYZ0123456789+/".to_string();
    assert_eq!(text.chars().count(), MAX_CHUNK_CHARS + 1);
    let mut frame_id: u8 = 0;
    let packets = packetize(text.clone(), 1, &mut frame_id);
    assert_eq!(packets.len(), 2);
    assert_eq!(packets[0].payload.chars().count(), MAX_CHUNK_CHARS);
    assert_eq!(packets[0].payload, text[..63]);
    assert_eq!(packets[1].payload, "/");
    assert_eq!(frame_id, 2);
}

#[test]
fn a_full_chunk_makes_one_packet() {
    let text: String = "x".repeat(MAX_CHUNK_CHARS);
    let mut frame_id: u8 = 9;
    let packets = packetize(text.clone(), 4, &mut frame_id);
    assert_eq!(packets.len(), 1);
    assert_eq!(packets[0], packet(4, 9, &text));
    assert_eq!(frame_id, 10);
}

#[test]
fn empty_text_makes_no_packet() {
    let mut frame_id: u8 = 5;
    let packets = packetize(String::new(), 1, &mut frame_id);
    assert!(packets.is_empty());
    assert_eq!(frame_id, 5);
}

#[test]
fn packets_carry_consecutive_ids_and_the_destination() {
    let text: String = "a".repeat(63) + &"b".repeat(63) + "c";
    let mut frame_id: u8 = 17;
    let packets = packetize(text, 42, &mut frame_id);
    assert_eq!(
        packets,
        vec![packet(42, 17, &"a".repeat(63)), packet(42, 18, &"b".repeat(63)), packet(42, 19, "c")]
    );
    assert_eq!(frame_id, 20);
}

#[test]
fn frame_ids_wrap_at_256() {
    let text: String = "a".repeat(63 * 3);
    let mut frame_id: u8 = 254;
    let packets = packetize(text, 1, &mut frame_id);
    let ids: Vec<u8> = packets.iter().map(|p| p.id).collect();
    assert_eq!(ids, vec![254, 255, 0]);
    assert_eq!(frame_id, 1);
}

#[test]
fn chunks_count_characters_not_bytes() {
    let text: String = "€".repeat(64);
    let mut frame_id: u8 = 0;
    let packets = packetize(text, 1, &mut frame_id);
    assert_eq!(packets.len(), 2);
    assert_eq!(packets[0].payload, "€".repeat(63));
    assert_eq!(packets[0].payload.len(), 189);
    assert_eq!(packets[1].payload, "€");
}

#[test]
fn chunks_join_to_the_text() {
    let text: String = "The quick brown fox jumps over the lazy dog. ".repeat(7);
    let mut frame_id: u8 = 0;
    let packets = packetize(text.clone(), 1, &mut frame_id);
    let joined: String = packets.iter().map(|p| p.payload.as_str()).collect();
    assert_eq!(joined, text);
    assert_eq!(packets.len(), (text.chars().count() + 62) / 63);
}

#[test]
fn encode_writes_the_wire_format() {
    let frame = encode(&packet(1, 7, "hi"));
    assert_eq!(frame, vec![1, 0, 7, 2, 0x68, 0x69, 0x05]);
}

#[test]
fn encode_of_an_empty_payload_is_header_and_checksum() {
    let frame = encode(&packet(3, 4, ""));
    assert_eq!(frame, vec![3, 0, 4, 0, 7]);
}

#[test]
fn encode_sets_length_and_checksum_itself() {
    let stale = Packet {
        to: 1,
        from: 0,
        id: 7,
        payload_len: 99,
        payload: "hi".to_string(),
        checksum: 0xff,
    };
    assert_eq!(encode(&stale), vec![1, 0, 7, 2, 0x68, 0x69, 0x05]);
}

#[test]
fn encode_counts_payload_bytes() {
    let frame = encode(&packet(1, 0, "é€"));
    assert_eq!(frame.len(), 5 + 5);
    assert_eq!(frame[3], 5);
    assert_eq!(&frame[4..9], "é€".as_bytes());
    assert_eq!(frame.iter().fold(0u8, |acc, b| acc ^ b), 0);
}

#[test]
fn a_worst_case_chunk_fits_the_length_field() {
    let text: String = "𝄞".repeat(MAX_CHUNK_CHARS);
    let frame = encode(&packet(1, 0, &text));
    assert_eq!(frame[3], 252);
    assert_eq!(frame.len(), 257);
}

#[test]
fn decode_reads_back_what_encode_wrote() {
    let decoded = decode(&encode(&packet(9, 200, "héllo wörld")));
    assert_eq!(
        decoded,
        Ok(Packet {
            to: 9,
            from: 0,
            id: 200,
            payload_len: 13,
            payload: "héllo wörld".to_string(),
            checksum: encode(&packet(9, 200, "héllo wörld"))[17],
        })
    );
}

#[test]
fn decode_reads_the_fields_in_wire_order() {
    assert_eq!(
        decode(&[1, 0, 7, 2, 0x68, 0x69, 0x05]),
        Ok(Packet { to: 1, from: 0, id: 7, payload_len: 2, payload: "hi".to_string(), checksum: 5 })
    );
}

#[test]
fn every_single_bit_flip_is_a_checksum_mismatch() {
    let frame = encode(&packet(1, 7, "hello"));
    for at in 0..frame.len() {
        for bit in 0..8 {
            let mut damaged = frame.clone();
            damaged[at] ^= 1 << bit;
            assert_eq!(decode(&damaged), Err(RadioError::ChecksumMismatch));
        }
    }
}

#[test]
fn invalid_text_is_a_deserialize_error() {
    let mut frame: Vec<u8> = vec![1, 0, 7, 2, 0xff, 0xfe];
    frame.push(frame.iter().fold(0u8, |acc, b| acc ^ b));
    assert_eq!(decode(&frame), Err(RadioError::Deserialize));
}

#[test]
fn a_length_beyond_the_buffer_is_a_deserialize_error() {
    let mut frame: Vec<u8> = vec![1, 0, 7, 9, 0x68, 0x69];
    frame.push(frame.iter().fold(0u8, |acc, b| acc ^ b));
    assert_eq!(decode(&frame), Err(RadioError::Deserialize));
}

#[test]
fn bytes_behind_the_frame_are_a_deserialize_error() {
    let mut frame: Vec<u8> = vec![1, 0, 7, 1, 0x68, 0x69];
    frame.push(frame.iter().fold(0u8, |acc, b| acc ^ b));
    assert_eq!(decode(&frame), Err(RadioError::Deserialize));
}

#[test]
fn a_short_buffer_is_a_deserialize_error() {
    assert_eq!(decode(&[]), Err(RadioError::Deserialize));
    assert_eq!(decode(&[5, 5]), Err(RadioError::Deserialize));
    assert_eq!(decode(&[1, 2, 3]), Err(RadioError::Deserialize));
}

#[test]
fn a_short_buffer_with_a_bad_fold_is_a_checksum_mismatch() {
    assert_eq!(decode(&[1]), Err(RadioError::ChecksumMismatch));
}

#[test]
fn only_setup_failures_and_poisoned_locks_are_fatal() {
    assert!(RadioError::HardwareInit.is_fatal());
    assert!(RadioError::LockPoisoned.is_fatal());
    assert!(!RadioError::AlreadyInitialized.is_fatal());
    assert!(!RadioError::ChecksumMismatch.is_fatal());
    assert!(!RadioError::Deserialize.is_fatal());
    assert!(!RadioError::ChannelClosed.is_fatal());
}
