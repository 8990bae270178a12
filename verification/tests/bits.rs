use fsk_modem::bits::{flatten, is_bit_stream, pack_byte, unpack_byte, unpack_bytes};
use fsk_modem::checksum::fold_bytes;

#[test]
fn it_works() {
    assert_eq!(2 + 2, 4);
}

#[test]
fn unpack_byte_is_least_significant_first() {
    assert_eq!(unpack_byte(0b1010_0001), [1, 0, 0, 0, 0, 1, 0, 1]);
    assert_eq!(unpack_byte(0), [0; 8]);
    assert_eq!(unpack_byte(255), [1; 8]);
    assert_eq!(unpack_byte(1), [1, 0, 0, 0, 0, 0, 0, 0]);
    assert_eq!(unpack_byte(128), [0, 0, 0, 0, 0, 0, 0, 1]);
}

#[test]
fn pack_byte_is_least_significant_first() {
    assert_eq!(pack_byte([1, 0, 0, 0, 0, 1, 0, 1]), 0b1010_0001);
    assert_eq!(pack_byte([0; 8]), 0);
    assert_eq!(pack_byte([1; 8]), 255);
    assert_eq!(pack_byte([0, 1, 0, 0, 0, 0, 0, 0]), 2);
}

#[test]
fn pack_undoes_unpack_for_every_byte() {
    for value in 0..=255u8 {
        assert_eq!(pack_byte(unpack_byte(value)), value);
    }
}

#[test]
fn unpack_undoes_pack_for_bit_symbols() {
    let symbols = [0, 1, 1, 0, 1, 0, 0, 1];
    assert_eq!(unpack_byte(pack_byte(symbols)), symbols);
}

#[test]
fn flatten_keeps_group_order() {
    let groups = vec![[1, 0, 0, 0, 0, 0, 0, 0], [0, 0, 0, 0, 0, 0, 0, 1]];
    assert_eq!(flatten(groups), vec![1, 0, 0, 0, 0, 0, 0, 0, 0, 0, 0, 0, 0, 0, 0, 1]);
    assert_eq!(flatten(Vec::new()), Vec::<u8>::new());
}

#[test]
fn unpack_bytes_gives_eight_symbols_per_byte() {
    assert_eq!(unpack_bytes(&[3, 128]), vec![1, 1, 0, 0, 0, 0, 0, 0, 0, 0, 0, 0, 0, 0, 0, 1]);
    assert_eq!(unpack_bytes(&[]), Vec::<u8>::new());
}

#[test]
fn bit_streams_are_told_from_other_buffers() {
    assert!(is_bit_stream(&[0, 1, 1, 0]));
    assert!(is_bit_stream(&[]));
    assert!(!is_bit_stream(&[0, 1, 2]));
}

#[test]
fn fold_is_the_xor_of_all_bytes() {
    assert_eq!(fold_bytes(&[]), 0);
    assert_eq!(fold_bytes(&[0x5a]), 0x5a);
    assert_eq!(fold_bytes(&[1, 0, 7, 2, 0x68, 0x69]), 0x05);
    assert_eq!(fold_bytes(&[1, 0, 7, 2, 0x68, 0x69, 0x05]), 0);
}
