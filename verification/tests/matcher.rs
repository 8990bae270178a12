use fsk_modem::matcher::Matcher;
use fsk_modem::preamble::{preamble, PREAMBLE, PREAMBLE_LEN};
use fsk_modem::bits::is_bit_stream;

fn finds(pattern: &[u8], stream: &[u8]) -> Vec<usize> {
    let mut matcher = Matcher::new(pattern.to_vec());
    let mut ends = Vec::new();
    for (i, symbol) in stream.iter().enumerate() {
        if matcher.push(*symbol) {
            ends.push(i + 1);
        }
    }
    ends
}

#[test]
fn pattern_is_found_where_it_ends() {
    assert_eq!(finds(&[1, 0, 1, 1], &[0, 0, 1, 0, 1, 1, 0]), vec![6]);
}

#[test]
fn pattern_at_the_start_is_found() {
    assert_eq!(finds(&[1, 0], &[1, 0, 0, 0]), vec![2]);
}

#[test]
fn absent_pattern_is_not_found() {
    assert_eq!(finds(&[1, 1, 1], &[1, 1, 0, 1, 1, 0, 1]), Vec::<usize>::new());
}

#[test]
fn self_overlapping_pattern_is_found_after_a_false_start() {
    // A matcher that starts over on a mismatch misses this occurrence.
    assert_eq!(finds(&[1, 1, 0], &[1, 1, 1, 0]), vec![4]);
    assert_eq!(finds(&[1, 0, 1, 0, 0], &[1, 0, 1, 0, 1, 0, 0]), vec![7]);
    assert_eq!(finds(&[0, 0, 1], &[0, 0, 0, 0, 1]), vec![5]);
}

#[test]
fn one_symbol_pattern_is_found_at_every_occurrence() {
    assert_eq!(finds(&[1], &[0, 1, 1, 0, 1]), vec![2, 3, 5]);
}

#[test]
fn matcher_starts_over_after_a_find() {
    assert_eq!(finds(&[1, 1], &[1, 1, 1, 1, 0, 1, 1]), vec![2, 4, 7]);
}

#[test]
fn reset_forgets_the_progress() {
    let mut matcher = Matcher::new(vec![1, 0, 1]);
    assert!(!matcher.push(1));
    assert!(!matcher.push(0));
    matcher.reset();
    assert!(!matcher.push(1));
    assert!(!matcher.push(0));
    assert!(matcher.push(1));
}

#[test]
fn the_preamble_is_256_bit_symbols() {
    let symbols = preamble();
    assert_eq!(symbols.len(), 256);
    assert_eq!(PREAMBLE_LEN, 256);
    assert_eq!(symbols, PREAMBLE.to_vec());
    assert!(is_bit_stream(&symbols));
    assert_eq!(&symbols[..8], &[1, 0, 1, 0, 1, 1, 1, 1]);
    assert_eq!(&symbols[248..], &[0, 1, 0, 1, 0, 0, 1, 1]);
}

#[test]
fn the_preamble_is_found_behind_noise() {
    let mut stream: Vec<u8> = vec![1, 0, 1, 0, 1, 1, 0, 1, 0, 1, 0];
    stream.extend(preamble());
    stream.extend([0, 1, 1]);
    assert_eq!(finds(&preamble(), &stream), vec![11 + 256]);
}
