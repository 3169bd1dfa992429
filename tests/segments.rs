use tempoid::alphabet;
use tempoid::pool::EntropyPool;
use tempoid::sampler::{append_accepted, selection_mask_for};
use tempoid::timestamp::{format_time, generate_time};

#[test]
fn zero_time_without_padding_is_one_digit() {
    assert_eq!(generate_time(16, Some(0), None, false, alphabet::NUMBERS), "0");
}

#[test]
fn zero_width_time_segment_is_empty() {
    assert_eq!(generate_time(0, Some(123), None, true, alphabet::NUMBERS), "");
    assert_eq!(generate_time(0, None, None, true, alphabet::NUMBERS), "");
}

#[test]
fn time_is_padded_and_reduced() {
    assert_eq!(format_time(5, 42, true, alphabet::NUMBERS), "00042");
    assert_eq!(format_time(5, 42, false, alphabet::NUMBERS), "42");
    assert_eq!(format_time(2, 1234, true, alphabet::NUMBERS), "34");
    assert_eq!(format_time(2, 1200, true, alphabet::NUMBERS), "00");
    assert_eq!(format_time(2, 1200, false, alphabet::NUMBERS), "0");
    assert_eq!(format_time(3, 255, true, alphabet::HEXADECIMAL_LOWERCASE), "0ff");
    assert_eq!(format_time(30, u64::MAX, false, alphabet::NUMBERS), "18446744073709551615");
}

#[test]
fn start_time_after_time_wraps() {
    // 2^64 - 1 modulo 1000.
    assert_eq!(generate_time(3, Some(0), Some(1), true, alphabet::NUMBERS), "615");
}

#[test]
fn selection_masks() {
    assert_eq!(selection_mask_for(2), 1);
    assert_eq!(selection_mask_for(10), 15);
    assert_eq!(selection_mask_for(16), 15);
    assert_eq!(selection_mask_for(17), 31);
    assert_eq!(selection_mask_for(26), 31);
    assert_eq!(selection_mask_for(62), 63);
    assert_eq!(selection_mask_for(64), 63);
    assert_eq!(selection_mask_for(65), 127);
}

#[test]
fn rejected_bytes_are_skipped() {
    let bytes: Vec<u8> = vec![0, 9, 10, 15, 19, 255, 7];
    let mut out = Vec::new();
    append_accepted(&bytes, 15, alphabet::NUMBERS, 10, &mut out);
    assert_eq!(out, vec!['0', '9', '3', '7']);
    let mut short = vec!['x'];
    append_accepted(&bytes, 15, alphabet::NUMBERS, 3, &mut short);
    assert_eq!(short, vec!['x', '0', '9']);
}

#[test]
fn pool_hands_out_fresh_bytes() {
    let mut pool = EntropyPool::new();
    let a = pool.take(64).unwrap();
    let b = pool.take(64).unwrap();
    assert_eq!(a.len(), 64);
    assert!(a.iter().any(|&x| x != 0));
    assert_ne!(a, b);
    let empty = pool.take(0).unwrap();
    assert!(empty.is_empty());
}

#[test]
fn pool_serves_requests_larger_than_its_buffer() {
    let mut pool = EntropyPool::new();
    assert_eq!(pool.take(2).unwrap().len(), 2);
    let big = pool.take(1000).unwrap();
    assert_eq!(big.len(), 1000);
    assert!(big.iter().any(|&x| x != 0));
}
