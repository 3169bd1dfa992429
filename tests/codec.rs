use tempoid::alphabet;
use tempoid::codec::{encode_number, get_max_value_of_fixed_length, max_value_if_representable};

fn decode(s: &str, a: &str) -> u64 {
    let digits: Vec<char> = a.chars().collect();
    let base = digits.len() as u64;
    s.chars()
        .fold(0, |acc, c| acc * base + digits.iter().position(|&d| d == c).unwrap() as u64)
}

#[test]
fn zero_is_the_first_character() {
    for a in [
        alphabet::NUMBERS,
        alphabet::HEXADECIMAL_LOWERCASE,
        alphabet::UPPERCASE,
        alphabet::NO_DOPPELGANGER,
        alphabet::BASE64,
    ] {
        assert_eq!(encode_number(0, a), a.chars().next().unwrap().to_string());
    }
}

#[test]
fn encodes_most_significant_digit_first() {
    assert_eq!(encode_number(255, alphabet::HEXADECIMAL_LOWERCASE), "ff");
    assert_eq!(encode_number(256, alphabet::HEXADECIMAL_UPPERCASE), "100");
    assert_eq!(encode_number(1234567890, alphabet::NUMBERS), "1234567890");
    assert_eq!(encode_number(61, alphabet::ALPHANUMERIC), "z");
    assert_eq!(encode_number(62, alphabet::ALPHANUMERIC), "10");
    assert_eq!(encode_number(5, "ab"), "bab");
    assert_eq!(encode_number(u64::MAX, alphabet::NUMBERS), "18446744073709551615");
}

#[test]
fn decoding_an_encoding_gives_the_number() {
    for a in [alphabet::NUMBERS, alphabet::NO_DOPPELGANGER, alphabet::BASE64, "xy"] {
        for n in [0u64, 1, 2, 9, 10, 61, 62, 63, 64, 99999, 1 << 40, u64::MAX] {
            assert_eq!(decode(&encode_number(n, a), a), n);
        }
    }
}

#[test]
fn max_value_for_length() {
    assert_eq!(get_max_value_of_fixed_length(2, alphabet::NUMBERS), 99);
    assert_eq!(get_max_value_of_fixed_length(0, alphabet::NUMBERS), 0);
    assert_eq!(get_max_value_of_fixed_length(8, alphabet::ALPHANUMERIC), 218340105584895);
    assert_eq!(get_max_value_of_fixed_length(16, alphabet::HEXADECIMAL_LOWERCASE), u64::MAX);
}

#[test]
fn max_value_beyond_u64_is_none() {
    assert_eq!(max_value_if_representable(64, 2), Some(u64::MAX));
    assert_eq!(max_value_if_representable(65, 2), None);
    assert_eq!(max_value_if_representable(19, 10), Some(9999999999999999999));
    assert_eq!(max_value_if_representable(20, 10), None);
}
