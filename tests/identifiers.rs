use tempoid::alphabet;
use tempoid::error::TempoIdError;
use tempoid::pool::EntropyPool;
use tempoid::sampler::generate_random_string;
use tempoid::{tempo_id, TempoId, TempoIdOptions};

#[test]
fn test_tempo_id() {
    let id = TempoId::generate().unwrap();
    println!("Generated TempoId: {}", id.to_string());
    assert_eq!(id.to_string().len(), 8 + 13);
}

#[test]
fn test_with_alphabet() {
    let id = TempoId::generate_with_alphabet(alphabet::UPPERCASE).unwrap();
    println!("Generated TempoId with uppercase characters: {}", id.to_string());
    assert!(id.to_string().chars().all(|c| c.is_ascii_uppercase()));
}

#[test]
fn test_custom_options() {
    let options = TempoIdOptions {
        time_length: 10,
        random_length: 15,
        time: None,
        start_time: None,
        pad_left: true,
        alphabet: alphabet::NUMBERS,
    };
    let id = TempoId::generate_custom(options).unwrap();
    println!("Generated TempoId with custom options: {}", id.to_string());
    assert_eq!(id.to_string().len(), 10 + 15);
    assert!(id.to_string().chars().all(|c| c.is_numeric()));
}

#[test]
fn test_no_pad_time() {
    let options = TempoIdOptions {
        time_length: 16,
        random_length: 1,
        time: Some(0),
        start_time: None,
        pad_left: false,
        alphabet: alphabet::NUMBERS,
    };
    let id = TempoId::generate_custom(options).unwrap();
    println!("Generated TempoId with no padding: {}", id.to_string());
    assert_eq!(id.to_string().len(), 2);
    assert!(id.to_string().chars().all(|c| c.is_numeric()));
}

fn options(time_length: usize, random_length: usize, pad_left: bool, alphabet: &'static str) -> TempoIdOptions {
    TempoIdOptions {
        time_length,
        random_length,
        time: None,
        start_time: None,
        pad_left,
        alphabet,
    }
}

#[test]
fn padded_identifiers_have_both_widths() {
    let alphabets = [
        alphabet::NUMBERS,
        alphabet::HEXADECIMAL_UPPERCASE,
        alphabet::NO_DOPPELGANGER,
        alphabet::BASE64,
    ];
    for a in alphabets {
        for (t, r) in [(0, 0), (0, 5), (1, 1), (8, 13), (12, 30)] {
            let id = tempo_id(Some(options(t, r, true, a))).unwrap();
            assert_eq!(id.chars().count(), t + r);
            assert!(id.chars().all(|c| a.contains(c)));
        }
    }
}

#[test]
fn random_only_identifier_is_drawn_from_alphabet() {
    for a in [alphabet::LOWERCASE, alphabet::URL, alphabet::HEXADECIMAL_LOWERCASE] {
        let id = tempo_id(Some(options(0, 40, false, a))).unwrap();
        assert_eq!(id.chars().count(), 40);
        assert!(id.chars().all(|c| a.contains(c)));
    }
}

#[test]
fn default_options_are_the_documented_ones() {
    let o = TempoIdOptions::default();
    assert_eq!(o.time_length, 8);
    assert_eq!(o.random_length, 13);
    assert_eq!(o.time, None);
    assert_eq!(o.start_time, None);
    assert!(o.pad_left);
    assert_eq!(o.alphabet, alphabet::ALPHANUMERIC);
}

#[test]
fn explicit_time_gives_exact_time_segment() {
    let o = TempoIdOptions {
        time: Some(42),
        ..options(5, 3, true, alphabet::NUMBERS)
    };
    let id = tempo_id(Some(o)).unwrap();
    assert_eq!(&id[..5], "00042");
}

#[test]
fn too_short_alphabet_is_rejected() {
    assert_eq!(
        TempoId::generate_with_alphabet("a"),
        Err(TempoIdError::InvalidAlphabet)
    );
    assert_eq!(
        TempoId::generate_custom(options(4, 4, true, "")),
        Err(TempoIdError::InvalidAlphabet)
    );
}

#[test]
fn parse_keeps_the_text() {
    let id = TempoId::parse("anything at all!");
    assert_eq!(id.to_string(), "anything at all!");
}

#[test]
fn identifiers_differ() {
    let a = TempoId::generate().unwrap();
    let b = TempoId::generate().unwrap();
    assert_ne!(a.to_string()[8..], b.to_string()[8..]);
}

#[test]
fn wall_clock_time_segment_is_current() {
    let before = std::time::SystemTime::now()
        .duration_since(std::time::UNIX_EPOCH)
        .unwrap()
        .as_millis() as u64;
    let id = tempo_id(Some(options(15, 0, true, alphabet::NUMBERS))).unwrap();
    let after = std::time::SystemTime::now()
        .duration_since(std::time::UNIX_EPOCH)
        .unwrap()
        .as_millis() as u64;
    let t: u64 = id.parse().unwrap();
    assert!(before <= t && t <= after);
}

#[test]
fn start_time_is_subtracted() {
    let o = TempoIdOptions {
        time: Some(1000),
        start_time: Some(1),
        ..options(4, 0, true, alphabet::NUMBERS)
    };
    assert_eq!(tempo_id(Some(o)).unwrap(), "0999");
}

#[test]
fn random_digits_are_uniform() {
    let mut pool = EntropyPool::new();
    let mut counts = [0u64; 10];
    let mut total: u64 = 0;
    while total < 100_000 {
        let s = generate_random_string(&mut pool, 15, alphabet::NUMBERS).unwrap();
        assert_eq!(s.len(), 15);
        for c in s.chars() {
            let d = c.to_digit(10).unwrap() as usize;
            counts[d] += 1;
            total += 1;
        }
    }
    let expected = total as f64 / 10.0;
    let chi_square: f64 = counts
        .iter()
        .map(|&c| {
            let d = c as f64 - expected;
            d * d / expected
        })
        .sum();
    // 9 degrees of freedom: 27.88 is the 0.999 quantile.
    assert!(chi_square < 27.88, "chi-square {} for {:?}", chi_square, counts);
}

#[test]
fn zero_length_random_segment_needs_no_entropy() {
    let mut pool = EntropyPool::new();
    assert_eq!(generate_random_string(&mut pool, 0, alphabet::NUMBERS).unwrap(), "");
    let o = TempoIdOptions {
        time: Some(7),
        ..options(3, 0, true, alphabet::NUMBERS)
    };
    assert_eq!(tempo_id(Some(o)).unwrap(), "007");
}

#[test]
fn identifiers_from_a_shared_pool() {
    let mut pool = EntropyPool::new();
    let o = options(8, 13, true, alphabet::ALPHANUMERIC);
    let first = TempoId::generate_from_pool(&mut pool, &o).unwrap().to_string();
    let second = TempoId::generate_from_pool(&mut pool, &o).unwrap().to_string();
    assert_eq!(first.len(), 21);
    assert_eq!(second.len(), 21);
    assert_ne!(first[8..], second[8..]);
}
