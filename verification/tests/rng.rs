use pokenft::rng::{sample, Error};

#[test]
fn test_with_short_string() {
    let result = sample(String::from("1"));

    assert_eq!(result, Err(Error::SeedNot32Bytes));
}

#[test]
fn test_with_long_string() {
    let result = sample(String::from("1234567890123456789012345678901245"));

    assert_eq!(result, Err(Error::SeedNot32Bytes));
}

#[test]
fn sample_is_deterministic() {
    for b in 0..32u8 {
        let s = [b; 32];
        assert_eq!(sample(s), sample(s));
    }
}

#[test]
fn sample_stays_in_species_range() {
    for b in 0..=255u8 {
        let s = [b; 32];
        let id = sample(s).unwrap();
        assert!(1 <= id && id <= 151);
    }
}

#[test]
fn sample_of_string_matches_sample_of_its_bytes() {
    let text = String::from("abcdefghijklmnopqrstuvwxyz012345");
    let mut bytes = [0u8; 32];
    bytes.copy_from_slice(text.as_bytes());

    assert_eq!(sample(text), sample(bytes));
}

#[test]
fn sample_depends_on_the_seed() {
    // A sampler that ignored its seed could not produce three values.
    let mut seen = Vec::new();
    for b in 0..=255u8 {
        let id = sample([b; 32]).unwrap();
        if !seen.contains(&id) {
            seen.push(id);
        }
    }
    assert!(seen.len() > 2);
}
