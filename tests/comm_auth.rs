use std::collections::HashSet;

use kohaku::api_key::{extract_prefix, generate_key, hash_key, random_string, verify_key, CHARSET};
use kohaku::error::KohakuError;

#[test]
fn test_generate_key_format() {
    let (full_key, _) = generate_key();
    assert!(full_key.starts_with("khk_"));
    assert_eq!(full_key.split('_').collect::<Vec<_>>().len(), 3);
    assert_eq!(full_key.len(), 42);
}

#[test]
fn test_generate_key_prefix_fit_key() {
    let (full_key, prefix) = generate_key();
    assert!(full_key.starts_with(&prefix));
}

#[test]
fn test_generate_key_prefix_format() {
    let (_, prefix) = generate_key();
    assert!(prefix.starts_with("khk_"));
    assert_eq!(prefix.split('_').collect::<Vec<_>>().len(), 2);
    assert_eq!(prefix.len(), 10);
}

#[test]
fn test_generate_key_uniqueness() {
    let keys: Vec<String> = (0..100)
        .map(|_| {
            let (key, _) = generate_key();
            key
        })
        .collect();
    let unqiue_count = keys.iter().collect::<HashSet<&String>>().len();
    assert_eq!(unqiue_count, keys.len())
}

#[test]
fn test_random_string_correct_length() {
    for i in 0..100 {
        let s = random_string(i);
        assert_eq!(s.len(), i);
    }
}

#[test]
fn test_random_string_guranteed_charset() {
    for i in 0..100 {
        let s = random_string(i);
        assert!(s.chars().all(|c| CHARSET.contains(c)));
    }
}

#[test]
fn test_random_string_randomness() {
    let rng_str: Vec<String> = (0..100).map(|_| random_string(10)).collect();
    let unqiue_count = rng_str.iter().collect::<HashSet<&String>>().len();
    assert_eq!(unqiue_count, rng_str.len())
}

#[test]
fn test_random_string_empty() {
    let s = random_string(0);
    assert_eq!(s, "");
}

#[test]
fn test_hash_successful() {
    let (key, _) = generate_key();
    let result = hash_key(&key);
    assert!(result.is_ok());
    assert!(!result.unwrap().is_empty());
}

#[test]
fn test_hash_valid_argon2() {
    let (key, _) = generate_key();
    let hash = hash_key(&key).unwrap();
    assert!(hash.starts_with("$argon2"))
}

#[test]
fn test_hash_different_of_same_key() {
    let (key, _) = generate_key();
    let hash1 = hash_key(&key).unwrap();
    let hash2 = hash_key(&key).unwrap();
    assert_ne!(hash1, hash2);
}

#[test]
fn test_hash_different_to_key() {
    let (key, _) = generate_key();
    let hash = hash_key(&key).unwrap();
    assert_ne!(hash, key);
}

#[test]
fn test_verify_key_valid_pair() {
    let (key, _) = generate_key();
    let hash = hash_key(&key).unwrap();
    let val = verify_key(&key, &hash);
    assert!(val.is_ok());
    assert!(val.unwrap());
}

#[test]
fn test_verify_key_invalid_pair() {
    let (key1, _) = generate_key();
    let (key2, _) = generate_key();

    let hash1 = hash_key(&key1).unwrap();
    let hash2 = hash_key(&key2).unwrap();

    let val = verify_key(&key1, &hash2);
    assert!(val.is_ok());
    assert!(!val.unwrap());

    let val = verify_key(&key2, &hash1);
    assert!(val.is_ok());
    assert!(!val.unwrap());
}

#[test]
fn test_verify_key_corrupted() {
    let (key, _) = generate_key();
    let hash = hash_key(&key).unwrap();
    let malformed = hash.replace("$argon2", "$bygon2");

    let val = verify_key(&key, &malformed);
    assert!(val.is_err());
}

#[test]
fn test_verify_key_empty() {
    let empty_key = "";
    let (key, _) = generate_key();
    let empty_hash = "";
    let hash = hash_key(&key).unwrap();

    let val = verify_key(&empty_key, &hash);
    assert!(val.is_ok());
    assert!(!val.unwrap());

    let val = verify_key(&key, &empty_hash);
    assert!(val.is_err());
}

#[test]
fn test_extract_prefix_format() {
    let (key, prefix) = generate_key();
    let ext_prefix = extract_prefix(&key);
    assert!(ext_prefix.is_ok());
    let ep = ext_prefix.unwrap();
    assert_eq!(
        ep, prefix,
        "Extracted prefix : {}, Generated prefix: {}",
        ep, prefix
    );
}

#[test]
fn test_extract_prefix_illegal_too_many_underscores() {
    let val = extract_prefix("khk_too_many_under_scores_in_this_key");
    assert!(matches!(val, Err(KohakuError::ValidationError(_))));
}

#[test]
fn test_extract_prefix_illegal_too_few_underscores() {
    assert!(extract_prefix("khk_toolittleunderscores").is_err());
}

#[test]
fn test_extract_prefix_illegal_no_underscores() {
    assert!(extract_prefix("khknounderscores").is_err());
}

#[test]
fn test_extract_prefix_exact_value() {
    assert_eq!(extract_prefix("khk_abc123_secretpart").unwrap(), "khk_abc123");
    assert_eq!(extract_prefix("a__b").unwrap(), "a_");
}

#[test]
fn test_charset_has_no_separator() {
    assert_eq!(CHARSET.chars().count(), 72);
    assert!(!CHARSET.contains('_'));
}

#[test]
fn test_generated_key_body_uses_charset() {
    let (key, _) = generate_key();
    for (i, c) in key.chars().enumerate() {
        if i >= 4 && i != 10 {
            assert!(CHARSET.contains(c));
        }
    }
    assert_eq!(key.chars().nth(10), Some('_'));
}
