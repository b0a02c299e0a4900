use std::hash::Hasher;

use vibesearch::protocol::{hash_prompt, literal_prompt, serde_prompt, sha256_prompt};

#[test]
fn test_display_prompt_formatter() {
    let data: Vec<String> = vec!["foo".to_string(), "bar".to_string(), "foobar".to_string()];
    let prompt = literal_prompt(&data, &"bar".to_string());

    let lines: Vec<_> = prompt.split("\n").collect();
    let separator = lines[0];

    assert_eq!(lines[1], "find bar");
    assert_eq!(lines[2], separator);
    assert_eq!(lines[3], "0,foo");
    assert_eq!(lines[4], separator);
    assert_eq!(lines[5], "1,bar");
    assert_eq!(lines[6], separator);
    assert_eq!(lines[7], "2,foobar");
}

fn default_hasher(x: u64) -> u64 {
    let mut hasher = std::collections::hash_map::DefaultHasher::new();
    hasher.write(&x.to_le_bytes());
    hasher.finish()
}

#[test]
fn test_hash_prompt_formatter() {
    let data: Vec<u64> = vec![123, 53, 351, 412];
    let prompt = hash_prompt(&data, 53);

    let lines: Vec<_> = prompt.split("\n").collect();
    let separator = lines[0];

    assert_eq!("#", separator);
    assert_eq!(lines[1], format!("find {}", default_hasher(53)));
    assert_eq!(lines[2], "#");
    assert_eq!(lines[3], format!("0,{}", default_hasher(123)));
    assert_eq!(lines[4], "#");
    assert_eq!(lines[5], format!("1,{}", default_hasher(53)));
    assert_eq!(lines[6], "#");
    assert_eq!(lines[7], format!("2,{}", default_hasher(351)));
    assert_eq!(lines[8], "#");
    assert_eq!(lines[9], format!("3,{}", default_hasher(412)));
}

fn sha256_b64(data: &[u8]) -> String {
    let hash = ring::digest::digest(&ring::digest::SHA256, data);
    base64::Engine::encode(&base64::engine::general_purpose::STANDARD, hash.as_ref())
}

#[test]
fn test_sha256_prompt_formatter() {
    let data: Vec<Vec<u8>> = vec![vec![1], vec![2], vec![3]];
    let prompt = sha256_prompt(&data, &[2]);

    let lines: Vec<_> = prompt.split("\n").collect();
    let separator = lines[0];

    assert_eq!("#", separator);
    assert_eq!(lines[1], format!("find {}", sha256_b64(&[2])));
    assert_eq!(lines[2], "#");
    assert_eq!(lines[3], format!("0,{}", sha256_b64(&[1])));
    assert_eq!(lines[4], "#");
    assert_eq!(lines[5], format!("1,{}", sha256_b64(&[2])));
    assert_eq!(lines[6], "#");
    assert_eq!(lines[7], format!("2,{}", sha256_b64(&[3])));
}

fn serialize_b64(x: u64) -> String {
    let bytes = bincode::serde::encode_to_vec(x, bincode::config::standard()).unwrap();
    base64::Engine::encode(&base64::engine::general_purpose::STANDARD, &bytes)
}

#[test]
fn test_serde_prompt_formatter() {
    let data: Vec<u64> = vec![1, 2, 3];
    let prompt = serde_prompt(&data, 2).unwrap();

    let lines: Vec<_> = prompt.split("\n").collect();
    let separator = lines[0];

    assert_eq!(lines[1], format!("find {}", serialize_b64(2)));
    assert_eq!(lines[2], separator);
    assert_eq!(lines[3], format!("0,{}", serialize_b64(1)));
    assert_eq!(lines[4], separator);
    assert_eq!(lines[5], format!("1,{}", serialize_b64(2)));
    assert_eq!(lines[6], separator);
    assert_eq!(lines[7], format!("2,{}", serialize_b64(3)));
}
