use cdn_vault::auth::{generate_secret_code, secret_code_from_bytes};
use cdn_vault::flags::{
    eligible_for_indexing, initial_flags, is_supported_image_type, state_of, ObjectState,
    COF_INDEXED, COF_SEARCHABLE,
};
use cdn_vault::hashing::{compute_sha256, sha256_hex};
use cdn_vault::hex::{to_hex, u64_to_hex};
use cdn_vault::ocr::join_text_lines;
use cdn_vault::strutil::{str_contains_sub, str_eq, str_has_prefix};
use sha2::{Digest, Sha256};

#[test]
fn hex_of_known_bytes() {
    assert_eq!(to_hex(&[0xbe, 0xef]), "beef");
    assert_eq!(to_hex(&[]), "");
    assert_eq!(to_hex(&[0x00, 0x0a]), "000a");
    assert_eq!(to_hex(&[0xff]), "ff");
}

#[test]
fn hex_of_u64_is_unpadded() {
    assert_eq!(u64_to_hex(0), "0");
    assert_eq!(u64_to_hex(10), "a");
    assert_eq!(u64_to_hex(16), "10");
    assert_eq!(u64_to_hex(255), "ff");
    assert_eq!(u64_to_hex(0xdeadbeef), "deadbeef");
}

#[test]
fn sha256_of_known_vectors() {
    assert_eq!(
        sha256_hex(b"abc"),
        "ba7816bf8f01cfea414140de5dae2223b00361a396177a9cb410ff61f20015ad"
    );
    assert_eq!(
        sha256_hex(b""),
        "e3b0c44298fc1c149afbf4c8996fb92427ae41e4649b934ca495991b7852b855"
    );
}

#[test]
fn sha256_matches_reference_implementation() {
    let data: Vec<u8> = (0u16..500).map(|x| (x % 251) as u8).collect();
    let expected = format!("{:x}", Sha256::digest(&data));
    assert_eq!(sha256_hex(&data), expected);
}

#[test]
fn chunked_hash_equals_whole_hash() {
    let chunks = vec![b"ab".to_vec(), b"".to_vec(), b"c".to_vec()];
    assert_eq!(compute_sha256(&chunks), sha256_hex(b"abc"));
}

#[test]
fn initial_flags_follow_the_allowlist() {
    assert_eq!(initial_flags("image/png"), COF_SEARCHABLE);
    assert_eq!(initial_flags("image/jpeg"), COF_SEARCHABLE);
    assert_eq!(initial_flags("image/jpg"), COF_SEARCHABLE);
    assert_eq!(initial_flags("image/webp"), COF_SEARCHABLE);
    assert_eq!(initial_flags("text/plain"), 0);
    assert_eq!(initial_flags("image/gif"), 0);
    assert_eq!(initial_flags("application/octet-stream"), 0);
    assert!(is_supported_image_type("image/png"));
    assert!(!is_supported_image_type("image/"));
}

#[test]
fn flag_state_machine() {
    assert_eq!(state_of(0), ObjectState::Raw);
    assert_eq!(state_of(COF_SEARCHABLE), ObjectState::SearchableUnindexed);
    assert_eq!(state_of(COF_SEARCHABLE | COF_INDEXED), ObjectState::SearchableIndexed);
    assert_eq!(state_of(COF_INDEXED), ObjectState::Raw);
    assert!(eligible_for_indexing(COF_SEARCHABLE));
    assert!(!eligible_for_indexing(0));
    assert!(!eligible_for_indexing(COF_SEARCHABLE | COF_INDEXED));
}

#[test]
fn secret_codes_encode_bytes_unpadded() {
    assert_eq!(secret_code_from_bytes(&vec![0x00, 0xff, 0x0a]), "0ffa");
    assert_eq!(secret_code_from_bytes(&vec![]), "");
    let code = generate_secret_code();
    assert!(code.len() >= 16 && code.len() <= 32);
    assert!(code.chars().all(|c| c.is_ascii_hexdigit() && !c.is_ascii_uppercase()));
}

#[test]
fn joined_lines_drop_empty_lines() {
    let lines = vec!["hello".to_string(), "".to_string(), "world".to_string()];
    assert_eq!(join_text_lines(&lines), "hello\nworld\n");
    assert_eq!(join_text_lines(&vec![]), "");
}

#[test]
fn string_predicates() {
    assert!(str_eq("image/png", "image/png"));
    assert!(!str_eq("image/png", "image/jpg"));
    assert!(str_has_prefix("image/png", "image/"));
    assert!(!str_has_prefix("text/plain", "image/"));
    assert!(str_has_prefix("abc", ""));
    assert!(str_contains_sub("one invoice here", "invoice"));
    assert!(!str_contains_sub("one receipt here", "invoice"));
    assert!(str_contains_sub("anything", ""));
}
