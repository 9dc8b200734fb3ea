use bonelab_mod_manager::platform::HostOs;
use bonelab_mod_manager::secret::{
    assemble_secret, chunk_key, chunk_keys, join_chunks, secret_fits, split_secret,
    SecretStoreError,
};

const LIMIT: usize = 8;

fn sample_secret(len: usize) -> Vec<u8> {
    (0..len).map(|i| (i % 251) as u8).collect()
}

#[test]
fn split_empty_secret_has_no_chunks() {
    let secret = sample_secret(0);
    let chunks = split_secret(&secret, LIMIT);
    assert_eq!(chunks.len(), 0);
    assert_eq!(join_chunks(&chunks), secret);
}

#[test]
fn split_at_exact_limit_is_one_chunk() {
    let secret = sample_secret(LIMIT);
    let chunks = split_secret(&secret, LIMIT);
    assert_eq!(chunks.len(), 1);
    assert_eq!(chunks[0].len(), LIMIT);
    assert_eq!(join_chunks(&chunks), secret);
}

#[test]
fn split_just_over_limit_is_two_chunks() {
    let secret = sample_secret(LIMIT + 1);
    let chunks = split_secret(&secret, LIMIT);
    assert_eq!(chunks.len(), 2);
    assert_eq!(chunks[0].len(), LIMIT);
    assert_eq!(chunks[1].len(), 1);
    assert_eq!(join_chunks(&chunks), secret);
}

#[test]
fn split_ten_times_limit_is_ten_chunks() {
    let secret = sample_secret(10 * LIMIT);
    let chunks = split_secret(&secret, LIMIT);
    assert_eq!(chunks.len(), 10);
    for chunk in &chunks {
        assert_eq!(chunk.len(), LIMIT);
    }
    assert_eq!(join_chunks(&chunks), secret);
}

#[test]
fn split_short_secret_is_one_chunk() {
    let secret = b"tok".to_vec();
    let chunks = split_secret(&secret, LIMIT);
    assert_eq!(chunks.len(), 1);
    assert_eq!(chunks[0], secret);
}

#[test]
fn chunk_count_is_ceiling() {
    for len in [1usize, 7, 8, 9, 15, 16, 17, 80] {
        let chunks = split_secret(&sample_secret(len), LIMIT);
        assert_eq!(chunks.len(), (len + LIMIT - 1) / LIMIT);
    }
}

#[test]
fn secret_fits_respects_count_byte() {
    assert!(secret_fits(0, 1));
    assert!(secret_fits(255, 1));
    assert!(!secret_fits(256, 1));
    assert!(secret_fits(255 * LIMIT, LIMIT));
    assert!(!secret_fits(255 * LIMIT + 1, LIMIT));
}

#[test]
fn chunk_keys_are_identity_dash_index() {
    let identity = b"user".to_vec();
    assert_eq!(chunk_key(&identity, 0), b"user-0".to_vec());
    assert_eq!(chunk_key(&identity, 7), b"user-7".to_vec());
    assert_eq!(chunk_key(&identity, 37), b"user-37".to_vec());
    assert_eq!(chunk_key(&identity, 255), b"user-255".to_vec());
    let keys = chunk_keys(&identity, 3);
    assert_eq!(keys.len(), 3);
    assert_eq!(keys[0], b"user-0".to_vec());
    assert_eq!(keys[1], b"user-1".to_vec());
    assert_eq!(keys[2], b"user-2".to_vec());
}

#[test]
fn assemble_empty_is_not_found() {
    match assemble_secret(vec![]) {
        Err(SecretStoreError::NotFound) => {}
        _ => panic!("expected NotFound"),
    }
}

#[test]
fn assemble_with_missing_chunk_fails() {
    let parts = vec![Some(b"ab".to_vec()), None, Some(b"cd".to_vec())];
    match assemble_secret(parts) {
        Err(SecretStoreError::MissingChunk) => {}
        _ => panic!("expected MissingChunk"),
    }
}

#[test]
fn assemble_joins_all_chunks() {
    let parts = vec![Some(b"abc".to_vec()), Some(b"def".to_vec()), Some(b"g".to_vec())];
    assert_eq!(assemble_secret(parts).unwrap(), b"abcdefg".to_vec());
}

#[test]
fn store_round_trip_through_split_and_assemble() {
    let secret = sample_secret(3 * LIMIT + 2);
    let chunks = split_secret(&secret, LIMIT);
    let parts: Vec<Option<Vec<u8>>> = chunks.into_iter().map(Some).collect();
    assert_eq!(assemble_secret(parts).unwrap(), secret);
}

#[test]
fn secret_store_error_messages() {
    assert_eq!(SecretStoreError::NotFound.message(), "no stored secret");
    assert_eq!(
        SecretStoreError::MissingChunk.message(),
        "stored secret is missing a chunk"
    );
}

#[test]
fn split_against_platform_limits() {
    let limit = HostOs::Windows.secret_chunk_limit();
    for len in [0usize, limit, limit + 1, 10 * limit] {
        let secret = sample_secret(len);
        let chunks = split_secret(&secret, limit);
        let expected = if len == 0 { 0 } else { (len + limit - 1) / limit };
        assert_eq!(chunks.len(), expected);
        assert_eq!(join_chunks(&chunks), secret);
    }
}
