use aes_gcm_siv::aead::{Aead, KeyInit};
use aes_gcm_siv::{Aes256GcmSiv, Nonce};
use aira_core::crypto::{
    decrypt_data, decrypt_master_key, encrypt_data, encrypt_master_key, generate_master_key,
    CryptoError,
};
use aira_core::util::{
    bool_to_jboolean, bytes_eq, hex_upper_string, to_uuid_bytes, u64_from_be, u64_to_be,
};

#[test]
fn aead_round_trip() {
    let key = generate_master_key();
    let msg = b"attack at dawn".to_vec();
    let sealed = encrypt_data(&msg, &key).unwrap();
    assert_eq!(sealed.len(), 12 + msg.len() + 16);
    let opened = decrypt_data(&sealed, &key).unwrap();
    assert_eq!(opened, msg);
}

#[test]
fn aead_round_trip_empty_message() {
    let key = generate_master_key();
    let sealed = encrypt_data(&[], &key).unwrap();
    assert_eq!(sealed.len(), 28);
    assert_eq!(decrypt_data(&sealed, &key).unwrap(), Vec::<u8>::new());
}

#[test]
fn aead_matches_raw_cipher() {
    // The library's sealed layout must open under the bare AES-256-GCM-SIV
    // crate: 12-byte nonce in front, 16-byte tag behind.
    let key = generate_master_key();
    let msg = b"cross-check me".to_vec();
    let sealed = encrypt_data(&msg, &key).unwrap();
    let cipher = Aes256GcmSiv::new_from_slice(&key).unwrap();
    let opened = cipher
        .decrypt(Nonce::from_slice(&sealed[..12]), &sealed[12..])
        .unwrap();
    assert_eq!(opened, msg);
}

#[test]
fn aead_rejects_wrong_key_sizes() {
    let short_key = vec![7u8; 16];
    assert_eq!(
        encrypt_data(b"x", &short_key).unwrap_err(),
        CryptoError::InvalidLength
    );
    assert_eq!(
        decrypt_data(&vec![0u8; 40], &short_key).unwrap_err(),
        CryptoError::InvalidLength
    );
}

#[test]
fn aead_rejects_short_input() {
    let key = generate_master_key();
    // Anything shorter than nonce plus tag cannot have the sealed layout.
    assert_eq!(
        decrypt_data(&vec![0u8; 27], &key).unwrap_err(),
        CryptoError::InvalidLength
    );
}

#[test]
fn aead_rejects_tampered_ciphertext() {
    let key = generate_master_key();
    let mut sealed = encrypt_data(b"payload", &key).unwrap();
    let last = sealed.len() - 1;
    sealed[last] ^= 0x01;
    assert_eq!(
        decrypt_data(&sealed, &key).unwrap_err(),
        CryptoError::DecryptionFailed
    );
}

#[test]
fn aead_rejects_wrong_key() {
    let key = generate_master_key();
    let other = generate_master_key();
    let sealed = encrypt_data(b"payload", &key).unwrap();
    assert_eq!(
        decrypt_data(&sealed, &other).unwrap_err(),
        CryptoError::DecryptionFailed
    );
}

#[test]
fn master_key_wrap_round_trip() {
    let master_key = generate_master_key();
    let (salt, blob) = encrypt_master_key(master_key.clone(), b"hunter2");
    assert_eq!(salt.len(), 32);
    assert_eq!(blob.len(), 60);
    let unwrapped = decrypt_master_key(&blob, b"hunter2", &salt).unwrap();
    assert_eq!(unwrapped, master_key);
}

#[test]
fn master_key_wrap_rejects_wrong_password() {
    let master_key = generate_master_key();
    let (salt, blob) = encrypt_master_key(master_key, b"hunter2");
    assert_eq!(
        decrypt_master_key(&blob, b"hunter3", &salt).unwrap_err(),
        CryptoError::DecryptionFailed
    );
}

#[test]
fn master_key_wrap_rejects_nonce_bit_flip() {
    let master_key = generate_master_key();
    let (salt, blob) = encrypt_master_key(master_key, b"pw");
    let mut bad = blob.clone();
    bad[0] ^= 0x80;
    assert_eq!(
        decrypt_master_key(&bad, b"pw", &salt).unwrap_err(),
        CryptoError::DecryptionFailed
    );
}

#[test]
fn master_key_wrap_rejects_tag_bit_flip() {
    let master_key = generate_master_key();
    let (salt, blob) = encrypt_master_key(master_key, b"pw");
    let mut bad = blob.clone();
    bad[59] ^= 0x01;
    assert_eq!(
        decrypt_master_key(&bad, b"pw", &salt).unwrap_err(),
        CryptoError::DecryptionFailed
    );
}

#[test]
fn master_key_wrap_rejects_bad_sizes() {
    let salt = vec![0u8; 32];
    assert_eq!(
        decrypt_master_key(&vec![0u8; 59], b"pw", &salt).unwrap_err(),
        CryptoError::InvalidLength
    );
    assert_eq!(
        decrypt_master_key(&vec![0u8; 60], b"pw", &vec![0u8; 31]).unwrap_err(),
        CryptoError::InvalidLength
    );
}

#[test]
fn master_key_wrap_matches_raw_scrypt() {
    // The wrapped blob must be exactly AES-256-GCM-SIV under the scrypt hash
    // of the password at log2(N)=16, r=8, p=1.
    let master_key = generate_master_key();
    let (salt, blob) = encrypt_master_key(master_key.clone(), b"secret");
    let params = scrypt::Params::new(16, 8, 1, 32).unwrap();
    let mut password_hash = [0u8; 32];
    scrypt::scrypt(b"secret", &salt, &params, &mut password_hash).unwrap();
    let cipher = Aes256GcmSiv::new_from_slice(&password_hash).unwrap();
    let opened = cipher
        .decrypt(Nonce::from_slice(&blob[..12]), &blob[12..])
        .unwrap();
    assert_eq!(opened, master_key);
}

#[test]
fn wrap_salts_are_fresh() {
    let (salt_a, _) = encrypt_master_key(generate_master_key(), b"pw");
    let (salt_b, _) = encrypt_master_key(generate_master_key(), b"pw");
    assert_ne!(salt_a, salt_b);
}

#[test]
fn master_keys_are_distinct() {
    let mut seen = std::collections::HashSet::new();
    for _ in 0..1000 {
        let key = generate_master_key();
        assert_eq!(key.len(), 32);
        assert!(seen.insert(key));
    }
}

#[test]
fn hex_upper_matches_hex_crate() {
    let data = vec![0x00u8, 0x0f, 0xa5, 0xff, 0x4b, 0x1e];
    assert_eq!(
        hex_upper_string(&data),
        hex::encode(&data).to_uppercase()
    );
    assert_eq!(hex_upper_string(&[]), "");
}

#[test]
fn u64_big_endian_encoding() {
    assert_eq!(u64_to_be(258), vec![0, 0, 0, 0, 0, 0, 1, 2]);
    assert_eq!(u64_from_be(&[0, 0, 0, 0, 0, 0, 1, 2]), 258);
    let n = 0xdead_beef_0102_0304u64;
    assert_eq!(u64_to_be(n), n.to_be_bytes().to_vec());
    assert_eq!(u64_from_be(&n.to_be_bytes()), n);
}

#[test]
fn uuid_byte_checks() {
    assert_eq!(to_uuid_bytes(&[1u8; 16]).unwrap(), vec![1u8; 16]);
    assert!(to_uuid_bytes(&[1u8; 15]).is_none());
    assert!(to_uuid_bytes(&[1u8; 17]).is_none());
}

#[test]
fn small_helpers() {
    assert_eq!(bool_to_jboolean(true), 1);
    assert_eq!(bool_to_jboolean(false), 0);
    assert!(bytes_eq(b"abc", b"abc"));
    assert!(!bytes_eq(b"abc", b"abd"));
    assert!(!bytes_eq(b"abc", b"ab"));
}
