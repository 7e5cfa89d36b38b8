use aira_core::schedule::{
    compute_handshake_finished, generate_fingerprint, get_labels, verify_handshake_finished,
    ApplicationKeys, HandshakeKeys,
};
use hkdf::Hkdf;
use hmac::Mac;
use sha2::Sha384;

fn expand_label(prk: &[u8], label: &str, context: Option<&[u8]>, len: usize) -> Vec<u8> {
    // The library's length-prefixed info framing, rebuilt from the raw hkdf
    // crate for cross-checking.
    let mut info = (label.len() as u32).to_be_bytes().to_vec();
    info.extend_from_slice(label.as_bytes());
    if let Some(context) = context {
        info.extend_from_slice(&(context.len() as u32).to_be_bytes());
        info.extend_from_slice(context);
    }
    let hk = Hkdf::<Sha384>::from_prk(prk).unwrap();
    let mut okm = vec![0u8; len];
    hk.expand(&info, &mut okm).unwrap();
    okm
}

#[test]
fn labels_follow_the_role() {
    assert_eq!(
        get_labels(true, true),
        (
            "handshake_i_am_bob".to_string(),
            "handshake_i_am_alice".to_string()
        )
    );
    assert_eq!(
        get_labels(true, false),
        (
            "handshake_i_am_alice".to_string(),
            "handshake_i_am_bob".to_string()
        )
    );
    assert_eq!(
        get_labels(false, true),
        (
            "application_i_am_bob".to_string(),
            "application_i_am_alice".to_string()
        )
    );
    assert_eq!(
        get_labels(false, false),
        (
            "application_i_am_alice".to_string(),
            "application_i_am_bob".to_string()
        )
    );
}

#[test]
fn handshake_keys_match_raw_hkdf() {
    let shared = [0x11u8; 32];
    let hash = [0x22u8; 48];
    let keys = HandshakeKeys::derive_keys(&shared, &hash, true);

    let (prk, _) = Hkdf::<Sha384>::extract(None, &shared);
    assert_eq!(keys.handshake_secret, prk.to_vec());
    let local_ts = expand_label(&prk, "handshake_i_am_bob", Some(&hash), 48);
    assert_eq!(keys.local_handshake_traffic_secret, local_ts);
    let peer_ts = expand_label(&prk, "handshake_i_am_alice", Some(&hash), 48);
    assert_eq!(keys.peer_handshake_traffic_secret, peer_ts);
    assert_eq!(keys.local_key, expand_label(&local_ts, "key", None, 16));
    assert_eq!(keys.local_iv, expand_label(&local_ts, "iv", None, 12));
    assert_eq!(keys.peer_key, expand_label(&peer_ts, "key", None, 16));
    assert_eq!(keys.peer_iv, expand_label(&peer_ts, "iv", None, 12));
}

#[test]
fn handshake_keys_are_symmetric() {
    let shared = [0x42u8; 32];
    let hash = [0x07u8; 48];
    let bob = HandshakeKeys::derive_keys(&shared, &hash, true);
    let alice = HandshakeKeys::derive_keys(&shared, &hash, false);
    assert_eq!(bob.handshake_secret, alice.handshake_secret);
    assert_eq!(bob.local_key, alice.peer_key);
    assert_eq!(bob.local_iv, alice.peer_iv);
    assert_eq!(bob.peer_key, alice.local_key);
    assert_eq!(bob.peer_iv, alice.local_iv);
    assert_eq!(
        bob.local_handshake_traffic_secret,
        alice.peer_handshake_traffic_secret
    );
    assert_eq!(
        bob.peer_handshake_traffic_secret,
        alice.local_handshake_traffic_secret
    );
}

#[test]
fn application_keys_are_symmetric() {
    let shared = [0x42u8; 32];
    let hash = [0x07u8; 48];
    let hs = HandshakeKeys::derive_keys(&shared, &hash, true).handshake_secret;
    let bob = ApplicationKeys::derive_keys(&hs, &hash, true);
    let alice = ApplicationKeys::derive_keys(&hs, &hash, false);
    assert_eq!(bob.local_key, alice.peer_key);
    assert_eq!(bob.local_iv, alice.peer_iv);
    assert_eq!(bob.peer_key, alice.local_key);
    assert_eq!(bob.peer_iv, alice.local_iv);
}

#[test]
fn application_keys_match_raw_hkdf() {
    let shared = [0x99u8; 32];
    let hash = [0x31u8; 48];
    let hs = HandshakeKeys::derive_keys(&shared, &hash, false).handshake_secret;
    let keys = ApplicationKeys::derive_keys(&hs, &hash, false);

    let derived = expand_label(&hs, "derived", None, 48);
    let (master, _) = Hkdf::<Sha384>::extract(Some(&derived), b"");
    let local_ts = expand_label(&master, "application_i_am_alice", Some(&hash), 48);
    assert_eq!(keys.local_key, expand_label(&local_ts, "key", None, 16));
    assert_eq!(keys.local_iv, expand_label(&local_ts, "iv", None, 12));
}

#[test]
fn finished_mac_round_trip() {
    let ts = [0x5au8; 48];
    let hash = [0xa5u8; 48];
    let mac = compute_handshake_finished(&ts, &hash);
    assert_eq!(mac.len(), 48);
    assert!(verify_handshake_finished(&mac, &ts, &hash));
}

#[test]
fn finished_mac_rejects_any_flip() {
    let ts = [0x5au8; 48];
    let hash = [0xa5u8; 48];
    let mac = compute_handshake_finished(&ts, &hash);

    let mut bad_mac = mac.clone();
    bad_mac[17] ^= 0x04;
    assert!(!verify_handshake_finished(&bad_mac, &ts, &hash));

    let mut bad_ts = ts;
    bad_ts[0] ^= 0x01;
    assert!(!verify_handshake_finished(&mac, &bad_ts, &hash));

    let mut bad_hash = hash;
    bad_hash[47] ^= 0x80;
    assert!(!verify_handshake_finished(&mac, &ts, &bad_hash));
}

#[test]
fn finished_mac_matches_raw_hmac() {
    let ts = [0x13u8; 48];
    let hash = [0x37u8; 48];
    let finished_key = expand_label(&ts, "finished", None, 48);
    let mut mac = <hmac::Hmac<Sha384> as Mac>::new_from_slice(&finished_key).unwrap();
    mac.update(&hash);
    let expected = mac.finalize().into_bytes().to_vec();
    assert_eq!(compute_handshake_finished(&ts, &hash), expected);
}

#[test]
fn fingerprint_of_zero_key() {
    // HKDF-SHA384 with no salt over 32 zero bytes, expanded with an empty
    // info string to 16 bytes, rendered as upper-case hex.
    let public_key = [0u8; 32];
    let mut raw = [0u8; 16];
    Hkdf::<Sha384>::new(None, &public_key)
        .expand(&[], &mut raw)
        .unwrap();
    let expected = hex::encode(raw).to_uppercase();
    let fingerprint = generate_fingerprint(&public_key);
    assert_eq!(fingerprint, expected);
    // The pinned value: fingerprints must stay stable across versions.
    assert_eq!(fingerprint, "C53A272E2AA33E9568219E906277FCC1");
    assert_eq!(fingerprint.len(), 32);
    assert!(fingerprint
        .chars()
        .all(|c| c.is_ascii_digit() || ('A'..='F').contains(&c)));
}

#[test]
fn fingerprint_is_stable_and_key_dependent() {
    let a = generate_fingerprint(&[0u8; 32]);
    let b = generate_fingerprint(&[0u8; 32]);
    let c = generate_fingerprint(&[1u8; 32]);
    assert_eq!(a, b);
    assert_ne!(a, c);
}
