//! The handshake key schedule: traffic secrets, symmetric keys and
//! initialisation vectors for both sides of a session, the Finished MACs,
//! and the peer fingerprint.

use vstd::prelude::*;
use vstd::string::StringExecFns;
use vstd::utf8::*;
use crate::crypto::{
    HASH_OUTPUT_LEN, KEY_LEN, IV_LEN, MASTER_KEY_LEN, expand_of, extract_of, hmac_of,
    opt_slice_view, hkdf_extract_sha384, hkdf_expand_sha384, hmac_sha384, hmac_sha384_verify,
};
use crate::util::hex_upper_string;
use crate::util::hex_upper_of;

verus! {

/// The four big-endian bytes of a 32-bit integer.
pub open spec fn u32_be_bytes(n: u32) -> Seq<u8> {
    seq![
        ((n >> 24) & 0xff) as u8,
        ((n >> 16) & 0xff) as u8,
        ((n >> 8) & 0xff) as u8,
        (n & 0xff) as u8,
    ]
}

fn u32_to_be(n: u32) -> (r: Vec<u8>)
    ensures
        r@ == u32_be_bytes(n),
{
    proof {
        assert((n >> 24) & 0xff < 256 && (n >> 16) & 0xff < 256 && (n >> 8) & 0xff < 256 && n
            & 0xff < 256) by (bit_vector);
    }
    let mut out: Vec<u8> = Vec::new();
    out.push(((n >> 24) & 0xff) as u8);
    out.push(((n >> 16) & 0xff) as u8);
    out.push(((n >> 8) & 0xff) as u8);
    out.push((n & 0xff) as u8);
    proof {
        assert(out@ =~= u32_be_bytes(n));
    }
    out
}

/// The info string this library hands to HKDF-Expand: the label's byte
/// length as four big-endian bytes, the label, and, when a context is
/// present, the context's length and the context the same way. This framing
/// is part of the wire contract; it is deliberately not the TLS 1.3 one.
pub open spec fn expand_label_info(label_bytes: Seq<u8>, context: Option<Seq<u8>>) -> Seq<u8> {
    u32_be_bytes(label_bytes.len() as u32) + label_bytes + (match context {
        Some(c) => u32_be_bytes(c.len() as u32) + c,
        None => Seq::<u8>::empty(),
    })
}

/// The same info string, for a label given as text.
pub open spec fn label_info(label: Seq<char>, context: Option<Seq<u8>>) -> Seq<u8> {
    expand_label_info(encode_utf8(label), context)
}

/// A label this schedule feeds to HKDF-Expand: short plain ASCII.
pub open spec fn label_wf(label: Seq<char>) -> bool {
    is_ascii_chars(label) && label.len() <= 64
}

/// HKDF-Expand over the library's length-prefixed info framing.
fn hkdf_expand_label(prk: &[u8], label: &str, context: Option<&[u8]>, okm_len: usize) -> (r: Vec<
    u8,
>)
    requires
        prk@.len() == HASH_OUTPUT_LEN,
        okm_len <= 255 * HASH_OUTPUT_LEN,
        label_wf(label@),
        context matches Some(c) ==> c@.len() <= u32::MAX,
    ensures
        r@ == expand_of(prk@, label_info(label@, opt_slice_view(context)), okm_len as nat),
        r@.len() == okm_len,
{
    proof {
        is_ascii_chars_encode_utf8(label@);
    }
    let label_bytes = label.as_bytes();
    let mut info = u32_to_be(label_bytes.len() as u32);
    info.extend_from_slice(label_bytes);
    match context {
        Some(c) => {
            let mut clen = u32_to_be(c.len() as u32);
            info.append(&mut clen);
            info.extend_from_slice(c);
        },
        None => {},
    }
    proof {
        assert(info@ =~= label_info(label@, opt_slice_view(context)));
    }
    hkdf_expand_sha384(prk, info.as_slice(), okm_len)
}

/// The label the local side uses for its own traffic secret.
pub open spec fn local_label_of(handshake: bool, i_am_bob: bool) -> Seq<char> {
    if handshake {
        if i_am_bob {
            "handshake_i_am_bob"@
        } else {
            "handshake_i_am_alice"@
        }
    } else {
        if i_am_bob {
            "application_i_am_bob"@
        } else {
            "application_i_am_alice"@
        }
    }
}

/// The label the local side uses for the peer's traffic secret: the same
/// phase under the opposite role.
pub open spec fn peer_label_of(handshake: bool, i_am_bob: bool) -> Seq<char> {
    local_label_of(handshake, !i_am_bob)
}

/// The pair of expansion labels for one phase and one role: the local label
/// names the own role, the peer label the opposite one.
pub fn get_labels(handshake: bool, i_am_bob: bool) -> (r: (String, String))
    ensures
        r.0@ == local_label_of(handshake, i_am_bob),
        r.1@ == peer_label_of(handshake, i_am_bob),
        label_wf(r.0@),
        label_wf(r.1@),
{
    proof {
        reveal_strlit("handshake_i_am_bob");
        reveal_strlit("handshake_i_am_alice");
        reveal_strlit("application_i_am_bob");
        reveal_strlit("application_i_am_alice");
    }
    if handshake {
        if i_am_bob {
            (String::from_str("handshake_i_am_bob"), String::from_str("handshake_i_am_alice"))
        } else {
            (String::from_str("handshake_i_am_alice"), String::from_str("handshake_i_am_bob"))
        }
    } else {
        if i_am_bob {
            (String::from_str("application_i_am_bob"), String::from_str("application_i_am_alice"))
        } else {
            (String::from_str("application_i_am_alice"), String::from_str("application_i_am_bob"))
        }
    }
}

/// The handshake secret: HKDF-Extract of the shared secret with no salt.
pub open spec fn handshake_secret_of(shared: Seq<u8>) -> Seq<u8> {
    extract_of(None, shared)
}

/// A traffic secret: the 48-byte expansion of a pseudorandom key under a
/// role label with the transcript hash as context.
pub open spec fn traffic_secret_of(prk: Seq<u8>, label: Seq<char>, hash: Seq<u8>) -> Seq<u8> {
    expand_of(prk, label_info(label, Some(hash)), HASH_OUTPUT_LEN as nat)
}

/// The 16-byte symmetric key derived from a traffic secret.
pub open spec fn key_of(ts: Seq<u8>) -> Seq<u8> {
    expand_of(ts, label_info("key"@, None), KEY_LEN as nat)
}

/// The 12-byte initialisation vector derived from a traffic secret.
pub open spec fn iv_of(ts: Seq<u8>) -> Seq<u8> {
    expand_of(ts, label_info("iv"@, None), IV_LEN as nat)
}

/// The derived secret standing between the handshake and application phases.
pub open spec fn derived_secret_of(handshake_secret: Seq<u8>) -> Seq<u8> {
    expand_of(handshake_secret, label_info("derived"@, None), HASH_OUTPUT_LEN as nat)
}

/// The master secret: HKDF-Extract of nothing, salted with the derived
/// secret.
pub open spec fn master_secret_of(handshake_secret: Seq<u8>) -> Seq<u8> {
    extract_of(Some(derived_secret_of(handshake_secret)), Seq::<u8>::empty())
}

proof fn lemma_short_labels()
    ensures
        label_wf("key"@),
        label_wf("iv"@),
        label_wf("derived"@),
        label_wf("finished"@),
{
    reveal_strlit("key");
    reveal_strlit("iv");
    reveal_strlit("derived");
    reveal_strlit("finished");
}

/// Everything both sides of a fresh handshake need: per-direction traffic
/// secrets, keys and IVs, and the handshake secret the application phase
/// grows from.
pub struct HandshakeKeys {
    pub local_key: Vec<u8>,
    pub local_iv: Vec<u8>,
    pub local_handshake_traffic_secret: Vec<u8>,
    pub peer_key: Vec<u8>,
    pub peer_iv: Vec<u8>,
    pub peer_handshake_traffic_secret: Vec<u8>,
    pub handshake_secret: Vec<u8>,
}

impl HandshakeKeys {
    /// Derive the handshake-phase keys from the key-exchange output and the
    /// transcript hash, under this side's role.
    pub fn derive_keys(shared_secret: &[u8], handshake_hash: &[u8], i_am_bob: bool) -> (r:
        HandshakeKeys)
        requires
            shared_secret@.len() == MASTER_KEY_LEN,
            handshake_hash@.len() == HASH_OUTPUT_LEN,
        ensures
            r.handshake_secret@ == handshake_secret_of(shared_secret@),
            r.local_handshake_traffic_secret@ == traffic_secret_of(
                handshake_secret_of(shared_secret@),
                local_label_of(true, i_am_bob),
                handshake_hash@,
            ),
            r.peer_handshake_traffic_secret@ == traffic_secret_of(
                handshake_secret_of(shared_secret@),
                peer_label_of(true, i_am_bob),
                handshake_hash@,
            ),
            r.local_key@ == key_of(r.local_handshake_traffic_secret@),
            r.local_iv@ == iv_of(r.local_handshake_traffic_secret@),
            r.peer_key@ == key_of(r.peer_handshake_traffic_secret@),
            r.peer_iv@ == iv_of(r.peer_handshake_traffic_secret@),
            r.handshake_secret@.len() == HASH_OUTPUT_LEN,
            r.local_handshake_traffic_secret@.len() == HASH_OUTPUT_LEN,
            r.peer_handshake_traffic_secret@.len() == HASH_OUTPUT_LEN,
            r.local_key@.len() == KEY_LEN,
            r.local_iv@.len() == IV_LEN,
            r.peer_key@.len() == KEY_LEN,
            r.peer_iv@.len() == IV_LEN,
    {
        proof {
            lemma_short_labels();
        }
        let handshake_secret = hkdf_extract_sha384(None, shared_secret);
        let (local_label, peer_label) = get_labels(true, i_am_bob);

        let local_ts = hkdf_expand_label(
            handshake_secret.as_slice(),
            local_label.as_str(),
            Some(handshake_hash),
            HASH_OUTPUT_LEN,
        );
        let peer_ts = hkdf_expand_label(
            handshake_secret.as_slice(),
            peer_label.as_str(),
            Some(handshake_hash),
            HASH_OUTPUT_LEN,
        );
        let local_key = hkdf_expand_label(local_ts.as_slice(), "key", None, KEY_LEN);
        let local_iv = hkdf_expand_label(local_ts.as_slice(), "iv", None, IV_LEN);
        let peer_key = hkdf_expand_label(peer_ts.as_slice(), "key", None, KEY_LEN);
        let peer_iv = hkdf_expand_label(peer_ts.as_slice(), "iv", None, IV_LEN);

        HandshakeKeys {
            local_key,
            local_iv,
            local_handshake_traffic_secret: local_ts,
            peer_key,
            peer_iv,
            peer_handshake_traffic_secret: peer_ts,
            handshake_secret,
        }
    }
}

/// The symmetric material of the application phase, one key and IV for each
/// direction.
pub struct ApplicationKeys {
    pub local_key: Vec<u8>,
    pub local_iv: Vec<u8>,
    pub peer_key: Vec<u8>,
    pub peer_iv: Vec<u8>,
}

impl ApplicationKeys {
    /// Derive the application-phase keys from the handshake secret and the
    /// transcript hash, under this side's role.
    pub fn derive_keys(handshake_secret: &[u8], handshake_hash: &[u8], i_am_bob: bool) -> (r:
        ApplicationKeys)
        requires
            handshake_secret@.len() == HASH_OUTPUT_LEN,
            handshake_hash@.len() == HASH_OUTPUT_LEN,
        ensures
            r.local_key@ == key_of(
                traffic_secret_of(
                    master_secret_of(handshake_secret@),
                    local_label_of(false, i_am_bob),
                    handshake_hash@,
                ),
            ),
            r.local_iv@ == iv_of(
                traffic_secret_of(
                    master_secret_of(handshake_secret@),
                    local_label_of(false, i_am_bob),
                    handshake_hash@,
                ),
            ),
            r.peer_key@ == key_of(
                traffic_secret_of(
                    master_secret_of(handshake_secret@),
                    peer_label_of(false, i_am_bob),
                    handshake_hash@,
                ),
            ),
            r.peer_iv@ == iv_of(
                traffic_secret_of(
                    master_secret_of(handshake_secret@),
                    peer_label_of(false, i_am_bob),
                    handshake_hash@,
                ),
            ),
            r.local_key@.len() == KEY_LEN,
            r.local_iv@.len() == IV_LEN,
            r.peer_key@.len() == KEY_LEN,
            r.peer_iv@.len() == IV_LEN,
    {
        proof {
            lemma_short_labels();
        }
        let derived_secret = hkdf_expand_label(handshake_secret, "derived", None, HASH_OUTPUT_LEN);
        let empty_ikm: Vec<u8> = Vec::new();
        let master_secret = hkdf_extract_sha384(
            Some(derived_secret.as_slice()),
            empty_ikm.as_slice(),
        );

        let (local_label, peer_label) = get_labels(false, i_am_bob);

        let local_ts = hkdf_expand_label(
            master_secret.as_slice(),
            local_label.as_str(),
            Some(handshake_hash),
            HASH_OUTPUT_LEN,
        );
        let peer_ts = hkdf_expand_label(
            master_secret.as_slice(),
            peer_label.as_str(),
            Some(handshake_hash),
            HASH_OUTPUT_LEN,
        );
        let local_key = hkdf_expand_label(local_ts.as_slice(), "key", None, KEY_LEN);
        let local_iv = hkdf_expand_label(local_ts.as_slice(), "iv", None, IV_LEN);
        let peer_key = hkdf_expand_label(peer_ts.as_slice(), "key", None, KEY_LEN);
        let peer_iv = hkdf_expand_label(peer_ts.as_slice(), "iv", None, IV_LEN);

        ApplicationKeys { local_key, local_iv, peer_key, peer_iv }
    }
}

/// Both roles derive the same material: with one shared secret and one
/// transcript hash they agree on the handshake secret, and what one side
/// derives as its local traffic secret, key and IV under a role is exactly
/// what the other side derives as the peer's under the opposite role, in
/// both the handshake phase (over the handshake secret) and the application
/// phase (over the master secret).
pub proof fn lemma_key_schedule_symmetry(
    prk: Seq<u8>,
    hash: Seq<u8>,
    handshake: bool,
    i_am_bob: bool,
)
    ensures
        local_label_of(handshake, i_am_bob) == peer_label_of(handshake, !i_am_bob),
        peer_label_of(handshake, i_am_bob) == local_label_of(handshake, !i_am_bob),
        traffic_secret_of(prk, local_label_of(handshake, i_am_bob), hash) == traffic_secret_of(
            prk,
            peer_label_of(handshake, !i_am_bob),
            hash,
        ),
        key_of(traffic_secret_of(prk, local_label_of(handshake, i_am_bob), hash)) == key_of(
            traffic_secret_of(prk, peer_label_of(handshake, !i_am_bob), hash),
        ),
        iv_of(traffic_secret_of(prk, local_label_of(handshake, i_am_bob), hash)) == iv_of(
            traffic_secret_of(prk, peer_label_of(handshake, !i_am_bob), hash),
        ),
{
}

/// The key a Finished MAC is taken under: the 48-byte expansion of the
/// traffic secret under the label "finished" with no context.
pub open spec fn finished_key_of(ts: Seq<u8>) -> Seq<u8> {
    expand_of(ts, label_info("finished"@, None), HASH_OUTPUT_LEN as nat)
}

/// The Finished MAC itself: HMAC-SHA384 of the transcript hash under the
/// finished key.
pub open spec fn finished_mac_of(ts: Seq<u8>, hash: Seq<u8>) -> Seq<u8> {
    hmac_of(finished_key_of(ts), hash)
}

/// Whether a presented Finished MAC is the right one for a traffic secret
/// and a transcript hash.
pub open spec fn finished_mac_ok(mac: Seq<u8>, ts: Seq<u8>, hash: Seq<u8>) -> bool {
    mac == finished_mac_of(ts, hash)
}

/// Compute the local Finished MAC over the transcript hash.
pub fn compute_handshake_finished(
    local_handshake_traffic_secret: &[u8],
    handshake_hash: &[u8],
) -> (r: Vec<u8>)
    requires
        local_handshake_traffic_secret@.len() == HASH_OUTPUT_LEN,
    ensures
        r@ == finished_mac_of(local_handshake_traffic_secret@, handshake_hash@),
        r@.len() == HASH_OUTPUT_LEN,
{
    proof {
        lemma_short_labels();
    }
    let finished_key = hkdf_expand_label(
        local_handshake_traffic_secret,
        "finished",
        None,
        HASH_OUTPUT_LEN,
    );
    hmac_sha384(finished_key.as_slice(), handshake_hash)
}

/// Check the peer's Finished MAC over the transcript hash, in constant time.
pub fn verify_handshake_finished(
    peer_handshake_finished: &[u8],
    peer_handshake_traffic_secret: &[u8],
    handshake_hash: &[u8],
) -> (r: bool)
    requires
        peer_handshake_traffic_secret@.len() == HASH_OUTPUT_LEN,
    ensures
        r == finished_mac_ok(
            peer_handshake_finished@,
            peer_handshake_traffic_secret@,
            handshake_hash@,
        ),
{
    proof {
        lemma_short_labels();
    }
    let peer_finished_key = hkdf_expand_label(
        peer_handshake_traffic_secret,
        "finished",
        None,
        HASH_OUTPUT_LEN,
    );
    hmac_sha384_verify(peer_finished_key.as_slice(), handshake_hash, peer_handshake_finished)
}

/// A Finished MAC always verifies against the traffic secret and transcript
/// hash it was computed from.
pub proof fn lemma_finished_mac_round_trip(ts: Seq<u8>, hash: Seq<u8>)
    ensures
        finished_mac_ok(finished_mac_of(ts, hash), ts, hash),
{
}

/// The 16 raw fingerprint bytes of a public key: HKDF-SHA384 with no salt
/// and an empty info string.
pub open spec fn fingerprint_bytes_of(public_key: Seq<u8>) -> Seq<u8> {
    expand_of(extract_of(None, public_key), Seq::<u8>::empty(), 16)
}

/// The human-comparable fingerprint of a peer's public key: 32 upper-case
/// hexadecimal characters.
pub fn generate_fingerprint(public_key: &[u8]) -> (r: String)
    ensures
        r@ == hex_upper_of(fingerprint_bytes_of(public_key@)),
{
    let prk = hkdf_extract_sha384(None, public_key);
    let empty_info: Vec<u8> = Vec::new();
    let raw = hkdf_expand_sha384(prk.as_slice(), empty_info.as_slice(), 16);
    hex_upper_string(raw.as_slice())
}

} // verus!
