//! Cryptographic primitives: AEAD sealing of stored fields, the scrypt-based
//! wrapping of the master key, and the random sources, together with the
//! trusted wrappers around the outside crates that compute them.

use vstd::prelude::*;
use aes_gcm_siv::Aes256GcmSiv;
use aes_gcm_siv::aead::Aead;
use aes_gcm_siv::aead::KeyInit;
use aes_gcm_siv::Nonce;
use rand::RngCore;
use zeroize::Zeroize;

verus! {

/// Output length of SHA-384, and so of HKDF-SHA384 and HMAC-SHA384.
pub const HASH_OUTPUT_LEN: usize = 48;
/// Length of a derived symmetric traffic key.
pub const KEY_LEN: usize = 16;
/// Length of the nonce put in front of every sealed value.
pub const IV_LEN: usize = 12;
/// Length of the authentication tag appended to every sealed value.
pub const AES_TAG_LEN: usize = 16;
/// Length of the scrypt salt stored beside the wrapped master key.
pub const SALT_LEN: usize = 32;
/// Length of the scrypt-derived password hash.
pub const PASSWORD_HASH_LEN: usize = 32;
/// Length of the per-identity master key.
pub const MASTER_KEY_LEN: usize = 32;

/// Largest plaintext AES-GCM-SIV accepts (2^36 bytes, RFC 8452).
pub const AEAD_PLAINTEXT_MAX: u64 = 0x1000000000;

#[derive(Debug, Clone, Copy, PartialEq, Eq, Structural)]
pub enum CryptoError {
    DecryptionFailed,
    InvalidLength,
}

/// What HKDF-SHA384-Extract returns for a salt and input key material.
pub uninterp spec fn extract_of(salt: Option<Seq<u8>>, ikm: Seq<u8>) -> Seq<u8>;

/// What HKDF-SHA384-Expand returns for a pseudorandom key, an info string and
/// an output length.
pub uninterp spec fn expand_of(prk: Seq<u8>, info: Seq<u8>, len: nat) -> Seq<u8>;

/// What HMAC-SHA384 returns for a key and a message.
pub uninterp spec fn hmac_of(key: Seq<u8>, msg: Seq<u8>) -> Seq<u8>;

/// What scrypt returns for a password and a salt at this library's fixed cost
/// parameters (log2(N) = 16, r = 8, p = 1, 32-byte output).
pub uninterp spec fn scrypt_of(password: Seq<u8>, salt: Seq<u8>) -> Seq<u8>;

/// What AES-256-GCM-SIV encryption returns: ciphertext with the 16-byte tag
/// appended, for a 32-byte key, a 12-byte nonce and a plaintext.
pub uninterp spec fn seal_of(key: Seq<u8>, nonce: Seq<u8>, msg: Seq<u8>) -> Seq<u8>;

/// What AES-256-GCM-SIV decryption returns: the plaintext when the tag
/// verifies, and nothing otherwise.
pub uninterp spec fn open_of(key: Seq<u8>, nonce: Seq<u8>, ct: Seq<u8>) -> Option<Seq<u8>>;

pub open spec fn opt_slice_view(o: Option<&[u8]>) -> Option<Seq<u8>> {
    match o {
        Some(s) => Some(s@),
        None => None,
    }
}

/// Relies on `hkdf::Hkdf::<Sha384>::extract`: the HKDF-Extract operation of
/// RFC 5869 with SHA-384, a deterministic 48-byte pseudorandom key.
#[verifier::external_body]
pub(crate) fn hkdf_extract_sha384(salt: Option<&[u8]>, ikm: &[u8]) -> (r: Vec<u8>)
    ensures
        r@ == extract_of(opt_slice_view(salt), ikm@),
        r@.len() == HASH_OUTPUT_LEN,
{
    let (prk, _) = hkdf::Hkdf::<sha2::Sha384>::extract(salt, ikm);
    prk.to_vec()
}

/// Relies on `hkdf::Hkdf::<Sha384>::from_prk` and `expand`: the HKDF-Expand
/// operation of RFC 5869 with SHA-384, deterministic in the pseudorandom key,
/// the info string and the output length. `from_prk` accepts any key of at
/// least 48 bytes and `expand` any output of at most 255 * 48 bytes.
#[verifier::external_body]
pub(crate) fn hkdf_expand_sha384(prk: &[u8], info: &[u8], okm_len: usize) -> (r: Vec<u8>)
    requires
        prk@.len() == HASH_OUTPUT_LEN,
        okm_len <= 255 * HASH_OUTPUT_LEN,
    ensures
        r@ == expand_of(prk@, info@, okm_len as nat),
        r@.len() == okm_len,
{
    let hk = hkdf::Hkdf::<sha2::Sha384>::from_prk(prk).unwrap();
    let mut okm = vec![0u8; okm_len];
    hk.expand(info, &mut okm).unwrap();
    okm
}

/// Relies on `hmac::Hmac::<Sha384>`: HMAC (RFC 2104) over SHA-384, a
/// deterministic 48-byte tag; `new_from_slice` accepts keys of any length.
#[verifier::external_body]
pub(crate) fn hmac_sha384(key: &[u8], msg: &[u8]) -> (r: Vec<u8>)
    ensures
        r@ == hmac_of(key@, msg@),
        r@.len() == HASH_OUTPUT_LEN,
{
    let mut mac = <hmac::Hmac<sha2::Sha384> as hmac::Mac>::new_from_slice(key).unwrap();
    hmac::Mac::update(&mut mac, msg);
    hmac::Mac::finalize(mac).into_bytes().to_vec()
}

/// Relies on `hmac::Mac::verify_slice`: a constant-time comparison of the
/// computed HMAC-SHA384 tag against the given one, succeeding exactly when
/// they are equal.
#[verifier::external_body]
pub(crate) fn hmac_sha384_verify(key: &[u8], msg: &[u8], tag: &[u8]) -> (r: bool)
    ensures
        r == (tag@ == hmac_of(key@, msg@)),
{
    let mut mac = <hmac::Hmac<sha2::Sha384> as hmac::Mac>::new_from_slice(key).unwrap();
    hmac::Mac::update(&mut mac, msg);
    hmac::Mac::verify_slice(mac, tag).is_ok()
}

/// Relies on `scrypt::scrypt` with `Params::new(16, 8, 1, 32)`: the scrypt
/// key-derivation function at this library's fixed cost parameters, a
/// deterministic 32-byte key from a password and a salt of any length.
#[verifier::external_body]
pub(crate) fn scrypt_hash(password: &[u8], salt: &[u8]) -> (r: Vec<u8>)
    ensures
        r@ == scrypt_of(password@, salt@),
        r@.len() == PASSWORD_HASH_LEN,
{
    let params = scrypt::Params::new(16, 8, 1, PASSWORD_HASH_LEN).unwrap();
    let mut out = vec![0u8; PASSWORD_HASH_LEN];
    scrypt::scrypt(password, salt, &params, &mut out).unwrap();
    out
}

/// Relies on `aes_gcm_siv::Aes256GcmSiv::encrypt` (RFC 8452): returns the
/// ciphertext with the 16-byte tag appended, and decrypting that result under
/// the same key and nonce yields the plaintext again.
#[verifier::external_body]
pub(crate) fn aead_seal(key: &[u8], nonce: &[u8], msg: &[u8]) -> (r: Vec<u8>)
    requires
        key@.len() == MASTER_KEY_LEN,
        nonce@.len() == IV_LEN,
        msg@.len() <= AEAD_PLAINTEXT_MAX,
    ensures
        r@ == seal_of(key@, nonce@, msg@),
        r@.len() == msg@.len() + AES_TAG_LEN,
        open_of(key@, nonce@, r@) == Some(msg@),
{
    let cipher = Aes256GcmSiv::new_from_slice(key).unwrap();
    cipher.encrypt(Nonce::from_slice(nonce), msg).unwrap()
}

/// Relies on `aes_gcm_siv::Aes256GcmSiv::decrypt` (RFC 8452): authenticated
/// decryption, which strips the 16-byte tag and fails on any input whose tag
/// does not verify, in particular on any input shorter than the tag.
#[verifier::external_body]
pub(crate) fn aead_open(key: &[u8], nonce: &[u8], ct: &[u8]) -> (r: Option<Vec<u8>>)
    requires
        key@.len() == MASTER_KEY_LEN,
        nonce@.len() == IV_LEN,
    ensures
        (r is Some) == (open_of(key@, nonce@, ct@) is Some),
        r matches Some(m) ==> open_of(key@, nonce@, ct@) == Some(m@),
        r matches Some(m) ==> m@.len() + AES_TAG_LEN == ct@.len(),
        ct@.len() < AES_TAG_LEN ==> r is None,
{
    let cipher = Aes256GcmSiv::new_from_slice(key).unwrap();
    cipher.decrypt(Nonce::from_slice(nonce), ct).ok()
}

/// Relies on `rand::rngs::OsRng::fill_bytes`: fills the buffer from the
/// operating system's cryptographically secure random source.
#[verifier::external_body]
pub(crate) fn random_bytes(len: usize) -> (r: Vec<u8>)
    ensures
        r@.len() == len,
{
    let mut buf = vec![0u8; len];
    rand::rngs::OsRng.fill_bytes(&mut buf);
    buf
}

/// Relies on `zeroize::Zeroize for [u8]`: overwrites every byte of the buffer
/// with zero, keeping its length.
#[verifier::external_body]
pub(crate) fn wipe_bytes(buf: &mut Vec<u8>)
    ensures
        final(buf)@.len() == old(buf)@.len(),
        forall|i: int| 0 <= i < final(buf)@.len() ==> final(buf)@[i] == 0u8,
{
    buf.as_mut_slice().zeroize();
}

/// Whether 64 bytes parse as an Ed25519 keypair: what
/// `ed25519_dalek::SigningKey::from_keypair_bytes` accepts.
pub uninterp spec fn keypair_parses(keypair: Seq<u8>) -> bool;

/// What Ed25519 signing returns for a 64-byte keypair encoding and a
/// message.
pub uninterp spec fn sign_of(keypair: Seq<u8>, msg: Seq<u8>) -> Seq<u8>;

/// Relies on `ed25519_dalek::SigningKey::generate` and `to_keypair_bytes`: a
/// fresh signing key from the secure random source, encoded as the 32 secret
/// bytes followed by the matching 32 public bytes; every such encoding is
/// accepted back by `from_keypair_bytes`.
#[verifier::external_body]
pub(crate) fn generate_keypair() -> (r: Vec<u8>)
    ensures
        r@.len() == 64,
        keypair_parses(r@),
{
    let signing_key = ed25519_dalek::SigningKey::generate(&mut rand::rngs::OsRng);
    signing_key.to_keypair_bytes().to_vec()
}

/// Relies on `ed25519_dalek::SigningKey::from_keypair_bytes` and
/// `Signer::sign`: deterministic Ed25519 (RFC 8032) signing, a 64-byte
/// signature, possible exactly when the 64 keypair bytes parse.
#[verifier::external_body]
pub(crate) fn sign_with_keypair(keypair: &[u8], msg: &[u8]) -> (r: Option<Vec<u8>>)
    ensures
        (r is Some) == (keypair@.len() == 64 && keypair_parses(keypair@)),
        r matches Some(s) ==> s@ == sign_of(keypair@, msg@) && s@.len() == 64,
{
    let bytes: [u8; 64] = match keypair.try_into() {
        Ok(b) => b,
        Err(_) => {
            return None;
        },
    };
    match ed25519_dalek::SigningKey::from_keypair_bytes(&bytes) {
        Ok(signing_key) => Some(ed25519_dalek::Signer::sign(&signing_key, msg).to_bytes().to_vec()),
        Err(_) => None,
    }
}

/// Relies on `uuid::Uuid::new_v4` and `as_bytes`: a fresh random version-4
/// UUID as its 16 raw bytes, with the version and variant bits of RFC 4122.
#[verifier::external_body]
pub(crate) fn generate_uuid() -> (r: Vec<u8>)
    ensures
        r@.len() == 16,
        r@[6] >> 4 == 4,
        r@[8] >> 6 == 2,
{
    uuid::Uuid::new_v4().as_bytes().to_vec()
}

/// A fresh 32-byte master key from the secure random source.
pub fn generate_master_key() -> (r: Vec<u8>)
    ensures
        r@.len() == MASTER_KEY_LEN,
{
    random_bytes(MASTER_KEY_LEN)
}

/// What decrypting a stored field yields: the field must carry a 12-byte
/// nonce in front and a 16-byte tag behind the ciphertext, and the key must
/// be a 32-byte master key.
pub open spec fn decrypt_spec(data: Seq<u8>, key: Seq<u8>) -> Result<Seq<u8>, CryptoError> {
    if key.len() != MASTER_KEY_LEN || data.len() < IV_LEN + AES_TAG_LEN {
        Err(CryptoError::InvalidLength)
    } else {
        match open_of(key, data.subrange(0, IV_LEN as int), data.skip(IV_LEN as int)) {
            Some(m) => Ok(m),
            None => Err(CryptoError::DecryptionFailed),
        }
    }
}

/// Seal one value under the master key: a fresh random 12-byte nonce, then
/// the AES-256-GCM-SIV ciphertext and tag. The result decrypts back to the
/// input under the same key.
pub fn encrypt_data(data: &[u8], master_key: &[u8]) -> (r: Result<Vec<u8>, CryptoError>)
    requires
        data@.len() <= AEAD_PLAINTEXT_MAX,
    ensures
        (r is Ok) == (master_key@.len() == MASTER_KEY_LEN),
        r matches Err(e) ==> e == CryptoError::InvalidLength,
        r matches Ok(c) ==> {
            &&& c@.len() == data@.len() + IV_LEN + AES_TAG_LEN
            &&& c@.skip(IV_LEN as int) == seal_of(master_key@, c@.subrange(0, IV_LEN as int), data@)
            &&& decrypt_spec(c@, master_key@) == Ok::<Seq<u8>, CryptoError>(data@)
        },
{
    if master_key.len() != MASTER_KEY_LEN {
        return Err(CryptoError::InvalidLength);
    }
    let mut out = random_bytes(IV_LEN);
    let mut sealed = aead_seal(master_key, out.as_slice(), data);
    let ghost iv: Seq<u8> = out@;
    let ghost ct: Seq<u8> = sealed@;
    out.append(&mut sealed);
    proof {
        assert(out@.subrange(0, IV_LEN as int) =~= iv);
        assert(out@.skip(IV_LEN as int) =~= ct);
    }
    Ok(out)
}

/// Open one stored field under the master key. Fails with `InvalidLength`
/// when the key or the field cannot have the sealed layout at all, and with
/// `DecryptionFailed` when the tag does not verify.
pub fn decrypt_data(data: &[u8], master_key: &[u8]) -> (r: Result<Vec<u8>, CryptoError>)
    ensures
        (r is Ok) == (decrypt_spec(data@, master_key@) is Ok),
        r matches Ok(m) ==> decrypt_spec(data@, master_key@) == Ok::<Seq<u8>, CryptoError>(m@),
        r matches Err(e) ==> decrypt_spec(data@, master_key@) == Err::<Seq<u8>, CryptoError>(e),
{
    if master_key.len() != MASTER_KEY_LEN || data.len() < IV_LEN + AES_TAG_LEN {
        return Err(CryptoError::InvalidLength);
    }
    let iv = &data[0..IV_LEN];
    let ct = &data[IV_LEN..data.len()];
    match aead_open(master_key, iv, ct) {
        Some(m) => Ok(m),
        None => Err(CryptoError::DecryptionFailed),
    }
}

/// What unwrapping a wrapped master key yields: scrypt-derive the password
/// hash from the salt, then open the 60-byte nonce-ciphertext-tag blob.
pub open spec fn unwrap_spec(blob: Seq<u8>, password: Seq<u8>, salt: Seq<u8>) -> Result<
    Seq<u8>,
    CryptoError,
> {
    if blob.len() != IV_LEN + MASTER_KEY_LEN + AES_TAG_LEN || salt.len() != SALT_LEN {
        Err(CryptoError::InvalidLength)
    } else {
        match open_of(
            scrypt_of(password, salt),
            blob.subrange(0, IV_LEN as int),
            blob.skip(IV_LEN as int),
        ) {
            Some(mk) => {
                if mk.len() == MASTER_KEY_LEN {
                    Ok(mk)
                } else {
                    Err(CryptoError::InvalidLength)
                }
            },
            None => Err(CryptoError::DecryptionFailed),
        }
    }
}

/// Wrap the master key under a password: sample a fresh 32-byte salt, derive
/// the password hash with scrypt, and seal the key as a 60-byte blob of
/// nonce, ciphertext and tag. Both the derived hash and the consumed key
/// buffer are wiped before returning. Unwrapping the blob with the same
/// password and the returned salt yields the key again.
pub fn encrypt_master_key(master_key: Vec<u8>, password: &[u8]) -> (r: (Vec<u8>, Vec<u8>))
    requires
        master_key@.len() == MASTER_KEY_LEN,
    ensures
        r.0@.len() == SALT_LEN,
        r.1@.len() == IV_LEN + MASTER_KEY_LEN + AES_TAG_LEN,
        unwrap_spec(r.1@, password@, r.0@) == Ok::<Seq<u8>, CryptoError>(master_key@),
{
    let salt = random_bytes(SALT_LEN);
    let mut password_hash = scrypt_hash(password, salt.as_slice());
    let mut blob = random_bytes(IV_LEN);
    let mut sealed = aead_seal(password_hash.as_slice(), blob.as_slice(), master_key.as_slice());
    let ghost iv: Seq<u8> = blob@;
    let ghost ct: Seq<u8> = sealed@;
    blob.append(&mut sealed);
    wipe_bytes(&mut password_hash);
    let mut consumed = master_key;
    wipe_bytes(&mut consumed);
    proof {
        assert(blob@.subrange(0, IV_LEN as int) =~= iv);
        assert(blob@.skip(IV_LEN as int) =~= ct);
    }
    (salt, blob)
}

/// Unwrap a wrapped master key: scrypt-derive the password hash from the
/// salt and open the blob. A failing tag means a wrong password
/// (`DecryptionFailed`); a blob or salt of the wrong size means corruption
/// (`InvalidLength`). The derived hash is wiped before returning.
pub fn decrypt_master_key(encrypted_master_key: &[u8], password: &[u8], salt: &[u8]) -> (r: Result<
    Vec<u8>,
    CryptoError,
>)
    ensures
        (r is Ok) == (unwrap_spec(encrypted_master_key@, password@, salt@) is Ok),
        r matches Ok(mk) ==> unwrap_spec(encrypted_master_key@, password@, salt@) == Ok::<
            Seq<u8>,
            CryptoError,
        >(mk@),
        r matches Err(e) ==> unwrap_spec(encrypted_master_key@, password@, salt@) == Err::<
            Seq<u8>,
            CryptoError,
        >(e),
        r matches Ok(mk) ==> mk@.len() == MASTER_KEY_LEN,
{
    if encrypted_master_key.len() != IV_LEN + MASTER_KEY_LEN + AES_TAG_LEN
        || salt.len() != SALT_LEN {
        return Err(CryptoError::InvalidLength);
    }
    let mut password_hash = scrypt_hash(password, salt);
    let iv = &encrypted_master_key[0..IV_LEN];
    let ct = &encrypted_master_key[IV_LEN..encrypted_master_key.len()];
    let opened = aead_open(password_hash.as_slice(), iv, ct);
    wipe_bytes(&mut password_hash);
    match opened {
        Some(mk) => {
            if mk.len() == MASTER_KEY_LEN {
                Ok(mk)
            } else {
                Err(CryptoError::InvalidLength)
            }
        },
        None => Err(CryptoError::DecryptionFailed),
    }
}

} // verus!
