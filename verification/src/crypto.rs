//! Key agreement, key derivation, sealing and digests.
//!
//! Every secret, key, point and nonce is held as plain bytes. The functions
//! here hand those bytes to the cryptographic crates and say of the results
//! only what those crates show; what a result is on given bytes has a name
//! (`p256_public`, `xchacha_seal`, ...) and no definition.

use vstd::prelude::*;

use chacha20poly1305::aead::Aead;
use chacha20poly1305::{AeadCore, KeyInit, XChaCha20Poly1305, XNonce};
use p256::ecdh::SharedSecret;
use p256::{FieldBytes, PublicKey, SecretKey};
use rand::rngs::OsRng;
use sha2::{Digest, Sha256};

verus! {

/// Bytes of a scalar, of a shared secret and of a sealing key.
pub const KEY_LEN: usize = 32;

/// Bytes of an `XChaCha20Poly1305` nonce.
pub const NONCE_LEN: usize = 24;

/// Bytes that sealing adds to a text.
pub const TAG_LEN: usize = 16;

/// Bytes of an uncompressed point in SEC1 form.
pub const POINT_LEN: usize = 65;

/// Longest text that one sealing covers: the cipher's block counter has 32 bits
/// and its first block is taken by the authentication key.
pub const MAX_SEALED_LEN: u64 = 274_877_906_816;

/// The SHA-256 digest of `bytes`.
pub uninterp spec fn sha256(bytes: Seq<u8>) -> Seq<u8>;

/// The uncompressed SEC1 point of the P-256 public key of a secret scalar;
/// `None` where the bytes are no secret scalar.
pub uninterp spec fn p256_public(scalar: Seq<u8>) -> Option<Seq<u8>>;

/// Whether the bytes are the SEC1 form of a P-256 public key.
pub uninterp spec fn p256_point(bytes: Seq<u8>) -> bool;

/// The Diffie-Hellman secret of a scalar and a public point on P-256.
pub uninterp spec fn p256_agreement(scalar: Seq<u8>, point: Seq<u8>) -> Seq<u8>;

/// 32 bytes of HKDF-SHA-256 from a shared secret, with no salt and no info.
pub uninterp spec fn hkdf_key(shared: Seq<u8>) -> Seq<u8>;

/// `text` sealed under a key and a nonce, the tag at its end.
pub uninterp spec fn xchacha_seal(key: Seq<u8>, nonce: Seq<u8>, text: Seq<u8>) -> Seq<u8>;

/// The text under a seal; `None` where the tag does not match.
pub uninterp spec fn xchacha_open(key: Seq<u8>, nonce: Seq<u8>, sealed: Seq<u8>) -> Option<Seq<u8>>;

/// The text that a named result holds, by its view.
pub open spec fn opt_view(o: Option<Vec<u8>>) -> Option<Seq<u8>> {
    match o {
        Some(v) => Some(v@),
        None => None,
    }
}

/// `sha2::Sha256` over all of `bytes`.
///
/// Trusted: the digest is a function of the bytes and is 32 bytes long.
#[verifier::external_body]
pub(crate) fn digest(bytes: &[u8]) -> (sum: Vec<u8>)
    ensures
        sum@ == sha256(bytes@),
        sum@.len() == KEY_LEN,
{
    let mut hasher = Sha256::new();
    hasher.update(bytes);
    hasher.finalize().to_vec()
}

/// `p256::SecretKey::random` with the operating system's generator, as the
/// scalar's 32 bytes.
///
/// Trusted: the scalar is a valid secret, so it has a public point. Which one
/// it is rests on chance and is left unsaid.
#[verifier::external_body]
pub(crate) fn random_scalar() -> (scalar: Vec<u8>)
    ensures
        scalar@.len() == KEY_LEN,
        p256_public(scalar@) is Some,
{
    SecretKey::random(&mut OsRng).to_bytes().to_vec()
}

/// `p256::SecretKey::public_key` and `to_sec1_bytes` for a scalar in bytes.
///
/// Trusted: the point is a function of the scalar. It is uncompressed, hence
/// 65 bytes, and reads back as a public key.
#[verifier::external_body]
pub(crate) fn public_point(scalar: &[u8]) -> (point: Option<Vec<u8>>)
    ensures
        opt_view(point) == p256_public(scalar@),
        point matches Some(p) ==> p@.len() == POINT_LEN && p256_point(p@),
{
    let secret = SecretKey::from_slice(scalar).ok()?;
    Some(secret.public_key().to_sec1_bytes().to_vec())
}

/// Whether `p256::PublicKey::from_sec1_bytes` takes the bytes.
///
/// Trusted: the verdict is a function of the bytes.
#[verifier::external_body]
pub(crate) fn is_point(bytes: &[u8]) -> (ok: bool)
    ensures
        ok == p256_point(bytes@),
{
    PublicKey::from_sec1_bytes(bytes).is_ok()
}

/// `p256::ecdh::diffie_hellman` of a secret scalar and a public point.
///
/// Trusted: the secret is a function of the two, 32 bytes long, and the owner
/// of the point's scalar computes the same secret from the public point of
/// this one.
#[verifier::external_body]
pub(crate) fn agree(scalar: &[u8], point: &[u8]) -> (shared: Vec<u8>)
    requires
        p256_public(scalar@) is Some,
        p256_point(point@),
    ensures
        shared@ == p256_agreement(scalar@, point@),
        shared@.len() == KEY_LEN,
        forall|other: Seq<u8>| #[trigger]
            p256_public(other) == Some(point@) ==> shared@ == p256_agreement(
                other,
                p256_public(scalar@)->0,
            ),
{
    let secret = SecretKey::from_slice(scalar).unwrap();
    let public = PublicKey::from_sec1_bytes(point).unwrap();
    let shared = p256::ecdh::diffie_hellman(secret.to_nonzero_scalar(), public.as_affine());
    shared.raw_secret_bytes().to_vec()
}

/// `SharedSecret::extract::<Sha256>` without salt, expanded without info to 32
/// bytes.
///
/// Trusted: the key is a function of the shared secret and is 32 bytes long.
#[verifier::external_body]
pub(crate) fn derive_key(shared: &[u8]) -> (key: Vec<u8>)
    requires
        shared@.len() == KEY_LEN,
    ensures
        key@ == hkdf_key(shared@),
        key@.len() == KEY_LEN,
{
    let secret = SharedSecret::from(FieldBytes::clone_from_slice(shared));
    let mut key = vec![0u8; KEY_LEN];
    let hkdf = secret.extract::<Sha256>(None);
    hkdf.expand(&[], &mut key).expect("32 bytes are within HKDF's output");
    key
}

/// `XChaCha20Poly1305::generate_nonce` with the operating system's generator.
///
/// Trusted: a nonce is 24 bytes long. Which bytes they are rests on chance and
/// is left unsaid.
#[verifier::external_body]
pub(crate) fn random_nonce() -> (nonce: Vec<u8>)
    ensures
        nonce@.len() == NONCE_LEN,
{
    XChaCha20Poly1305::generate_nonce(&mut OsRng).to_vec()
}

/// `XChaCha20Poly1305::encrypt`.
///
/// Trusted: the sealed text is a function of key, nonce and text, 16 bytes
/// longer than the text, and opens to the text under the same key and nonce.
#[verifier::external_body]
pub(crate) fn seal(key: &[u8], nonce: &[u8], text: &[u8]) -> (sealed: Vec<u8>)
    requires
        key@.len() == KEY_LEN,
        nonce@.len() == NONCE_LEN,
        text@.len() <= MAX_SEALED_LEN,
    ensures
        sealed@ == xchacha_seal(key@, nonce@, text@),
        sealed@.len() == text@.len() + TAG_LEN,
        xchacha_open(key@, nonce@, sealed@) == Some(text@),
{
    let cipher = XChaCha20Poly1305::new_from_slice(key).expect("a key of 32 bytes");
    cipher.encrypt(XNonce::from_slice(nonce), text).expect("a text within the block counter")
}

/// `XChaCha20Poly1305::decrypt`.
///
/// Trusted: the outcome is a function of key, nonce and sealed text, and a
/// text that opens is 16 bytes shorter than its seal.
#[verifier::external_body]
pub(crate) fn open_sealed(key: &[u8], nonce: &[u8], sealed: &[u8]) -> (text: Option<Vec<u8>>)
    requires
        key@.len() == KEY_LEN,
        nonce@.len() == NONCE_LEN,
        sealed@.len() <= MAX_SEALED_LEN,
    ensures
        opt_view(text) == xchacha_open(key@, nonce@, sealed@),
        text matches Some(t) ==> t@.len() + TAG_LEN == sealed@.len(),
{
    let cipher = XChaCha20Poly1305::new_from_slice(key).expect("a key of 32 bytes");
    cipher.decrypt(XNonce::from_slice(nonce), sealed).ok()
}

} // verus!
