//! The cryptographic primitives and the text encoding of keys, as other
//! crates provide them. What is claimed of each is stated here and nowhere
//! else; the rest of the library is proved from it.

use aes_gcm::aead::{Aead, Payload};
use aes_gcm::{Aes256Gcm, KeyInit, Nonce};
use base64::engine::general_purpose::STANDARD;
use base64::Engine;
use rand::RngCore;
use sha2::{Digest, Sha256};
use vstd::prelude::*;
use x25519_dalek::{PublicKey, StaticSecret};

verus! {

/// The longest message, and the longest associated data, that AES-GCM takes.
pub const GCM_MAX: u64 = 0x10_0000_0000;

/// What AES-256-GCM makes of a message: the ciphertext with its tag.
pub uninterp spec fn gcm_sealed(key: Seq<u8>, nonce: Seq<u8>, msg: Seq<u8>, aad: Seq<u8>) -> Seq<u8>;

/// What AES-256-GCM makes of a ciphertext with its tag: the message, where
/// the tag is that of the ciphertext and the associated data.
pub uninterp spec fn gcm_opened(
    key: Seq<u8>,
    nonce: Seq<u8>,
    sealed: Seq<u8>,
    aad: Seq<u8>,
) -> Option<Seq<u8>>;

/// The base64 text of bytes, with padding.
pub uninterp spec fn base64(bytes: Seq<u8>) -> Seq<char>;

/// The bytes that a base64 text stands for, where it is one.
pub uninterp spec fn unbase64(text: Seq<char>) -> Option<Seq<u8>>;

/// The SHA-256 digest of bytes.
pub uninterp spec fn sha256_of(data: Seq<u8>) -> Seq<u8>;

/// The X25519 shared secret of a secret key and a public key.
pub uninterp spec fn x25519(secret: Seq<u8>, public: Seq<u8>) -> Seq<u8>;

/// The X25519 public key of a secret key.
pub uninterp spec fn x25519_public(secret: Seq<u8>) -> Seq<u8>;

/// The length of the base64 text of `n` bytes.
pub open spec fn base64_len(n: nat) -> nat {
    4 * ((n + 2) / 3)
}

/// The characters of base64 texts.
pub open spec fn base64_char(c: char) -> bool {
    ||| 'A' <= c <= 'Z'
    ||| 'a' <= c <= 'z'
    ||| '0' <= c <= '9'
    ||| c == '+'
    ||| c == '/'
    ||| c == '='
}

/// The bytes in an optional vector.
pub open spec fn bytes_in(v: Option<Vec<u8>>) -> Option<Seq<u8>> {
    match v {
        Some(b) => Some(b@),
        None => None,
    }
}

/// Wraps `Aead::encrypt` of `aes_gcm::Aes256Gcm`. It succeeds exactly on
/// messages and associated data of up to `GCM_MAX` bytes; the result is 16
/// bytes longer than the message, and decrypting it gives the message back.
#[verifier::external_body]
pub(crate) fn aes_gcm_seal(key: &[u8; 32], nonce: &[u8; 12], msg: &[u8], aad: &[u8]) -> (r: Option<
    Vec<u8>,
>)
    requires
        msg@.len() + 16 <= isize::MAX,
    ensures
        (r is Some) == (msg@.len() <= GCM_MAX && aad@.len() <= GCM_MAX),
        r matches Some(c) ==> c@ == gcm_sealed(key@, nonce@, msg@, aad@),
        r matches Some(c) ==> c@.len() == msg@.len() + 16,
        r matches Some(c) ==> gcm_opened(key@, nonce@, c@, aad@) == Some(msg@),
{
    let cipher = Aes256Gcm::new_from_slice(key).ok()?;
    cipher.encrypt(Nonce::from_slice(nonce), Payload { msg, aad }).ok()
}

/// Wraps `Aead::decrypt` of `aes_gcm::Aes256Gcm`.
#[verifier::external_body]
pub(crate) fn aes_gcm_open(key: &[u8; 32], nonce: &[u8; 12], sealed: &[u8], aad: &[u8]) -> (r: Option<
    Vec<u8>,
>)
    ensures
        bytes_in(r) == gcm_opened(key@, nonce@, sealed@, aad@),
{
    let cipher = Aes256Gcm::new_from_slice(key).ok()?;
    cipher.decrypt(Nonce::from_slice(nonce), Payload { msg: sealed, aad }).ok()
}

/// Wraps `Engine::encode` of the standard engine of `base64`: the text has
/// four characters of the alphabet for every three bytes begun, and decoding
/// it gives the bytes back.
#[verifier::external_body]
pub(crate) fn base64_encode(data: &[u8]) -> (r: String)
    requires
        base64_len(data@.len()) <= isize::MAX,
    ensures
        r@ == base64(data@),
        r@.len() == base64_len(data@.len()),
        forall|i: int| 0 <= i < r@.len() ==> base64_char(#[trigger] r@[i]),
        unbase64(r@) == Some(data@),
{
    STANDARD.encode(data)
}

/// Wraps `Engine::decode` of the standard engine of `base64`. A text that
/// decodes has the length that encoding gives; no string is longer than
/// `isize::MAX`.
#[verifier::external_body]
pub(crate) fn base64_decode(text: &str) -> (r: Option<Vec<u8>>)
    ensures
        bytes_in(r) == unbase64(text@),
        r matches Some(v) ==> base64_len(v@.len()) == text@.len() && base64_len(v@.len())
            <= isize::MAX,
{
    STANDARD.decode(text).ok()
}

/// Wraps `Digest::digest` of `sha2::Sha256`.
#[verifier::external_body]
pub(crate) fn sha256(data: &[u8]) -> (r: [u8; 32])
    ensures
        r@ == sha256_of(data@),
{
    Sha256::digest(data).into()
}

/// Wraps `StaticSecret::diffie_hellman` of `x25519_dalek`. Both sides of an
/// exchange come to the same secret: where `public` is the public key of some
/// other secret key, that key and the public key of `secret` give it too.
#[verifier::external_body]
pub(crate) fn diffie_hellman(secret: &[u8; 32], public: &[u8; 32]) -> (r: [u8; 32])
    ensures
        r@ == x25519(secret@, public@),
        forall|other: Seq<u8>|
            other.len() == 32 && public@ == #[trigger] x25519_public(other) ==> r@ == x25519(
                other,
                x25519_public(secret@),
            ),
{
    StaticSecret::from(*secret).diffie_hellman(&PublicKey::from(*public)).to_bytes()
}

/// Wraps the conversion of `x25519_dalek` from a secret key to its public key.
#[verifier::external_body]
pub(crate) fn public_key(secret: &[u8; 32]) -> (r: [u8; 32])
    ensures
        r@ == x25519_public(secret@),
{
    PublicKey::from(&StaticSecret::from(*secret)).to_bytes()
}

/// Wraps `fill_bytes` of the generator `rand::thread_rng`: any bytes may come.
#[verifier::external_body]
pub(crate) fn random_bytes<const N: usize>() -> (r: [u8; N]) {
    let mut bytes = [0u8; N];
    rand::thread_rng().fill_bytes(&mut bytes);
    bytes
}

} // verus!
