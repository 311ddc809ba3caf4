//! The authenticated cipher: ChaCha20-Poly1305 under a 256-bit key and a
//! 96-bit nonce, without associated data.

use chacha20poly1305::aead::{Aead, KeyInit};
use vstd::prelude::*;

verus! {

/// The length of a nonce in bytes.
pub const NONCE_LEN: usize = 12;

/// The length of the authentication tag that follows the ciphertext.
pub const TAG_LEN: usize = 16;

/// The error type of the `aead` crate, a unit struct. It says nothing of the
/// cause, and nothing is read from it.
#[verifier::external_type_specification]
#[verifier::external_body]
pub struct ExAeadError(chacha20poly1305::aead::Error);

/// What ChaCha20-Poly1305 makes of a plaintext under a key and a nonce: the
/// ciphertext followed by the tag.
pub uninterp spec fn chacha20poly1305_seal(key: Seq<u8>, nonce: Seq<u8>, plaintext: Seq<u8>) -> Seq<
    u8,
>;

/// What ChaCha20-Poly1305 makes of sealed bytes under a key and a nonce: the
/// plaintext where the tag authenticates them, nothing where it does not.
pub uninterp spec fn chacha20poly1305_open(key: Seq<u8>, nonce: Seq<u8>, sealed: Seq<u8>) -> Option<
    Seq<u8>,
>;

/// The longest plaintext, in bytes, that the cipher takes: 2^32 - 2 blocks of
/// 64 bytes. The block counter has 32 bits, and the first block of the
/// keystream is spent on the key of the tag.
pub const MAX_PLAINTEXT_LEN: u64 = 64 * (0xFFFF_FFFF - 1);

/// Whether the cipher takes a plaintext of this length.
pub open spec fn sealable(plaintext_len: nat) -> bool {
    plaintext_len <= MAX_PLAINTEXT_LEN
}

/// Whether sealed bytes of this length can be what the cipher made: a tag,
/// after a ciphertext of a length that the cipher takes.
pub open spec fn openable(sealed_len: nat) -> bool {
    TAG_LEN <= sealed_len <= TAG_LEN + MAX_PLAINTEXT_LEN
}

/// `Aead::encrypt` of `chacha20poly1305::ChaCha20Poly1305`, on a cipher made by
/// `KeyInit::new` from the key, with the plaintext as the whole payload.
///
/// The contract claims: the call succeeds; the result is a function of key,
/// nonce and plaintext; it is 16 bytes longer than the plaintext; and opening
/// it under the same key and nonce gives the plaintext back. The preconditions
/// keep out a nonce of another length, on which `Nonce::from_slice` panics; a
/// plaintext of more than 2^32 - 2 blocks, which the crate either refuses or
/// runs out of keystream on, with a panic; and a plaintext so long that the
/// buffer for it and its tag cannot be allocated.
#[verifier::external_body]
pub(crate) fn aead_encrypt(key: &[u8; 32], nonce: &[u8], plaintext: &[u8]) -> (r: Result<
    Vec<u8>,
    chacha20poly1305::aead::Error,
>)
    requires
        nonce@.len() == NONCE_LEN,
        sealable(plaintext@.len()),
        plaintext@.len() + TAG_LEN <= isize::MAX,
    ensures
        r is Ok,
        r matches Ok(sealed) ==> {
            &&& sealed@ == chacha20poly1305_seal(key@, nonce@, plaintext@)
            &&& sealed@.len() == plaintext@.len() + TAG_LEN
            &&& chacha20poly1305_open(key@, nonce@, sealed@) == Some(plaintext@)
        },
{
    let cipher = chacha20poly1305::ChaCha20Poly1305::new(chacha20poly1305::Key::from_slice(key));
    cipher.encrypt(chacha20poly1305::Nonce::from_slice(nonce), plaintext)
}

/// `Aead::decrypt` of `chacha20poly1305::ChaCha20Poly1305`, on a cipher made by
/// `KeyInit::new` from the key, with the sealed bytes as the whole payload.
///
/// The contract claims that the outcome is a function of key, nonce and sealed
/// bytes: the plaintext where the call succeeds, nothing where it fails; that
/// sealed bytes shorter than a tag are refused; and that a plaintext is 16
/// bytes shorter than what it was opened from. The preconditions keep out a
/// nonce of another length, on which `Nonce::from_slice` panics, and sealed
/// bytes of more than 2^32 - 2 blocks before the tag, on which the crate runs
/// out of keystream, with a panic, once the tag is found authentic.
#[verifier::external_body]
pub(crate) fn aead_decrypt(key: &[u8; 32], nonce: &[u8], sealed: &[u8]) -> (r: Result<
    Vec<u8>,
    chacha20poly1305::aead::Error,
>)
    requires
        nonce@.len() == NONCE_LEN,
        sealed@.len() <= TAG_LEN + MAX_PLAINTEXT_LEN,
    ensures
        match r {
            Ok(plaintext) => chacha20poly1305_open(key@, nonce@, sealed@) == Some(plaintext@),
            Err(_) => chacha20poly1305_open(key@, nonce@, sealed@) is None,
        },
        sealed@.len() < TAG_LEN ==> r is Err,
        r matches Ok(plaintext) ==> plaintext@.len() + TAG_LEN == sealed@.len(),
{
    let cipher = chacha20poly1305::ChaCha20Poly1305::new(chacha20poly1305::Key::from_slice(key));
    cipher.decrypt(chacha20poly1305::Nonce::from_slice(nonce), sealed)
}

} // verus!
