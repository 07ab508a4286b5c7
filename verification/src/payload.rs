//! Encryption of the secret payload with AES-128 in CBC mode.

use vstd::prelude::*;
use openssl::error::ErrorStack;
use openssl::symm::{encrypt, Cipher};

verus! {

#[verifier::external_type_specification]
#[verifier::external_body]
pub struct ExErrorStack(ErrorStack);

/// The length of an AES-128 key, and of a CBC initialization vector, in bytes.
pub const BLOCK_LEN: usize = 16;

/// The longest payload that the cipher library takes in one call.
pub const MAX_PAYLOAD_LEN: usize = 0x7fff_ffef;

/// Why a payload was not encrypted.
#[derive(Clone, Copy, Debug, PartialEq, Eq, Structural)]
pub enum PayloadError {
    /// The key is not [`BLOCK_LEN`] bytes long.
    KeyLength,
    /// The initialization vector is not [`BLOCK_LEN`] bytes long.
    IvLength,
    /// The payload is longer than [`MAX_PAYLOAD_LEN`].
    PayloadTooLong,
    /// The cipher library reported a failure.
    Cipher,
}

/// The AES-128-CBC ciphertext of `data`, padded, under `key` and `iv`.
pub uninterp spec fn aes128_cbc(data: Seq<u8>, key: Seq<u8>, iv: Seq<u8>) -> Seq<u8>;

/// The error that comes before the cipher library is asked, if any. The key
/// is looked at first, then the initialization vector, then the payload.
pub open spec fn rejection(data: Seq<u8>, key: Seq<u8>, iv: Seq<u8>) -> Option<PayloadError> {
    if key.len() != BLOCK_LEN {
        Some(PayloadError::KeyLength)
    } else if iv.len() != BLOCK_LEN {
        Some(PayloadError::IvLength)
    } else if data.len() > MAX_PAYLOAD_LEN {
        Some(PayloadError::PayloadTooLong)
    } else {
        None
    }
}

/// `openssl::symm::encrypt` with `Cipher::aes_128_cbc`: when it succeeds, the
/// ciphertext. The library panics on a key or vector shorter than the cipher's
/// and on a payload whose padded length does not fit its length type, so
/// those are excluded. Nothing is promised about when it succeeds.
#[verifier::external_body]
pub(crate) fn cbc_encrypt(data: &[u8], key: &[u8], iv: &[u8]) -> (r: Result<Vec<u8>, ErrorStack>)
    requires
        key@.len() == BLOCK_LEN,
        iv@.len() == BLOCK_LEN,
        data@.len() <= MAX_PAYLOAD_LEN,
    ensures
        r matches Ok(sealed) ==> sealed@ == aes128_cbc(data@, key@, iv@),
{
    encrypt(Cipher::aes_128_cbc(), key, Some(iv), data)
}

/// What [`aes_cbc_encrypt`] returns, given what the cipher library answered.
pub fn sealed_or_error(answer: Result<Vec<u8>, ErrorStack>) -> (r: Result<Vec<u8>, PayloadError>)
    ensures
        match answer {
            Ok(sealed) => r == Ok::<Vec<u8>, PayloadError>(sealed),
            Err(_) => r == Err::<Vec<u8>, PayloadError>(PayloadError::Cipher),
        },
{
    match answer {
        Ok(sealed) => Ok(sealed),
        Err(_) => Err(PayloadError::Cipher),
    }
}

/// Encrypts `data` under a 16-byte key and a 16-byte initialization vector.
///
/// A key, vector or payload of the wrong size is refused before the cipher
/// library is asked. Otherwise the result is the library's: the ciphertext,
/// or [`PayloadError::Cipher`] when it failed.
pub fn aes_cbc_encrypt(data: &[u8], key: &[u8], iv: &[u8]) -> (r: Result<Vec<u8>, PayloadError>)
    ensures
        match rejection(data@, key@, iv@) {
            Some(error) => r == Err::<Vec<u8>, PayloadError>(error),
            None => match r {
                Ok(sealed) => sealed@ == aes128_cbc(data@, key@, iv@),
                Err(error) => error == PayloadError::Cipher,
            },
        },
{
    if key.len() != BLOCK_LEN {
        return Err(PayloadError::KeyLength);
    }
    if iv.len() != BLOCK_LEN {
        return Err(PayloadError::IvLength);
    }
    if data.len() > MAX_PAYLOAD_LEN {
        return Err(PayloadError::PayloadTooLong);
    }
    sealed_or_error(cbc_encrypt(data, key, iv))
}

} // verus!
