//! Message authentication and randomness.

use crate::auth::packet::NONCE_LEN;
use hmac::{Hmac, Mac};
use sha2::Sha256;
use vstd::prelude::*;

verus! {

/// HMAC-SHA-256 of a message under a key.
pub uninterp spec fn hmac_sha256(key: Seq<u8>, message: Seq<u8>) -> [u8; 32];

/// `Hmac::<Sha256>::new_from_slice`, which takes a key of any length, then `Mac::update` and
/// `Mac::finalize`: the authentication tag of a message.
#[verifier::external_body]
pub(crate) fn sign(key: &[u8], message: &[u8]) -> (tag: Vec<u8>)
    ensures
        tag@ == hmac_sha256(key@, message@)@,
{
    let mut mac = Hmac::<Sha256>::new_from_slice(key).expect("HMAC accepts arbitrary key lengths");
    mac.update(message);
    mac.finalize().into_bytes().to_vec()
}

/// `Hmac::<Sha256>::new_from_slice`, `Mac::update` and `Mac::verify_slice`: whether a tag is the
/// authentication tag of a message, in time that does not depend on where they differ.
#[verifier::external_body]
pub(crate) fn verify(key: &[u8], message: &[u8], tag: &[u8]) -> (genuine: bool)
    ensures
        genuine <==> tag@ == hmac_sha256(key@, message@)@,
{
    let mut mac = Hmac::<Sha256>::new_from_slice(key).expect("HMAC accepts arbitrary key lengths");
    mac.update(message);
    mac.verify_slice(tag).is_ok()
}

/// `getrandom::fill`: overwrites a buffer with random bytes, of which nothing is said. On failure
/// there is the text of the error.
#[verifier::external_body]
fn fill_random(buffer: &mut [u8]) -> (filled: Result<(), String>)
    ensures
        final(buffer)@.len() == old(buffer)@.len(),
{
    getrandom::fill(buffer).map_err(|error| error.to_string())
}

/// The nonce that filling a buffer with random bytes gives: the buffer as it was filled, or why it
/// was not.
pub fn nonce_of(buffer: Vec<u8>, filled: Result<(), String>) -> (nonce: Result<Vec<u8>, String>)
    ensures
        nonce == match filled {
            Ok(()) => Ok::<Vec<u8>, String>(buffer),
            Err(error) => Err(error),
        },
{
    match filled {
        Ok(()) => Ok(buffer),
        Err(error) => Err(error),
    }
}

/// A random nonce, or why there is none. Whether there is one is up to the operating system;
/// [`nonce_of`] says what comes of either answer.
pub(crate) fn random_nonce() -> (nonce: Result<Vec<u8>, String>)
    ensures
        nonce matches Ok(bytes) ==> bytes@.len() == NONCE_LEN,
{
    let mut buffer: Vec<u8> = vec![0u8; NONCE_LEN];
    let filled = fill_random(buffer.as_mut_slice());
    nonce_of(buffer, filled)
}

} // verus!
