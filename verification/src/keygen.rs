//! Fresh network keys: an ed25519 key pair made from 32 random bytes of the
//! operating system's generator.

use crate::network_key::{KeyMaterial, NetworkKey};
use crate::outside::{draw_seed, ed25519_keypair, ed25519_keys, open_os_rng};
use vstd::prelude::*;
use vstd::slice::slice_to_vec;

verus! {

/// The length of a seed in bytes.
pub const SEED_LEN: usize = 32;

/// The length of an access key in bytes.
pub const ACCESS_KEY_LEN: usize = 32;

/// The length of a secret key in bytes.
pub const SECRET_KEY_LEN: usize = 64;

/// Why no key could be made.
#[derive(Debug, Clone, Copy, PartialEq, Eq)]
pub enum KeyGenError {
    /// The operating system's random number generator could not be opened.
    RngUnavailable,
}

/// The key made from a seed: the public key of the pair is the access key,
/// its secret key the secret key.
pub open spec fn key_of_seed(seed: Seq<u8>) -> KeyMaterial {
    KeyMaterial {
        access_key: ed25519_keypair(seed).1,
        secret_key: Some(ed25519_keypair(seed).0),
    }
}

/// A key that was made from some seed of 32 bytes, with an access key of 32
/// bytes and a secret key of 64.
pub open spec fn is_generated(key: KeyMaterial) -> bool {
    &&& exists|seed: Seq<u8>| seed.len() == SEED_LEN && key == #[trigger] key_of_seed(seed)
    &&& key.access_key.len() == ACCESS_KEY_LEN
    &&& key.secret_key matches Some(secret) && secret.len() == SECRET_KEY_LEN
}

/// A generated key is short enough to be written as a token.
pub proof fn lemma_generated_key_fits(key: KeyMaterial)
    requires
        is_generated(key),
    ensures
        key.encodable(),
{
}

/// The key made from `seed`.
pub fn keypair_from_seed(seed: &[u8; 32]) -> (key: NetworkKey)
    ensures
        key@ == key_of_seed(seed@),
        is_generated(key@),
{
    let (secret, public) = ed25519_keys(seed.as_slice());
    let key = NetworkKey {
        access_key: slice_to_vec(public.as_slice()),
        secret_key: Some(slice_to_vec(secret.as_slice())),
    };
    assert(key@ == key_of_seed(seed@));
    key
}

/// Generate an access and secret key pair from a fresh random seed. No key is
/// made where the operating system's generator cannot be opened. A key that
/// is made can be written as a token.
pub fn generate_secret_key() -> (made: Result<NetworkKey, KeyGenError>)
    ensures
        made matches Ok(key) ==> is_generated(key@) && key@.encodable(),
{
    match open_os_rng() {
        Some(mut rng) => {
            let seed = draw_seed(&mut rng);
            Ok(keypair_from_seed(&seed))
        },
        None => Err(KeyGenError::RngUnavailable),
    }
}

} // verus!
