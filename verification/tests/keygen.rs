use roam::keygen::{generate_secret_key, keypair_from_seed, KeyGenError};
use roam::network_key::NetworkKey;

fn bytes_of_hex(hex: &str) -> Vec<u8> {
    let digits: Vec<u8> = hex.chars().map(|c| c.to_digit(16).unwrap() as u8).collect();
    digits.chunks(2).map(|pair| pair[0] * 16 + pair[1]).collect()
}

#[test]
fn keypair_of_a_known_seed() {
    let seed = bytes_of_hex("9d61b19deffd5a60ba844af492ec2cc44449c5697b326919703bac031cae7f60");
    let public = bytes_of_hex("d75a980182b10ab7d54bfed3c964073a0ee172f3daa62325af021a68f707511a");
    let mut fixed = [0u8; 32];
    fixed.copy_from_slice(&seed);
    let key = keypair_from_seed(&fixed);
    assert_eq!(key.access_key, public);
    let mut secret = seed.clone();
    secret.extend_from_slice(&public);
    assert_eq!(key.secret_key, Some(secret));
}

#[test]
fn generated_key_has_both_parts() {
    let made: Result<NetworkKey, KeyGenError> = generate_secret_key();
    let key = made.unwrap();
    assert_eq!(key.access_key.len(), 32);
    assert_eq!(key.secret_key.as_ref().unwrap().len(), 64);
    assert!(key.is_encodable());
    assert_eq!(key.secret_key.as_ref().unwrap()[32..], key.access_key[..]);
}

#[test]
fn generated_key_is_the_keypair_of_its_seed() {
    let key = generate_secret_key().unwrap();
    let mut seed = [0u8; 32];
    seed.copy_from_slice(&key.secret_key.as_ref().unwrap()[..32]);
    assert_eq!(keypair_from_seed(&seed), key);
}
