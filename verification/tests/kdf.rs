//! Key-stretching tests: determinism, sensitivity, and the zero-iteration
//! case checked against an independent SHA-256 computation.

use pwsafe::key::hash_password;
use sha2::{Digest, Sha256};

#[test]
fn stretch_is_deterministic() {
    let salt = [0x11u8; 32];
    let a = hash_password(&salt, 1000, b"passphrase");
    let b = hash_password(&salt, 1000, b"passphrase");
    assert_eq!(a, b);
    assert_eq!(a.len(), 32);
}

#[test]
fn stretch_zero_matches_single_hash() {
    let salt = [0x42u8; 32];
    let got = hash_password(&salt, 0, b"password");
    let mut hasher = Sha256::default();
    hasher.update(b"password");
    hasher.update(&salt);
    let expected = hasher.finalize();
    assert_eq!(got.as_slice(), expected.as_slice());
}

#[test]
fn stretch_iterates_the_hash() {
    let salt = [0x42u8; 32];
    let mut expected = hash_password(&salt, 0, b"pw").to_vec();
    for _ in 0..5 {
        expected = Sha256::digest(&expected).to_vec();
    }
    assert_eq!(hash_password(&salt, 5, b"pw"), expected);
}

#[test]
fn stretch_is_sensitive_to_every_input() {
    let salt = [0x07u8; 32];
    let base = hash_password(&salt, 100, b"password");
    let mut salt2 = salt;
    salt2[31] ^= 1;
    assert_ne!(base, hash_password(&salt2, 100, b"password"));
    assert_ne!(base, hash_password(&salt, 101, b"password"));
    assert_ne!(base, hash_password(&salt, 100, b"passwore"));
    assert_ne!(base, hash_password(&salt, 100, b"passwor"));
}
