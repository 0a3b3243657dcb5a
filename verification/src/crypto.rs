//! Trusted boundary to the cryptographic primitives.
//!
//! The primitives themselves (the Twofish block cipher, SHA-256 and
//! HMAC-SHA-256) are outside crates; their outputs are named by
//! uninterpreted spec functions, and each wrapper below states over those
//! names exactly what its one call computes.

use vstd::prelude::*;
use block_modes::{BlockMode, Cbc, Ecb};
use block_modes::block_padding::ZeroPadding;
use hmac::{Hmac, Mac, NewMac};
use rand::RngCore;
use rand::rngs::OsRng;
use sha2::{Digest, Sha256};
use twofish::Twofish;
use twofish::cipher::generic_array::GenericArray;
use crate::model::xor16;

verus! {

/// The SHA-256 digest of a byte sequence.
pub uninterp spec fn sha256_of(data: Seq<u8>) -> Seq<u8>;

/// The Twofish encryption of one 16-byte block under a 32-byte key.
pub uninterp spec fn tf_enc(key: Seq<u8>, block: Seq<u8>) -> Seq<u8>;

/// The Twofish decryption of one 16-byte block under a 32-byte key.
pub uninterp spec fn tf_dec(key: Seq<u8>, block: Seq<u8>) -> Seq<u8>;

/// The HMAC-SHA-256 tag of a message under a key.
pub uninterp spec fn hmac_sha256_of(key: Seq<u8>, msg: Seq<u8>) -> Seq<u8>;

/// Relies on sha2's `Sha256`: the digest is 32 bytes and depends on the
/// input bytes alone.
#[verifier::external_body]
pub(crate) fn sha256(data: &[u8]) -> (r: Vec<u8>)
    ensures
        r@ == sha256_of(data@),
        r@.len() == 32,
{
    Sha256::digest(data).to_vec()
}

/// Relies on block_modes' `Ecb` over twofish's `Twofish`: each of the two
/// 16-byte blocks is encrypted independently by the block cipher.
#[verifier::external_body]
pub(crate) fn ecb_encrypt_pair(key: &Vec<u8>, pt: &Vec<u8>) -> (r: Vec<u8>)
    requires
        key@.len() == 32,
        pt@.len() == 32,
    ensures
        r@.len() == 32,
        r@.subrange(0, 16) == tf_enc(key@, pt@.subrange(0, 16)),
        r@.subrange(16, 32) == tf_enc(key@, pt@.subrange(16, 32)),
{
    let mut cipher = Ecb::<Twofish, ZeroPadding>::new_from_slices(key, &[]).unwrap();
    let mut blocks = [
        GenericArray::clone_from_slice(&pt[0..16]),
        GenericArray::clone_from_slice(&pt[16..32]),
    ];
    cipher.encrypt_blocks(&mut blocks);
    let mut r = blocks[0].to_vec();
    r.extend_from_slice(&blocks[1]);
    r
}

/// Relies on block_modes' `Ecb` over twofish's `Twofish`: each of the two
/// 16-byte blocks is decrypted independently by the block cipher.
#[verifier::external_body]
pub(crate) fn ecb_decrypt_pair(key: &Vec<u8>, ct: &Vec<u8>) -> (r: Vec<u8>)
    requires
        key@.len() == 32,
        ct@.len() == 32,
    ensures
        r@.len() == 32,
        r@.subrange(0, 16) == tf_dec(key@, ct@.subrange(0, 16)),
        r@.subrange(16, 32) == tf_dec(key@, ct@.subrange(16, 32)),
{
    let mut cipher = Ecb::<Twofish, ZeroPadding>::new_from_slices(key, &[]).unwrap();
    let mut blocks = [
        GenericArray::clone_from_slice(&ct[0..16]),
        GenericArray::clone_from_slice(&ct[16..32]),
    ];
    cipher.decrypt_blocks(&mut blocks);
    let mut r = blocks[0].to_vec();
    r.extend_from_slice(&blocks[1]);
    r
}

/// Relies on block_modes' `Cbc` over twofish's `Twofish`, initialized with
/// the previous ciphertext block as its vector: one block encrypts to the
/// cipher applied to the block xor-ed with that previous ciphertext.
#[verifier::external_body]
pub(crate) fn cbc_encrypt_block(key: &Vec<u8>, prev: &Vec<u8>, pt: &Vec<u8>) -> (r: Vec<u8>)
    requires
        key@.len() == 32,
        prev@.len() == 16,
        pt@.len() == 16,
    ensures
        r@ == tf_enc(key@, xor16(pt@, prev@)),
        r@.len() == 16,
{
    let mut cipher = Cbc::<Twofish, ZeroPadding>::new_from_slices(key, prev).unwrap();
    let mut block = GenericArray::clone_from_slice(pt);
    cipher.encrypt_blocks(core::slice::from_mut(&mut block));
    block.to_vec()
}

/// Relies on block_modes' `Cbc` over twofish's `Twofish`, initialized with
/// the previous ciphertext block as its vector: one block decrypts to the
/// cipher's block decryption xor-ed with that previous ciphertext.
#[verifier::external_body]
pub(crate) fn cbc_decrypt_block(key: &Vec<u8>, prev: &Vec<u8>, ct: &Vec<u8>) -> (r: Vec<u8>)
    requires
        key@.len() == 32,
        prev@.len() == 16,
        ct@.len() == 16,
    ensures
        r@ == xor16(tf_dec(key@, ct@), prev@),
        r@.len() == 16,
{
    let mut cipher = Cbc::<Twofish, ZeroPadding>::new_from_slices(key, prev).unwrap();
    let mut block = GenericArray::clone_from_slice(ct);
    cipher.decrypt_blocks(core::slice::from_mut(&mut block));
    block.to_vec()
}

/// Relies on hmac's `Hmac<Sha256>`: the finalized tag is 32 bytes and
/// depends on the key and the message bytes alone.
#[verifier::external_body]
pub(crate) fn hmac_tag(key: &Vec<u8>, msg: &Vec<u8>) -> (r: Vec<u8>)
    ensures
        r@ == hmac_sha256_of(key@, msg@),
        r@.len() == 32,
{
    let mut mac = Hmac::<Sha256>::new_from_slice(key).unwrap();
    mac.update(msg);
    mac.finalize().into_bytes().to_vec()
}

/// Relies on hmac's `Mac::verify`: it succeeds exactly when the candidate
/// equals the finalized tag, compared in constant time.
#[verifier::external_body]
pub(crate) fn hmac_verify(key: &Vec<u8>, msg: &Vec<u8>, tag: &[u8]) -> (r: bool)
    ensures
        r == (tag@ == hmac_sha256_of(key@, msg@)),
{
    let mut mac = Hmac::<Sha256>::new_from_slice(key).unwrap();
    mac.update(msg);
    mac.verify(tag).is_ok()
}

/// Relies on rand's `OsRng::fill_bytes`: `n` bytes from the operating
/// system's secure generator. Nothing is promised of their values.
#[verifier::external_body]
pub(crate) fn random_bytes(n: usize) -> (r: Vec<u8>)
    ensures
        r@.len() == n,
{
    let mut v = vec![0u8; n];
    OsRng.fill_bytes(&mut v);
    v
}

} // verus!
