//! Key stretching: iterated hashing of the passphrase and salt into the
//! 32-byte master key.

use vstd::prelude::*;
use crate::crypto::{sha256, sha256_of};
use crate::util::push_range;

verus! {

/// The stretched master key: hash passphrase and salt once, then rehash
/// the result `iter` more times.
pub open spec fn stretched(password: Seq<u8>, salt: Seq<u8>, iter: nat) -> Seq<u8>
    decreases iter,
{
    if iter == 0 {
        sha256_of(password + salt)
    } else {
        sha256_of(stretched(password, salt, (iter - 1) as nat))
    }
}

/// With no extra iterations the stretch is a single hash of the
/// passphrase followed by the salt.
pub proof fn lemma_stretch_zero(password: Seq<u8>, salt: Seq<u8>)
    ensures
        stretched(password, salt, 0) == sha256_of(password + salt),
{
}

/// Returns the master key derived from the password by key stretching.
pub fn hash_password(salt: &[u8], iter: u32, password: &[u8]) -> (r: Vec<u8>)
    ensures
        r@ == stretched(password@, salt@, iter as nat),
        r@.len() == 32,
{
    let mut buf: Vec<u8> = Vec::new();
    push_range(&mut buf, password, 0, password.len());
    push_range(&mut buf, salt, 0, salt.len());
    proof {
        assert(buf@ =~= password@ + salt@);
    }
    let mut key = sha256(buf.as_slice());
    let mut i: u32 = 0;
    while i < iter
        invariant
            i <= iter,
            key@ == stretched(password@, salt@, i as nat),
            key@.len() == 32,
        decreases iter - i,
    {
        key = sha256(key.as_slice());
        i = i + 1;
    }
    key
}

} // verus!
