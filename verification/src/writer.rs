//! Streaming database writer: emits the header with fresh random key
//! material, then frames and encrypts fields block by block as they
//! arrive; finishing appends the sentinel and the trailing integrity tag.

use vstd::prelude::*;
use vstd::arithmetic::div_mod::{
    lemma_fundamental_div_mod, lemma_fundamental_div_mod_converse, lemma_mod_add_multiples_vanish,
    lemma_mod_bound, lemma_small_mod,
};
use crate::crypto::{
    cbc_encrypt_block, ecb_encrypt_pair, hmac_sha256_of, hmac_tag, random_bytes, sha256,
    sha256_of, tf_enc,
};
use crate::key::{hash_password, stretched};
use crate::model::{
    blocks_for, cbc_enc_seq, cbc_prev, is_frame, le32, lemma_cbc_enc_snoc, magic, sentinel,
};
use crate::reader::{body_ok, has_magic, master_of, open_ok, password_ok};
use crate::util::{magic_bytes, push_range, sentinel_bytes, take_range, write_le32};

verus! {

/// The writer's 152-byte header for the given key material: the magic
/// value, the salt, the iteration count, the password-verification hash,
/// the two wrapped keys, and the initialization vector.
pub open spec fn header_wf(
    h: Seq<u8>,
    password: Seq<u8>,
    iter: u32,
    salt: Seq<u8>,
    k: Seq<u8>,
    l: Seq<u8>,
    iv: Seq<u8>,
) -> bool {
    let master = stretched(password, salt, iter as nat);
    &&& h.len() == 152
    &&& h.subrange(0, 4) == magic()
    &&& h.subrange(4, 36) == salt
    &&& le32(h.subrange(36, 40)) == iter
    &&& h.subrange(40, 72) == sha256_of(master)
    &&& h.subrange(72, 88) == tf_enc(master, k.subrange(0, 16))
    &&& h.subrange(88, 104) == tf_enc(master, k.subrange(16, 32))
    &&& h.subrange(104, 120) == tf_enc(master, l.subrange(0, 16))
    &&& h.subrange(120, 136) == tf_enc(master, l.subrange(16, 32))
    &&& h.subrange(136, 152) == iv
}

proof fn lemma_frame_len(len: int)
    requires
        0 <= len <= 0xffffffff,
    ensures
        ({
            let r = (5 + len) % 16;
            let padlen: int = if r == 0 {
                0
            } else {
                16 - r
            };
            5 + len + padlen == 16 * blocks_for(len)
        }),
{
    if len <= 11 {
        if len == 11 {
            lemma_fundamental_div_mod_converse(16, 16, 1, 0);
        } else {
            lemma_small_mod((5 + len) as nat, 16);
        }
    } else {
        let m = len - 11;
        lemma_fundamental_div_mod(m, 16);
        lemma_mod_bound(m, 16);
        lemma_mod_add_multiples_vanish(m, 16);
        let q = m / 16;
        let r = m % 16;
        if r == 0 {
            lemma_fundamental_div_mod_converse(m + 15, 16, q, 15);
        } else {
            lemma_fundamental_div_mod_converse(m + 15, 16, q + 1, r - 1);
        }
    }
}

/// The opening half of the round trip: a stream assembled from a
/// well-formed header, whole ciphertext blocks, the sentinel and a
/// 32-byte tag — the exact shape a writer emits — passes every check the
/// reader makes at opening under the passphrase that built the header:
/// the magic value, the stored iteration count, the password-verification
/// hash, and the block alignment.
pub proof fn lemma_writer_stream_opens(
    password: Seq<u8>,
    iter: u32,
    salt: Seq<u8>,
    k: Seq<u8>,
    l: Seq<u8>,
    iv: Seq<u8>,
    hdr: Seq<u8>,
    ct: Seq<u8>,
    tag: Seq<u8>,
)
    requires
        header_wf(hdr, password, iter, salt, k, l, iv),
        ct.len() % 16 == 0,
        tag.len() == 32,
    ensures
        open_ok(hdr + ct + sentinel() + tag, password),
        le32((hdr + ct + sentinel() + tag).subrange(36, 40)) == iter,
{
    let out = hdr + ct + sentinel() + tag;
    assert(sentinel().len() == 16);
    assert(out.subrange(0, 4) =~= hdr.subrange(0, 4));
    assert(out.subrange(4, 36) =~= hdr.subrange(4, 36));
    assert(out.subrange(36, 40) =~= hdr.subrange(36, 40));
    assert(out.subrange(40, 72) =~= hdr.subrange(40, 72));
    assert(has_magic(out));
    assert(master_of(out, password) == stretched(password, salt, iter as nat));
    assert(password_ok(out, password));
    lemma_fundamental_div_mod(ct.len() as int, 16);
    lemma_fundamental_div_mod_converse(
        out.len() - 152,
        16,
        ct.len() as int / 16 + 3,
        0,
    );
    assert(body_ok(out));
}

/// Streaming database writer into an in-memory byte stream.
pub struct PwsafeWriter {
    out: Vec<u8>,
    k: Vec<u8>,
    l: Vec<u8>,
    prev: Vec<u8>,
    acc: Vec<u8>,
    iter: u32,
    iv0: Ghost<Seq<u8>>,
    salt0: Ghost<Seq<u8>>,
    hdr: Ghost<Seq<u8>>,
    plain: Ghost<Seq<u8>>,
}

impl PwsafeWriter {
    /// Every byte emitted so far: the header, then the ciphertext blocks.
    pub closed spec fn stream(self) -> Seq<u8> {
        self.out@
    }

    /// The fresh content key.
    pub closed spec fn content_key(self) -> Seq<u8> {
        self.k@
    }

    /// The fresh integrity key.
    pub closed spec fn mac_key(self) -> Seq<u8> {
        self.l@
    }

    /// The chaining state: the last ciphertext block emitted, or the
    /// initialization vector before any.
    pub closed spec fn chain(self) -> Seq<u8> {
        self.prev@
    }

    /// Payload bytes accumulated for the trailing tag so far.
    pub closed spec fn mac_acc(self) -> Seq<u8> {
        self.acc@
    }

    /// The key-stretching iteration count written to the header.
    pub closed spec fn iter_count(self) -> u32 {
        self.iter
    }

    /// The fresh initialization vector.
    pub closed spec fn iv(self) -> Seq<u8> {
        self.iv0@
    }

    /// The fresh salt.
    pub closed spec fn salt(self) -> Seq<u8> {
        self.salt0@
    }

    /// The 152-byte header this writer emitted first.
    pub closed spec fn header(self) -> Seq<u8> {
        self.hdr@
    }

    /// The plaintext block bytes framed so far, in emission order.
    pub closed spec fn plain(self) -> Seq<u8> {
        self.plain@
    }

    /// Internal consistency: key sizes and block alignment.
    pub closed spec fn wf(self) -> bool {
        &&& self.k@.len() == 32
        &&& self.l@.len() == 32
        &&& self.prev@.len() == 16
        &&& self.iv0@.len() == 16
        &&& self.hdr@.len() == 152
        &&& self.plain@.len() % 16 == 0
    }

    /// The parts of the state that no write ever changes.
    pub open spec fn same_session(self, o: Self) -> bool {
        &&& self.content_key() == o.content_key()
        &&& self.mac_key() == o.mac_key()
        &&& self.iv() == o.iv()
        &&& self.salt() == o.salt()
        &&& self.header() == o.header()
        &&& self.iter_count() == o.iter_count()
    }

    /// Creates a writer: draws fresh random salt, keys and vector from
    /// the system generator, and emits the header.
    pub fn new(iter: u32, password: &[u8]) -> (w: PwsafeWriter)
        ensures
            w.wf(),
            w.iter_count() == iter,
            w.mac_acc() == Seq::<u8>::empty(),
            w.plain() == Seq::<u8>::empty(),
            w.chain() == w.iv(),
            w.stream() == w.header(),
            header_wf(
                w.header(),
                password@,
                iter,
                w.salt(),
                w.content_key(),
                w.mac_key(),
                w.iv(),
            ),
    {
        let salt = random_bytes(32);
        let k = random_bytes(32);
        let l = random_bytes(32);
        let iv = random_bytes(16);
        let master = hash_password(salt.as_slice(), iter, password);
        let h = sha256(master.as_slice());
        let wk = ecb_encrypt_pair(&master, &k);
        let wl = ecb_encrypt_pair(&master, &l);
        let mut out = magic_bytes();
        push_range(&mut out, salt.as_slice(), 0, 32);
        let ib = write_le32(iter);
        push_range(&mut out, ib.as_slice(), 0, 4);
        push_range(&mut out, h.as_slice(), 0, 32);
        push_range(&mut out, wk.as_slice(), 0, 32);
        push_range(&mut out, wl.as_slice(), 0, 32);
        push_range(&mut out, iv.as_slice(), 0, 16);
        proof {
            assert(out@.len() == 152);
            assert(out@.subrange(0, 4) =~= magic());
            assert(out@.subrange(4, 36) =~= salt@);
            assert(out@.subrange(36, 40) =~= ib@);
            assert(out@.subrange(40, 72) =~= h@);
            assert(out@.subrange(72, 88) =~= wk@.subrange(0, 16));
            assert(out@.subrange(88, 104) =~= wk@.subrange(16, 32));
            assert(out@.subrange(104, 120) =~= wl@.subrange(0, 16));
            assert(out@.subrange(120, 136) =~= wl@.subrange(16, 32));
            assert(out@.subrange(136, 152) =~= iv@);
        }
        let ghost hdr = out@;
        let ghost ivg = iv@;
        let ghost saltg = salt@;
        PwsafeWriter {
            out,
            k,
            l,
            prev: iv,
            acc: Vec::new(),
            iter,
            iv0: Ghost(ivg),
            salt0: Ghost(saltg),
            hdr: Ghost(hdr),
            plain: Ghost(Seq::empty()),
        }
    }

    /// Frames one field — length, tag, payload, random padding — and
    /// emits its blocks through the chained cipher, in order; the payload
    /// bytes (alone) are fed to the integrity accumulator.
    #[verifier::loop_isolation(false)]
    pub fn write_field(&mut self, field_type: u8, data: &[u8])
        requires
            old(self).wf(),
            data@.len() <= 0xffffffff,
        ensures
            final(self).wf(),
            final(self).same_session(*old(self)),
            final(self).mac_acc() == old(self).mac_acc() + data@,
            final(self).plain().len() == old(self).plain().len() + 16 * blocks_for(
                data@.len() as int,
            ),
            final(self).plain().take(old(self).plain().len() as int) == old(self).plain(),
            ({
                let delta = final(self).plain().skip(old(self).plain().len() as int);
                &&& is_frame(delta, field_type, data@)
                &&& final(self).stream() == old(self).stream() + cbc_enc_seq(
                    old(self).content_key(),
                    old(self).chain(),
                    delta,
                )
                &&& final(self).chain() == cbc_prev(
                    old(self).content_key(),
                    old(self).chain(),
                    delta,
                )
            }),
    {
        let ghost s0 = *self;
        let len = data.len();
        let mut frame = write_le32(len as u32);
        frame.push(field_type);
        push_range(&mut frame, data, 0, len);
        let r16 = frame.len() % 16;
        let padlen: usize = if r16 == 0 {
            0
        } else {
            16 - r16
        };
        let pad = random_bytes(padlen);
        push_range(&mut frame, pad.as_slice(), 0, padlen);
        proof {
            lemma_frame_len(len as int);
            assert(frame@.len() == 16 * blocks_for(data@.len() as int));
            assert(frame@.subrange(5, 5 + len as int) =~= data@);
            assert(is_frame(frame@, field_type, data@));
            lemma_fundamental_div_mod(frame@.len() as int, 16);
        }
        push_range(&mut self.acc, data, 0, len);
        let flen = frame.len();
        let mut idx: usize = 0;
        proof {
            assert(frame@.take(0) =~= Seq::<u8>::empty());
        }
        while idx < flen
            invariant
                self.out@ == s0.out@ + cbc_enc_seq(s0.k@, s0.prev@, frame@.take(idx as int)),
                self.prev@ == cbc_prev(s0.k@, s0.prev@, frame@.take(idx as int)),
                self.prev@.len() == 16,
                self.k@ == s0.k@,
                self.l@ == s0.l@,
                self.acc@ == s0.acc@ + data@,
                self.iter == s0.iter,
                self.iv0@ == s0.iv0@,
                self.salt0@ == s0.salt0@,
                self.hdr@ == s0.hdr@,
                self.plain@ == s0.plain@,
                idx % 16 == 0,
                idx <= flen,
            decreases flen - idx,
        {
            proof {
                lemma_fundamental_div_mod(idx as int, 16);
            }
            let blockv = take_range(frame.as_slice(), idx, idx + 16);
            let ct = cbc_encrypt_block(&self.k, &self.prev, &blockv);
            let ghost taken = frame@.take(idx as int);
            push_range(&mut self.out, ct.as_slice(), 0, 16);
            self.prev = ct;
            idx = idx + 16;
            proof {
                lemma_cbc_enc_snoc(s0.k@, s0.prev@, taken, blockv@);
                assert(frame@.take(idx as int) =~= taken + blockv@);
                assert(ct@.subrange(0, 16) =~= ct@);
            }
        }
        proof {
            assert(frame@.take(flen as int) =~= frame@);
        }
        self.plain = Ghost(s0.plain@ + frame@);
        proof {
            assert(self.plain@.skip(s0.plain@.len() as int) =~= frame@);
            assert(self.plain@.take(s0.plain@.len() as int) =~= s0.plain@);
            lemma_fundamental_div_mod(s0.plain@.len() as int, 16);
            lemma_fundamental_div_mod(frame@.len() as int, 16);
            lemma_fundamental_div_mod_converse(
                self.plain@.len() as int,
                16,
                s0.plain@.len() as int / 16 + frame@.len() as int / 16,
                0,
            );
        }
    }

    /// Completes the stream: everything emitted so far, then the sentinel
    /// block, then the integrity tag over all payload bytes in order.
    pub fn finish(&self) -> (r: Vec<u8>)
        requires
            self.wf(),
        ensures
            r@ == self.stream() + sentinel() + hmac_sha256_of(self.mac_key(), self.mac_acc()),
    {
        let mut out = take_range(self.out.as_slice(), 0, self.out.len());
        let sent = sentinel_bytes();
        push_range(&mut out, sent.as_slice(), 0, 16);
        let tag = hmac_tag(&self.l, &self.acc);
        push_range(&mut out, tag.as_slice(), 0, 32);
        proof {
            assert(out@ =~= self.out@ + sentinel() + hmac_sha256_of(self.l@, self.acc@));
        }
        out
    }
}

} // verus!
