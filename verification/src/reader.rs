//! Streaming database reader: parses the header, derives and unwraps the
//! session keys, then hands out fields one 16-byte block at a time while
//! the integrity accumulator follows every payload byte.

use vstd::prelude::*;
use vstd::arithmetic::div_mod::lemma_fundamental_div_mod;
use crate::crypto::{
    cbc_decrypt_block, ecb_decrypt_pair, hmac_sha256_of, hmac_verify, sha256, sha256_of, tf_dec,
};
use crate::field::PwsafeHeaderField;
use crate::key::{hash_password, stretched};
use crate::model::{
    blocks_for, field_payload, header_len, header_tag, le16, le32, magic, payload_tail, sentinel,
    tail_blocks, xor16,
};
use crate::util::{bytes_eq, magic_bytes, push_range, read_le32, sentinel_bytes, take_range};

verus! {

/// Database reader error.
#[derive(Debug, Clone, Copy, PartialEq, Eq, Structural)]
pub enum Error {
    /// Incorrect file signature: the source is not a database of this format.
    InvalidTag,
    /// Invalid password.
    InvalidPassword,
    /// Invalid header: the mandatory version field is missing or malformed.
    InvalidHeader,
    /// The stream ends before the bytes a declared length calls for.
    Truncated,
    /// The trailing integrity tag does not match the payload stream.
    MacError,
}

/// The first four bytes carry the fixed magic value.
pub open spec fn has_magic(data: Seq<u8>) -> bool {
    data.len() >= 4 && data.subrange(0, 4) == magic()
}

/// The master key that the stored salt and iteration count derive from
/// this passphrase.
pub open spec fn master_of(data: Seq<u8>, password: Seq<u8>) -> Seq<u8> {
    stretched(password, data.subrange(4, 36), le32(data.subrange(36, 40)) as nat)
}

/// The stored verification hash matches the derived master key.
pub open spec fn password_ok(data: Seq<u8>, password: Seq<u8>) -> bool {
    sha256_of(master_of(data, password)) == data.subrange(40, 72)
}

/// After the 152-byte header there is room for the sentinel block and
/// the trailing tag, and the rest falls into whole 16-byte blocks.
pub open spec fn body_ok(data: Seq<u8>) -> bool {
    data.len() >= 200 && (data.len() - 152) % 16 == 0
}

/// Opening succeeds exactly on these inputs.
pub open spec fn open_ok(data: Seq<u8>, password: Seq<u8>) -> bool {
    has_magic(data) && data.len() >= 152 && password_ok(data, password) && body_ok(data)
}

/// Both halves of a wrapped 32-byte secret sent through the cipher's
/// block decryption under the master key.
pub open spec fn unwrap2(master: Seq<u8>, w: Seq<u8>) -> Seq<u8> {
    tf_dec(master, w.subrange(0, 16)) + tf_dec(master, w.subrange(16, 32))
}

proof fn lemma_tail_blocks_pos(rem: nat)
    requires
        rem >= 1,
    ensures
        tail_blocks(rem) >= 1,
{
    vstd::arithmetic::div_mod::lemma_fundamental_div_mod(rem as int + 15, 16);
    vstd::arithmetic::div_mod::lemma_mod_bound(rem as int + 15, 16);
}

proof fn lemma_tail_blocks_zero()
    ensures
        tail_blocks(0) == 0,
{
    vstd::arithmetic::div_mod::lemma_fundamental_div_mod_converse(15, 16, 0, 15);
}

proof fn lemma_tail_blocks_step(rem: nat)
    requires
        rem >= 1,
    ensures
        tail_blocks(rem) == 1 + tail_blocks(
            if rem >= 16 {
                (rem - 16) as nat
            } else {
                0
            },
        ),
{
    if rem >= 16 {
        vstd::arithmetic::div_mod::lemma_fundamental_div_mod((rem - 1) as int, 16);
        vstd::arithmetic::div_mod::lemma_mod_bound((rem - 1) as int, 16);
        vstd::arithmetic::div_mod::lemma_fundamental_div_mod_converse(
            rem as int + 15,
            16,
            (rem - 1) as int / 16 + 1,
            (rem - 1) as int % 16,
        );
    } else {
        vstd::arithmetic::div_mod::lemma_fundamental_div_mod_converse(
            rem as int + 15,
            16,
            1,
            (rem - 1) as int,
        );
        lemma_tail_blocks_zero();
    }
}

proof fn lemma_block_index(len: int, i: int)
    requires
        len % 16 == 0,
        0 <= i,
        16 * i + 16 <= len,
    ensures
        i < len / 16,
{
    lemma_fundamental_div_mod(len, 16);
}

/// Database reader over an in-memory byte stream.
pub struct PwsafeReader {
    buf: Vec<u8>,
    pos: usize,
    k: Vec<u8>,
    l: Vec<u8>,
    prev: Vec<u8>,
    acc: Vec<u8>,
    iter: u32,
    done: bool,
    iv0: Ghost<Seq<u8>>,
}

impl PwsafeReader {
    /// Bytes after the 152-byte file header: the ciphertext blocks, the
    /// sentinel, and the trailing tag.
    pub closed spec fn body(self) -> Seq<u8> {
        self.buf@
    }

    /// Index of the next 16-byte block to be read.
    pub closed spec fn cursor(self) -> int {
        self.pos as int
    }

    /// The unwrapped content key.
    pub closed spec fn content_key(self) -> Seq<u8> {
        self.k@
    }

    /// The unwrapped integrity key.
    pub closed spec fn mac_key(self) -> Seq<u8> {
        self.l@
    }

    /// The initialization vector the chain started from.
    pub closed spec fn iv(self) -> Seq<u8> {
        self.iv0@
    }

    /// Payload bytes accumulated for the integrity check so far.
    pub closed spec fn mac_acc(self) -> Seq<u8> {
        self.acc@
    }

    /// The sentinel has been seen; every further read yields the end signal.
    pub closed spec fn finished(self) -> bool {
        self.done
    }

    /// The stored key-stretching iteration count.
    pub closed spec fn iter_count(self) -> u32 {
        self.iter
    }

    /// A whole block stands at index `i`.
    pub open spec fn has_block(self, i: int) -> bool {
        0 <= i && 16 * i + 16 <= self.body().len()
    }

    /// Blocks before the trailing 48 bytes are ciphertext; the rest
    /// (sentinel and tag) are stored verbatim.
    pub closed spec fn is_ct_block(self, i: int) -> bool {
        16 * i < self.body().len() - 48
    }

    /// The value of block `i` as the reader sees it: chained-decrypted in
    /// the ciphertext region, verbatim after it.
    pub closed spec fn block_at(self, i: int) -> Seq<u8> {
        let raw = self.body().subrange(16 * i, 16 * i + 16);
        if self.is_ct_block(i) {
            xor16(
                tf_dec(self.content_key(), raw),
                if i == 0 {
                    self.iv()
                } else {
                    self.body().subrange(16 * i - 16, 16 * i)
                },
            )
        } else {
            raw
        }
    }

    /// All block values, in stream order.
    pub closed spec fn blocks(self) -> Seq<Seq<u8>> {
        Seq::new((self.body().len() / 16) as nat, |i: int| self.block_at(i))
    }

    /// Internal consistency: key sizes, block alignment, and the chaining
    /// state standing at the block the cursor points to.
    pub closed spec fn wf(self) -> bool {
        &&& self.k@.len() == 32
        &&& self.l@.len() == 32
        &&& self.prev@.len() == 16
        &&& self.iv0@.len() == 16
        &&& self.buf@.len() >= 48
        &&& self.buf@.len() % 16 == 0
        &&& 16 * self.pos <= self.buf@.len()
        &&& (16 * self.pos < self.buf@.len() - 48 ==> self.prev@ == (if self.pos == 0 {
            self.iv0@
        } else {
            self.buf@.subrange(16 * self.pos - 16, 16 * self.pos as int)
        }))
    }

    /// The parts of the state that no read ever changes.
    pub open spec fn same_session(self, o: Self) -> bool {
        &&& self.body() == o.body()
        &&& self.content_key() == o.content_key()
        &&& self.mac_key() == o.mac_key()
        &&& self.iv() == o.iv()
        &&& self.iter_count() == o.iter_count()
    }

    /// Opens a database: checks the magic value, derives the master key,
    /// verifies the password, and unwraps the two session keys.
    pub fn new(data: Vec<u8>, password: &[u8]) -> (r: Result<PwsafeReader, Error>)
        ensures
            (match r {
                Ok(rd) => {
                    &&& open_ok(data@, password@)
                    &&& rd.wf()
                    &&& rd.body() == data@.skip(152)
                    &&& rd.iter_count() == le32(data@.subrange(36, 40))
                    &&& rd.content_key() == unwrap2(
                        master_of(data@, password@),
                        data@.subrange(72, 104),
                    )
                    &&& rd.mac_key() == unwrap2(
                        master_of(data@, password@),
                        data@.subrange(104, 136),
                    )
                    &&& rd.iv() == data@.subrange(136, 152)
                    &&& rd.cursor() == 0
                    &&& !rd.finished()
                    &&& rd.mac_acc() == Seq::<u8>::empty()
                },
                Err(e) => {
                    &&& !open_ok(data@, password@)
                    &&& (e == Error::InvalidTag <==> !has_magic(data@))
                    &&& (e == Error::InvalidPassword <==> has_magic(data@) && data@.len() >= 152
                        && !password_ok(data@, password@))
                    &&& (e == Error::Truncated <==> has_magic(data@) && (data@.len() < 152 || (
                    password_ok(data@, password@) && !body_ok(data@))))
                },
            }),
    {
        if data.len() < 4 {
            return Err(Error::InvalidTag);
        }
        let tag = take_range(data.as_slice(), 0, 4);
        let m = magic_bytes();
        if !bytes_eq(tag.as_slice(), m.as_slice()) {
            return Err(Error::InvalidTag);
        }
        if data.len() < 152 {
            return Err(Error::Truncated);
        }
        let salt = take_range(data.as_slice(), 4, 36);
        let iter = read_le32(data[36], data[37], data[38], data[39]);
        proof {
            assert(seq![data@[36], data@[37], data@[38], data@[39]] =~= data@.subrange(36, 40));
        }
        let truehash = take_range(data.as_slice(), 40, 72);
        let wk = take_range(data.as_slice(), 72, 104);
        let wl = take_range(data.as_slice(), 104, 136);
        let iv = take_range(data.as_slice(), 136, 152);
        let master = hash_password(salt.as_slice(), iter, password);
        let h = sha256(master.as_slice());
        if !bytes_eq(h.as_slice(), truehash.as_slice()) {
            return Err(Error::InvalidPassword);
        }
        if data.len() < 200 {
            return Err(Error::Truncated);
        }
        if (data.len() - 152) % 16 != 0 {
            return Err(Error::Truncated);
        }
        let k = ecb_decrypt_pair(&master, &wk);
        let l = ecb_decrypt_pair(&master, &wl);
        let body = take_range(data.as_slice(), 152, data.len());
        proof {
            assert(k@ =~= unwrap2(master_of(data@, password@), data@.subrange(72, 104)));
            assert(l@ =~= unwrap2(master_of(data@, password@), data@.subrange(104, 136)));
            assert(body@ =~= data@.skip(152));
        }
        Ok(
            PwsafeReader {
                buf: body,
                pos: 0,
                k,
                l,
                prev: iv,
                acc: Vec::new(),
                iter,
                done: false,
                iv0: Ghost(data@.subrange(136, 152)),
            },
        )
    }

    /// Reads a field: the type tag and the payload bytes, or the end
    /// signal once the sentinel block is reached (and on every call
    /// thereafter). Payload bytes are fed to the integrity accumulator;
    /// field headers and the sentinel are not.
    #[verifier::loop_isolation(false)]
    pub fn read_field(&mut self) -> (r: Result<Option<(u8, Vec<u8>)>, Error>)
        requires
            old(self).wf(),
        ensures
            final(self).wf(),
            final(self).same_session(*old(self)),
            (if old(self).finished() {
                &&& r == Ok::<Option<(u8, Vec<u8>)>, Error>(None)
                &&& *final(self) == *old(self)
            } else if !old(self).has_block(old(self).cursor()) {
                &&& r == Err::<Option<(u8, Vec<u8>)>, Error>(Error::Truncated)
                &&& final(self).mac_acc() == old(self).mac_acc()
                &&& !final(self).finished()
            } else if old(self).block_at(old(self).cursor()) == sentinel() {
                &&& r == Ok::<Option<(u8, Vec<u8>)>, Error>(None)
                &&& final(self).finished()
                &&& final(self).cursor() == old(self).cursor() + 1
                &&& final(self).mac_acc() == old(self).mac_acc()
            } else {
                let b = old(self).cursor();
                let len = header_len(old(self).block_at(b));
                if 16 * (b + blocks_for(len)) <= old(self).body().len() {
                    match r {
                        Ok(Some(f)) => {
                            &&& f.0 == header_tag(old(self).block_at(b))
                            &&& f.1@ == field_payload(old(self).blocks(), b)
                            &&& f.1@.len() == len
                            &&& final(self).cursor() == b + blocks_for(len)
                            &&& final(self).mac_acc() == old(self).mac_acc() + f.1@
                            &&& !final(self).finished()
                        },
                        _ => false,
                    }
                } else {
                    &&& r == Err::<Option<(u8, Vec<u8>)>, Error>(Error::Truncated)
                    &&& final(self).mac_acc() == old(self).mac_acc()
                    &&& !final(self).finished()
                }
            }),
    {
        let ghost s0 = *self;
        if self.done {
            return Ok(None);
        }
        let blen = self.buf.len();
        if blen - 16 * self.pos < 16 {
            return Err(Error::Truncated);
        }
        let off = 16 * self.pos;
        let raw = take_range(self.buf.as_slice(), off, off + 16);
        let block: Vec<u8>;
        if blen - off > 48 {
            block = cbc_decrypt_block(&self.k, &self.prev, &raw);
            self.prev = raw;
        } else {
            block = raw;
        }
        let ghost b0 = s0.cursor();
        self.pos = self.pos + 1;
        proof {
            assert(block@ == s0.block_at(b0));
            assert(block@.len() == 16);
        }
        let sent = sentinel_bytes();
        if bytes_eq(block.as_slice(), sent.as_slice()) {
            self.done = true;
            return Ok(None);
        }
        let flen32 = read_le32(block[0], block[1], block[2], block[3]);
        let ftag = block[4];
        let ghost blocks = s0.blocks();
        let ghost flen = flen32 as int;
        proof {
            lemma_block_index(blen as int, b0);
            assert(blocks[b0] == block@);
            assert(flen == header_len(s0.block_at(b0)));
            assert(ftag == header_tag(s0.block_at(b0)));
        }
        let mut data: Vec<u8> = Vec::new();
        if flen32 <= 11 {
            let t1 = flen32 as usize;
            push_range(&mut data, block.as_slice(), 5, 5 + t1);
            proof {
                assert(data@ =~= field_payload(blocks, b0));
            }
            push_range(&mut self.acc, data.as_slice(), 0, data.len());
            proof {
                assert(self.acc@ =~= s0.acc@ + data@);
            }
            return Ok(Some((ftag, data)));
        }
        push_range(&mut data, block.as_slice(), 5, 16);
        let mut rem: usize = flen32 as usize - 11;
        proof {
            assert(data@ =~= block@.subrange(5, 16));
            assert(data@ + payload_tail(blocks, b0 + 1, rem as nat) =~= field_payload(blocks, b0));
        }
        while rem > 0
            invariant
                self.buf@ == s0.buf@,
                self.k@ == s0.k@,
                self.l@ == s0.l@,
                self.iv0@ == s0.iv0@,
                self.iter == s0.iter,
                self.done == false,
                self.acc@ == s0.acc@,
                self.prev@.len() == 16,
                16 * self.pos <= blen,
                self.pos >= 1,
                (16 * self.pos < blen - 48 ==> self.prev@ == self.buf@.subrange(
                    16 * self.pos - 16,
                    16 * self.pos as int,
                )),
                rem <= flen - 11,
                data@.len() + rem == flen,
                data@ + payload_tail(blocks, self.pos as int, rem as nat) == field_payload(
                    blocks,
                    b0,
                ),
                blocks_for(flen) == (self.pos - b0) + tail_blocks(rem as nat),
            decreases rem,
        {
            if blen - 16 * self.pos < 16 {
                proof {
                    lemma_tail_blocks_pos(rem as nat);
                }
                return Err(Error::Truncated);
            }
            let off2 = 16 * self.pos;
            let raw2 = take_range(self.buf.as_slice(), off2, off2 + 16);
            let blk: Vec<u8>;
            if blen - off2 > 48 {
                blk = cbc_decrypt_block(&self.k, &self.prev, &raw2);
                self.prev = raw2;
            } else {
                blk = raw2;
            }
            let ghost bi = self.pos as int;
            self.pos = self.pos + 1;
            proof {
                lemma_block_index(blen as int, bi);
                assert(blk@ == s0.block_at(bi));
                assert(blocks[bi] == blk@);
            }
            let t: usize = if rem < 16 {
                rem
            } else {
                16
            };
            let ghost data_before = data@;
            push_range(&mut data, blk.as_slice(), 0, t);
            proof {
                lemma_tail_blocks_step(rem as nat);
                if rem >= 16 {
                    assert(payload_tail(blocks, bi, rem as nat) == blocks[bi].take(16)
                        + payload_tail(blocks, bi + 1, (rem - 16) as nat));
                    assert(blk@.subrange(0, 16) =~= blocks[bi].take(16));
                } else {
                    assert(payload_tail(blocks, bi, rem as nat) == blocks[bi].take(rem as int));
                    assert(blk@.subrange(0, t as int) =~= blocks[bi].take(rem as int));
                    lemma_tail_blocks_zero();
                }
                assert(data@ + payload_tail(blocks, bi + 1, (rem - t) as nat) =~= field_payload(
                    blocks,
                    b0,
                ));
            }
            rem = rem - t;
        }
        proof {
            lemma_tail_blocks_zero();
            assert(data@ =~= field_payload(blocks, b0));
        }
        push_range(&mut self.acc, data.as_slice(), 0, data.len());
        proof {
            assert(self.acc@ =~= s0.acc@ + data@);
        }
        Ok(Some((ftag, data)))
    }

    /// Reads the mandatory leading version field: the first field of the
    /// stream, of type 0x00, with a two-byte little-endian payload.
    pub fn read_version(&mut self) -> (r: Result<u16, Error>)
        requires
            old(self).wf(),
        ensures
            final(self).wf(),
            final(self).same_session(*old(self)),
            (if old(self).finished() {
                &&& r == Err::<u16, Error>(Error::InvalidHeader)
                &&& *final(self) == *old(self)
            } else if !old(self).has_block(old(self).cursor()) {
                &&& r == Err::<u16, Error>(Error::Truncated)
                &&& final(self).mac_acc() == old(self).mac_acc()
            } else if old(self).block_at(old(self).cursor()) == sentinel() {
                &&& r == Err::<u16, Error>(Error::InvalidHeader)
                &&& final(self).finished()
                &&& final(self).mac_acc() == old(self).mac_acc()
            } else {
                let b = old(self).cursor();
                let len = header_len(old(self).block_at(b));
                if 16 * (b + blocks_for(len)) <= old(self).body().len() {
                    let payload = field_payload(old(self).blocks(), b);
                    &&& final(self).cursor() == b + blocks_for(len)
                    &&& final(self).mac_acc() == old(self).mac_acc() + payload
                    &&& !final(self).finished()
                    &&& (if header_tag(old(self).block_at(b)) == 0x00 && len == 2 {
                        r == Ok::<u16, Error>(le16(payload) as u16)
                    } else {
                        r == Err::<u16, Error>(Error::InvalidHeader)
                    })
                } else {
                    &&& r == Err::<u16, Error>(Error::Truncated)
                    &&& final(self).mac_acc() == old(self).mac_acc()
                }
            }),
    {
        match self.read_field() {
            Err(e) => Err(e),
            Ok(None) => Err(Error::InvalidHeader),
            Ok(Some((t, data))) => match PwsafeHeaderField::new(t, data) {
                Ok(PwsafeHeaderField::Version(v)) => Ok(v),
                _ => Err(Error::InvalidHeader),
            },
        }
    }

    /// Checks the trailing integrity tag against the accumulated payload
    /// bytes, in constant time. Call it once, after the last field.
    pub fn verify(&self) -> (r: Result<(), Error>)
        requires
            self.wf(),
        ensures
            (match r {
                Ok(()) => {
                    &&& 16 * self.cursor() + 32 <= self.body().len()
                    &&& self.body().subrange(16 * self.cursor(), 16 * self.cursor() + 32)
                        == hmac_sha256_of(self.mac_key(), self.mac_acc())
                },
                Err(e) => if 16 * self.cursor() + 32 > self.body().len() {
                    e == Error::Truncated
                } else {
                    &&& e == Error::MacError
                    &&& self.body().subrange(16 * self.cursor(), 16 * self.cursor() + 32)
                        != hmac_sha256_of(self.mac_key(), self.mac_acc())
                },
            }),
    {
        let blen = self.buf.len();
        if blen - 16 * self.pos < 32 {
            return Err(Error::Truncated);
        }
        let off = 16 * self.pos;
        let mac = take_range(self.buf.as_slice(), off, off + 32);
        if hmac_verify(&self.l, &self.acc, mac.as_slice()) {
            Ok(())
        } else {
            Err(Error::MacError)
        }
    }

    /// Returns the number of iterations used for key stretching.
    pub fn get_iter(&self) -> (r: u32)
        ensures
            r == self.iter_count(),
    {
        self.iter
    }
}

} // verus!
