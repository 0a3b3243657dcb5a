//! Byte-level model of the container format: little-endian integers, the
//! fixed magic and sentinel values, the field framing rules, and the
//! block-chained cipher stream.

use vstd::prelude::*;
use vstd::arithmetic::div_mod::{
    lemma_fundamental_div_mod, lemma_fundamental_div_mod_converse, lemma_mod_multiples_basic,
};
use crate::crypto::tf_enc;

verus! {

/// Little-endian value of the first two bytes.
pub open spec fn le16(b: Seq<u8>) -> int {
    b[0] + 0x100 * b[1]
}

/// Little-endian value of the first four bytes.
pub open spec fn le32(b: Seq<u8>) -> int {
    b[0] + 0x100 * b[1] + 0x10000 * b[2] + 0x1000000 * b[3]
}

/// The four magic bytes (ASCII "PWS3") that open every database file.
pub open spec fn magic() -> Seq<u8> {
    seq![0x50u8, 0x57u8, 0x53u8, 0x33u8]
}

/// The sentinel block (ASCII "PWS3-EOFPWS3-EOF") that ends the field
/// stream. It is stored verbatim, never encrypted.
pub open spec fn sentinel() -> Seq<u8> {
    seq![
        0x50u8, 0x57u8, 0x53u8, 0x33u8, 0x2du8, 0x45u8, 0x4fu8, 0x46u8,
        0x50u8, 0x57u8, 0x53u8, 0x33u8, 0x2du8, 0x45u8, 0x4fu8, 0x46u8,
    ]
}

/// Bytewise exclusive or of two 16-byte blocks.
pub open spec fn xor16(a: Seq<u8>, b: Seq<u8>) -> Seq<u8> {
    Seq::new(16, |i: int| a[i] ^ b[i])
}

/// Number of 16-byte blocks a field with a payload of `len` bytes
/// occupies: the header block carries the first 11 payload bytes, and
/// every continuation block carries up to 16 more.
pub open spec fn blocks_for(len: int) -> int {
    if len <= 11 {
        1
    } else {
        1 + (len - 11 + 15) / 16
    }
}

/// The 16-byte blocks of a byte sequence, in order.
pub open spec fn blocks_of(bytes: Seq<u8>) -> Seq<Seq<u8>> {
    Seq::new((bytes.len() / 16) as nat, |i: int| bytes.subrange(16 * i, 16 * i + 16))
}

/// Payload bytes still owed after the header block: `rem` bytes taken
/// from the blocks starting at index `b`, up to 16 from each.
pub open spec fn payload_tail(blocks: Seq<Seq<u8>>, b: int, rem: nat) -> Seq<u8>
    decreases rem,
{
    if rem == 0 {
        Seq::empty()
    } else if rem < 16 {
        blocks[b].take(rem as int)
    } else {
        blocks[b].take(16) + payload_tail(blocks, b + 1, (rem - 16) as nat)
    }
}

/// Declared payload length in a field header block.
pub open spec fn header_len(hdr: Seq<u8>) -> int {
    le32(hdr)
}

/// Type tag in a field header block.
pub open spec fn header_tag(hdr: Seq<u8>) -> u8 {
    hdr[4]
}

/// The payload of the field whose header block stands at index `b`:
/// up to 11 bytes out of the header block itself, the rest out of the
/// following blocks.
pub open spec fn field_payload(blocks: Seq<Seq<u8>>, b: int) -> Seq<u8> {
    let len = header_len(blocks[b]);
    if len <= 11 {
        blocks[b].subrange(5, 5 + len)
    } else {
        blocks[b].subrange(5, 16) + payload_tail(blocks, b + 1, (len - 11) as nat)
    }
}

/// `bytes` is the plaintext of one framed field: a four-byte
/// little-endian length, the type tag, the payload, and padding up to
/// the 16-byte boundary. The padding bytes are left unconstrained: the
/// writer fills them with random bytes.
pub open spec fn is_frame(bytes: Seq<u8>, tag: u8, data: Seq<u8>) -> bool {
    &&& bytes.len() == 16 * blocks_for(data.len() as int)
    &&& le32(bytes) == data.len()
    &&& bytes[4] == tag
    &&& bytes.subrange(5, 5 + data.len() as int) == data
}

/// Ciphertext of `pt` (whole 16-byte blocks) under block chaining: each
/// plaintext block is xor-ed with the previous ciphertext block
/// (initially `prev`) and then sent through the cipher keyed by `k`.
pub open spec fn cbc_enc_seq(k: Seq<u8>, prev: Seq<u8>, pt: Seq<u8>) -> Seq<u8>
    decreases pt.len(),
{
    if pt.len() < 16 {
        Seq::empty()
    } else {
        let c = tf_enc(k, xor16(pt.take(16), prev));
        c + cbc_enc_seq(k, c, pt.skip(16))
    }
}

/// The chaining state after encrypting `pt`: the last ciphertext block,
/// or `prev` itself when `pt` holds no whole block.
pub open spec fn cbc_prev(k: Seq<u8>, prev: Seq<u8>, pt: Seq<u8>) -> Seq<u8>
    decreases pt.len(),
{
    if pt.len() < 16 {
        prev
    } else {
        cbc_prev(k, tf_enc(k, xor16(pt.take(16), prev)), pt.skip(16))
    }
}

/// Number of whole blocks a payload tail of `rem` bytes spans.
pub open spec fn tail_blocks(rem: nat) -> int {
    (rem + 15) as int / 16
}

proof fn lemma_div16_step(a: int)
    requires
        a >= 0,
    ensures
        (a + 16) / 16 == a / 16 + 1,
{
    lemma_fundamental_div_mod(a, 16);
    lemma_fundamental_div_mod_converse(a + 16, 16, a / 16 + 1, a % 16);
}

proof fn lemma_payload_tail_bytes(blocks: Seq<Seq<u8>>, b: int, bytes: Seq<u8>, k: int, rem: nat)
    requires
        0 <= b,
        0 <= k,
        bytes.len() % 16 == 0,
        16 * (k + tail_blocks(rem)) <= bytes.len(),
        b + tail_blocks(rem) <= blocks.len(),
        forall|j: int|
            0 <= j < tail_blocks(rem) ==> blocks[b + j] == #[trigger] blocks_of(bytes)[k + j],
    ensures
        payload_tail(blocks, b, rem) == bytes.subrange(16 * k, 16 * k + rem),
    decreases rem,
{
    if rem == 0 {
        assert(payload_tail(blocks, b, rem) =~= bytes.subrange(16 * k, 16 * k + rem));
    } else if rem < 16 {
        assert(tail_blocks(rem) == 1);
        assert(blocks[b + 0] == blocks_of(bytes)[k + 0]);
        assert(blocks_of(bytes)[k] == bytes.subrange(16 * k, 16 * k + 16));
        assert(payload_tail(blocks, b, rem) =~= bytes.subrange(16 * k, 16 * k + rem));
    } else {
        lemma_div16_step(rem - 16 + 15);
        assert(tail_blocks(rem) == 1 + tail_blocks((rem - 16) as nat));
        assert(blocks[b + 0] == blocks_of(bytes)[k + 0]);
        assert(blocks_of(bytes)[k] == bytes.subrange(16 * k, 16 * k + 16));
        assert(blocks[b].take(16) =~= bytes.subrange(16 * k, 16 * k + 16));
        assert forall|j: int| 0 <= j < tail_blocks((rem - 16) as nat) implies blocks[(b + 1) + j]
            == #[trigger] blocks_of(bytes)[(k + 1) + j] by {
            assert(blocks[b + (j + 1)] == blocks_of(bytes)[k + (j + 1)]);
        }
        lemma_payload_tail_bytes(blocks, b + 1, bytes, k + 1, (rem - 16) as nat);
        assert(payload_tail(blocks, b, rem) =~= bytes.subrange(16 * k, 16 * k + rem));
    }
}

/// Unframing inverts framing: when the blocks starting at index `b` hold
/// the framed bytes of a field, the field read back from them has the
/// written tag, the written length, and exactly the written payload —
/// whatever bytes pad the final block.
pub proof fn lemma_frame_roundtrip(
    blocks: Seq<Seq<u8>>,
    b: int,
    tag: u8,
    data: Seq<u8>,
    bytes: Seq<u8>,
)
    requires
        data.len() <= 0xffffffff,
        is_frame(bytes, tag, data),
        0 <= b,
        b + blocks_for(data.len() as int) <= blocks.len(),
        forall|j: int|
            0 <= j < blocks_for(data.len() as int) ==> blocks[b + j] == #[trigger] blocks_of(
                bytes,
            )[j],
    ensures
        header_tag(blocks[b]) == tag,
        header_len(blocks[b]) == data.len(),
        field_payload(blocks, b) == data,
{
    let len = data.len() as int;
    lemma_mod_multiples_basic(blocks_for(len), 16);
    assert(bytes.len() % 16 == 0);
    assert(blocks[b + 0] == blocks_of(bytes)[0]);
    assert(blocks_of(bytes)[0] == bytes.subrange(0, 16));
    assert(header_len(blocks[b]) == le32(bytes));
    assert(header_tag(blocks[b]) == bytes[4]);
    if len <= 11 {
        assert(blocks[b].subrange(5, 5 + len) =~= bytes.subrange(5, 5 + len));
    } else {
        assert(blocks[b].subrange(5, 16) =~= bytes.subrange(5, 16));
        assert(tail_blocks((len - 11) as nat) == blocks_for(len) - 1);
        assert forall|j: int| 0 <= j < tail_blocks((len - 11) as nat) implies blocks[(b + 1) + j]
            == #[trigger] blocks_of(bytes)[1 + j] by {
            assert(blocks[b + (j + 1)] == blocks_of(bytes)[j + 1]);
        }
        lemma_payload_tail_bytes(blocks, b + 1, bytes, 1, (len - 11) as nat);
        assert(payload_tail(blocks, b + 1, (len - 11) as nat) == bytes.subrange(16, 16 + (len
            - 11)));
        assert(field_payload(blocks, b) =~= bytes.subrange(5, 5 + len));
    }
}

/// The `(tag, payload)` pairs read back from `blocks`, starting at index
/// `b`, one field after another, up to the first header position that
/// holds the sentinel (or runs past the available blocks).
pub open spec fn parse_fields(blocks: Seq<Seq<u8>>, b: int) -> Seq<(u8, Seq<u8>)>
    decreases blocks.len() - b,
{
    if b >= blocks.len() || blocks[b] == sentinel() {
        Seq::empty()
    } else {
        let step = blocks_for(header_len(blocks[b]));
        if step < 1 || b + step > blocks.len() {
            Seq::empty()
        } else {
            seq![(header_tag(blocks[b]), field_payload(blocks, b))] + parse_fields(
                blocks,
                b + step,
            )
        }
    }
}

proof fn lemma_blocks_for_pos(len: int)
    requires
        len >= 0,
    ensures
        blocks_for(len) >= 1,
{
    if len > 11 {
        lemma_fundamental_div_mod(len + 4, 16);
        vstd::arithmetic::div_mod::lemma_mod_bound(len + 4, 16);
    }
}

/// Unframing inverts framing for a whole field list: when the blocks
/// from index `b` on hold the frames of `fields`, one after another,
/// followed by the sentinel block, then reading fields back until the
/// sentinel yields exactly `fields`, tags and payloads alike — whatever
/// bytes pad each final block. (A frame whose header block happens to
/// equal the sentinel would end the stream early, so those are left out.)
pub proof fn lemma_frames_parse_back(
    blocks: Seq<Seq<u8>>,
    b: int,
    fields: Seq<(u8, Seq<u8>)>,
    frames: Seq<Seq<u8>>,
)
    requires
        0 <= b,
        frames.len() == fields.len(),
        forall|i: int| 0 <= i < fields.len() ==> (#[trigger] fields[i]).1.len() <= 0xffffffff,
        forall|i: int|
            0 <= i < frames.len() ==> is_frame(#[trigger] frames[i], fields[i].0, fields[i].1),
        forall|i: int| 0 <= i < frames.len() ==> (#[trigger] frames[i]).subrange(0, 16)
            != sentinel(),
        ({
            let fb = frames.map_values(|f: Seq<u8>| blocks_of(f)).flatten();
            &&& b + fb.len() < blocks.len()
            &&& (forall|j: int| 0 <= j < fb.len() ==> blocks[b + j] == #[trigger] fb[j])
            &&& blocks[b + fb.len()] == sentinel()
        }),
    ensures
        parse_fields(blocks, b) == fields,
    decreases frames.len(),
{
    let fb = frames.map_values(|f: Seq<u8>| blocks_of(f)).flatten();
    if frames.len() == 0 {
        assert(fb =~= Seq::<Seq<u8>>::empty());
        assert(blocks[b] == sentinel());
        assert(parse_fields(blocks, b) =~= fields);
    } else {
        let f0 = frames[0];
        let tag0 = fields[0].0;
        let data0 = fields[0].1;
        let bf = blocks_for(data0.len() as int);
        lemma_blocks_for_pos(data0.len() as int);
        assert(is_frame(f0, tag0, data0));
        assert(f0.len() == 16 * bf);
        lemma_fundamental_div_mod_converse(16 * bf, 16, bf, 0);
        assert(blocks_of(f0).len() == bf);
        let mapped = frames.map_values(|f: Seq<u8>| blocks_of(f));
        assert(mapped[0] == blocks_of(f0));
        let tailmapped = frames.drop_first().map_values(|f: Seq<u8>| blocks_of(f));
        assert(mapped.drop_first() =~= tailmapped);
        assert(fb =~= blocks_of(f0) + tailmapped.flatten());
        let tailfb = tailmapped.flatten();
        // the single-field inverse at position b
        assert forall|j: int| 0 <= j < bf implies blocks[b + j] == #[trigger] blocks_of(f0)[j] by {
            assert(blocks[b + j] == fb[j]);
        }
        lemma_frame_roundtrip(blocks, b, tag0, data0, f0);
        // the header block of the first frame is not the sentinel
        assert(blocks[b + 0] == blocks_of(f0)[0]);
        assert(blocks_of(f0)[0] =~= f0.subrange(0, 16));
        assert(blocks[b] != sentinel());
        // the remaining frames parse back from position b + bf
        assert forall|j: int| 0 <= j < tailfb.len() implies blocks[(b + bf) + j]
            == #[trigger] tailfb[j] by {
            assert(fb[bf + j] == tailfb[j]);
            assert(blocks[b + (bf + j)] == fb[bf + j]);
        }
        assert(blocks[(b + bf) + tailfb.len()] == sentinel());
        assert forall|i: int| 0 <= i < frames.drop_first().len() implies is_frame(
            #[trigger] frames.drop_first()[i],
            fields.drop_first()[i].0,
            fields.drop_first()[i].1,
        ) by {
            assert(frames[i + 1] == frames.drop_first()[i]);
            assert(fields[i + 1] == fields.drop_first()[i]);
            assert(is_frame(frames[i + 1], fields[i + 1].0, fields[i + 1].1));
        }
        assert forall|i: int| 0 <= i < frames.drop_first().len() implies (
        #[trigger] frames.drop_first()[i]).subrange(0, 16) != sentinel() by {
            assert(frames[i + 1] == frames.drop_first()[i]);
            assert(frames[i + 1].subrange(0, 16) != sentinel());
        }
        assert forall|i: int| 0 <= i < fields.drop_first().len() implies (
        #[trigger] fields.drop_first()[i]).1.len() <= 0xffffffff by {
            assert(fields[i + 1] == fields.drop_first()[i]);
        }
        lemma_frames_parse_back(blocks, b + bf, fields.drop_first(), frames.drop_first());
        assert(parse_fields(blocks, b) =~= seq![(tag0, field_payload(blocks, b))]
            + parse_fields(blocks, b + bf));
        assert(parse_fields(blocks, b) =~= fields);
    }
}

/// Appending one whole block to the plaintext extends the chained
/// ciphertext by exactly one block, fed from the current chaining state.
pub proof fn lemma_cbc_enc_snoc(k: Seq<u8>, prev: Seq<u8>, pt: Seq<u8>, blk: Seq<u8>)
    requires
        pt.len() % 16 == 0,
        blk.len() == 16,
    ensures
        cbc_enc_seq(k, prev, pt + blk) == cbc_enc_seq(k, prev, pt) + tf_enc(
            k,
            xor16(blk, cbc_prev(k, prev, pt)),
        ),
        cbc_prev(k, prev, pt + blk) == tf_enc(k, xor16(blk, cbc_prev(k, prev, pt))),
    decreases pt.len(),
{
    if pt.len() == 0 {
        assert(pt + blk =~= blk);
        assert(blk.take(16) =~= blk);
        assert(blk.skip(16) =~= Seq::<u8>::empty());
        let c = tf_enc(k, xor16(blk.take(16), prev));
        assert(cbc_enc_seq(k, c, blk.skip(16)) =~= Seq::<u8>::empty());
        assert(cbc_prev(k, c, blk.skip(16)) == c);
        assert(cbc_enc_seq(k, prev, blk) =~= c);
        assert(cbc_prev(k, prev, blk) == c);
        assert(cbc_enc_seq(k, prev, pt) =~= Seq::<u8>::empty());
        assert(cbc_prev(k, prev, pt) == prev);
        assert(cbc_enc_seq(k, prev, pt) + tf_enc(k, xor16(blk, cbc_prev(k, prev, pt))) =~= c);
        assert(cbc_enc_seq(k, prev, pt + blk) =~= cbc_enc_seq(k, prev, pt) + tf_enc(
            k,
            xor16(blk, cbc_prev(k, prev, pt)),
        ));
    } else {
        let c = tf_enc(k, xor16(pt.take(16), prev));
        assert((pt + blk).take(16) =~= pt.take(16));
        assert((pt + blk).skip(16) =~= pt.skip(16) + blk);
        lemma_cbc_enc_snoc(k, c, pt.skip(16), blk);
        assert(cbc_enc_seq(k, prev, pt + blk) =~= cbc_enc_seq(k, prev, pt) + tf_enc(
            k,
            xor16(blk, cbc_prev(k, prev, pt)),
        ));
    }
}

} // verus!
