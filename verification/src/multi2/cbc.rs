//! MULTI2 in chaining mode.
//!
//! Whole blocks are chained: each plaintext block is XORed with the ciphertext
//! block before it (with the initial vector for the first) and then encrypted.
//! A trailing run of fewer than eight bytes is XORed with the leading bytes of
//! the encrypted chain value, in both directions.

use vstd::prelude::*;

use crate::multi2::cipher;
use crate::multi2::cipher::{core_decrypt, core_encrypt, CoreData};

verus! {

/// A trailing partial block under chain value `chain`, encrypted or decrypted:
/// the two are the same operation.
pub open spec fn tail_masked(
    tail: Seq<u8>,
    chain: CoreData,
    w: Seq<u32>,
    rounds: nat,
) -> Seq<u8> {
    let key_stream = cipher::block_to_be(cipher::encrypted(chain, w, rounds));
    Seq::new(tail.len(), |i: int| tail[i] ^ key_stream[i])
}

/// `plain` encrypted in chaining mode from the initial vector `iv`.
pub open spec fn cbc_encrypted(
    plain: Seq<u8>,
    iv: CoreData,
    w: Seq<u32>,
    rounds: nat,
) -> Seq<u8>
    decreases plain.len(),
{
    if plain.len() < 8 {
        tail_masked(plain, iv, w, rounds)
    } else {
        let mixed = cipher::block_xor(cipher::block_from_be(plain), iv);
        let block = cipher::encrypted(mixed, w, rounds);
        cipher::block_to_be(block) + cbc_encrypted(plain.skip(8), block, w, rounds)
    }
}

/// `coded` decrypted in chaining mode from the initial vector `iv`.
pub open spec fn cbc_decrypted(
    coded: Seq<u8>,
    iv: CoreData,
    w: Seq<u32>,
    rounds: nat,
) -> Seq<u8>
    decreases coded.len(),
{
    if coded.len() < 8 {
        tail_masked(coded, iv, w, rounds)
    } else {
        let block = cipher::block_from_be(coded);
        let clear = cipher::block_xor(cipher::decrypted(block, w, rounds), iv);
        cipher::block_to_be(clear) + cbc_decrypted(coded.skip(8), block, w, rounds)
    }
}

/// Neither direction changes the number of bytes.
pub proof fn law_cbc_preserves_length(bytes: Seq<u8>, iv: CoreData, w: Seq<u32>, rounds: nat)
    ensures
        cbc_encrypted(bytes, iv, w, rounds).len() == bytes.len(),
        cbc_decrypted(bytes, iv, w, rounds).len() == bytes.len(),
    decreases bytes.len(),
{
    if bytes.len() >= 8 {
        let mixed = cipher::block_xor(cipher::block_from_be(bytes), iv);
        let block = cipher::encrypted(mixed, w, rounds);
        law_cbc_preserves_length(bytes.skip(8), block, w, rounds);
        law_cbc_preserves_length(bytes.skip(8), cipher::block_from_be(bytes), w, rounds);
    }
}

proof fn lemma_byte_xor_cancels(x: u8, m: u8)
    by (bit_vector)
    ensures
        (x ^ m) ^ m == x,
{
}

proof fn lemma_block_xor_cancels(a: CoreData, b: CoreData)
    ensures
        cipher::block_xor(cipher::block_xor(a, b), b) == a,
{
    cipher::lemma_xor_cancels(a.l, b.l);
    cipher::lemma_xor_cancels(a.r, b.r);
}

proof fn lemma_tail_mask_cancels(tail: Seq<u8>, chain: CoreData, w: Seq<u32>, rounds: nat)
    ensures
        tail_masked(tail_masked(tail, chain, w, rounds), chain, w, rounds) == tail,
{
    let key_stream = cipher::block_to_be(cipher::encrypted(chain, w, rounds));
    let twice = tail_masked(tail_masked(tail, chain, w, rounds), chain, w, rounds);
    assert forall|i: int| 0 <= i < tail.len() implies twice[i] == tail[i] by {
        lemma_byte_xor_cancels(tail[i], key_stream[i]);
    }
    assert(twice =~= tail);
}

/// A block only looks at its eight bytes, not at what follows them.
proof fn lemma_block_of_prefix(bytes: Seq<u8>, rest: Seq<u8>)
    requires
        bytes.len() == 8,
    ensures
        cipher::block_from_be(bytes + rest) == cipher::block_from_be(bytes),
        (bytes + rest).skip(8) == rest,
{
    assert((bytes + rest).skip(8) =~= rest);
}

/// Encrypting the first block and then decrypting what came of it.
proof fn lemma_coded_block(block: CoreData, iv: CoreData, w: Seq<u32>, rounds: nat)
    ensures
        ({
            let coded = cipher::encrypted(cipher::block_xor(block, iv), w, rounds);
            cipher::block_xor(cipher::decrypted(coded, w, rounds), iv) == block
        }),
{
    cipher::law_block_round_trip(cipher::block_xor(block, iv), w, rounds);
    lemma_block_xor_cancels(block, iv);
}

/// Decrypting the first block and then encrypting what came of it.
proof fn lemma_clear_block(block: CoreData, iv: CoreData, w: Seq<u32>, rounds: nat)
    ensures
        ({
            let clear = cipher::block_xor(cipher::decrypted(block, w, rounds), iv);
            cipher::encrypted(cipher::block_xor(clear, iv), w, rounds) == block
        }),
{
    cipher::law_block_round_trip(block, w, rounds);
    lemma_block_xor_cancels(cipher::decrypted(block, w, rounds), iv);
}

proof fn lemma_encrypt_then_decrypt(bytes: Seq<u8>, iv: CoreData, w: Seq<u32>, rounds: nat)
    ensures
        cbc_decrypted(cbc_encrypted(bytes, iv, w, rounds), iv, w, rounds) == bytes,
    decreases bytes.len(),
{
    if bytes.len() < 8 {
        lemma_tail_mask_cancels(bytes, iv, w, rounds);
    } else {
        let first = bytes.take(8);
        let rest = bytes.skip(8);
        let block = cipher::block_from_be(bytes);
        let coded = cipher::encrypted(cipher::block_xor(block, iv), w, rounds);
        assert(cipher::block_from_be(first) == block);
        cipher::law_block_bytes_round_trip(coded, first);
        lemma_block_of_prefix(
            cipher::block_to_be(coded),
            cbc_encrypted(rest, coded, w, rounds),
        );
        lemma_coded_block(block, iv, w, rounds);
        lemma_encrypt_then_decrypt(rest, coded, w, rounds);
        assert(bytes =~= first + rest);
    }
}

proof fn lemma_decrypt_then_encrypt(bytes: Seq<u8>, iv: CoreData, w: Seq<u32>, rounds: nat)
    ensures
        cbc_encrypted(cbc_decrypted(bytes, iv, w, rounds), iv, w, rounds) == bytes,
    decreases bytes.len(),
{
    if bytes.len() < 8 {
        lemma_tail_mask_cancels(bytes, iv, w, rounds);
    } else {
        let first = bytes.take(8);
        let rest = bytes.skip(8);
        let block = cipher::block_from_be(bytes);
        let clear = cipher::block_xor(cipher::decrypted(block, w, rounds), iv);
        assert(cipher::block_from_be(first) == block);
        cipher::law_block_bytes_round_trip(clear, first);
        lemma_block_of_prefix(
            cipher::block_to_be(clear),
            cbc_decrypted(rest, block, w, rounds),
        );
        lemma_clear_block(block, iv, w, rounds);
        lemma_decrypt_then_encrypt(rest, block, w, rounds);
        assert(bytes =~= first + rest);
    }
}

/// Decrypting what was encrypted gives the plaintext back, and encrypting what
/// was decrypted gives the ciphertext back: for every length, partial tails
/// and the empty buffer among them, every work key, vector and round count.
pub proof fn law_cbc_round_trip(bytes: Seq<u8>, iv: CoreData, w: Seq<u32>, rounds: nat)
    ensures
        cbc_decrypted(cbc_encrypted(bytes, iv, w, rounds), iv, w, rounds) == bytes,
        cbc_encrypted(cbc_decrypted(bytes, iv, w, rounds), iv, w, rounds) == bytes,
{
    lemma_encrypt_then_decrypt(bytes, iv, w, rounds);
    lemma_decrypt_then_encrypt(bytes, iv, w, rounds);
}

/// The chain value left behind after encrypting `plain`, a whole number of
/// blocks: its last ciphertext block, or `iv` where there is none.
pub open spec fn cbc_chain_after(
    plain: Seq<u8>,
    iv: CoreData,
    w: Seq<u32>,
    rounds: nat,
) -> CoreData
    decreases plain.len(),
{
    if plain.len() < 8 {
        iv
    } else {
        cbc_chain_after(
            plain.skip(8),
            cipher::encrypted(cipher::block_xor(cipher::block_from_be(plain), iv), w, rounds),
            w,
            rounds,
        )
    }
}

/// Inside one buffer the blocks are chained: what follows a whole number of
/// blocks is encrypted from the last ciphertext block before it. So whole
/// leading blocks do not depend on what follows them, while a second buffer
/// encrypted on its own, which starts from the vector again, does not continue
/// the first.
pub proof fn law_cbc_chains_inside_a_buffer(
    head: Seq<u8>,
    rest: Seq<u8>,
    iv: CoreData,
    w: Seq<u32>,
    rounds: nat,
)
    requires
        head.len() % 8 == 0,
    ensures
        cbc_encrypted(head + rest, iv, w, rounds) == cbc_encrypted(head, iv, w, rounds)
            + cbc_encrypted(rest, cbc_chain_after(head, iv, w, rounds), w, rounds),
    decreases head.len(),
{
    if head.len() == 0 {
        assert(head + rest =~= rest);
        assert(cbc_encrypted(head, iv, w, rounds) =~= Seq::<u8>::empty());
        assert(Seq::<u8>::empty() + cbc_encrypted(rest, iv, w, rounds) =~= cbc_encrypted(
            rest,
            iv,
            w,
            rounds,
        ));
    } else {
        let mixed = cipher::block_xor(cipher::block_from_be(head), iv);
        let block = cipher::encrypted(mixed, w, rounds);
        assert((head + rest).skip(8) =~= head.skip(8) + rest);
        assert(cipher::block_from_be(head + rest) == cipher::block_from_be(head));
        law_cbc_chains_inside_a_buffer(head.skip(8), rest, block, w, rounds);
        assert(cbc_encrypted(head + rest, iv, w, rounds) =~= cbc_encrypted(head, iv, w, rounds)
            + cbc_encrypted(rest, cbc_chain_after(head, iv, w, rounds), w, rounds));
    }
}

/// Replaces the eight bytes of `buf` from `pos` on by those of `block`.
fn put_block(buf: &mut [u8], pos: usize, block: CoreData)
    requires
        pos + 8 <= old(buf)@.len(),
    ensures
        final(buf)@ == old(buf)@.take(pos as int) + cipher::block_to_be(block) + old(buf)@.skip(
            pos + 8,
        ),
{
    let bytes = block.to_be();
    let ghost before = buf@;
    let len: usize = buf.len();
    for i in 0..8usize
        invariant
            pos + 8 <= before.len() == len,
            buf@.len() == before.len(),
            bytes@ == cipher::block_to_be(block),
            forall|j: int|
                0 <= j < before.len() ==> #[trigger] buf@[j] == if pos <= j < pos + i {
                    bytes@[j - pos]
                } else {
                    before[j]
                },
    {
        buf[pos + i] = bytes[i];
    }
    assert(buf@ =~= before.take(pos as int) + cipher::block_to_be(block) + before.skip(pos + 8));
}

/// XORs the bytes of `buf` from `pos` on with the encrypted chain value.
fn mask_tail(buf: &mut [u8], pos: usize, chain: CoreData, w: &[u32; 8], round: u32)
    requires
        pos <= old(buf)@.len() < pos + 8,
    ensures
        final(buf)@ == old(buf)@.take(pos as int) + tail_masked(
            old(buf)@.skip(pos as int),
            chain,
            w@,
            round as nat,
        ),
{
    let key_stream = core_encrypt(chain, w, round).to_be();
    let ghost before = buf@;
    let end: usize = buf.len();
    for i in pos..end
        invariant
            end == before.len(),
            pos <= end < pos + 8,
            buf@.len() == before.len(),
            key_stream@ == cipher::block_to_be(cipher::encrypted(chain, w@, round as nat)),
            forall|j: int|
                0 <= j < before.len() ==> #[trigger] buf@[j] == if pos <= j < i {
                    before[j] ^ key_stream@[j - pos]
                } else {
                    before[j]
                },
    {
        buf[i] = buf[i] ^ key_stream[i - pos];
    }
    assert(buf@ =~= before.take(pos as int) + tail_masked(
        before.skip(pos as int),
        chain,
        w@,
        round as nat,
    ));
}

/// Encrypting in place goes on behind a block that has been encrypted.
proof fn lemma_encrypt_step(
    before: Seq<u8>,
    after: Seq<u8>,
    pos: int,
    chain: CoreData,
    block: CoreData,
    w: Seq<u32>,
    rounds: nat,
)
    requires
        0 <= pos <= before.len() - 8,
        after == before.take(pos) + cipher::block_to_be(block) + before.skip(pos + 8),
        block == cipher::encrypted(
            cipher::block_xor(cipher::block_from_be(before.subrange(pos, pos + 8)), chain),
            w,
            rounds,
        ),
    ensures
        before.take(pos) + cbc_encrypted(before.skip(pos), chain, w, rounds) == after.take(pos + 8)
            + cbc_encrypted(after.skip(pos + 8), block, w, rounds),
{
    let rest = before.skip(pos);
    let later = cbc_encrypted(after.skip(pos + 8), block, w, rounds);
    assert(before.subrange(pos, pos + 8) =~= rest.take(8));
    assert(cipher::block_from_be(rest.take(8)) == cipher::block_from_be(rest));
    assert(rest.skip(8) =~= after.skip(pos + 8));
    assert(before.take(pos) + cipher::block_to_be(block) =~= after.take(pos + 8));
    assert(before.take(pos) + (cipher::block_to_be(block) + later) =~= (before.take(pos)
        + cipher::block_to_be(block)) + later);
}

/// Decrypting in place goes on behind a block that has been decrypted.
proof fn lemma_decrypt_step(
    before: Seq<u8>,
    after: Seq<u8>,
    pos: int,
    chain: CoreData,
    src: CoreData,
    block: CoreData,
    w: Seq<u32>,
    rounds: nat,
)
    requires
        0 <= pos <= before.len() - 8,
        after == before.take(pos) + cipher::block_to_be(block) + before.skip(pos + 8),
        src == cipher::block_from_be(before.subrange(pos, pos + 8)),
        block == cipher::block_xor(cipher::decrypted(src, w, rounds), chain),
    ensures
        before.take(pos) + cbc_decrypted(before.skip(pos), chain, w, rounds) == after.take(pos + 8)
            + cbc_decrypted(after.skip(pos + 8), src, w, rounds),
{
    let rest = before.skip(pos);
    let later = cbc_decrypted(after.skip(pos + 8), src, w, rounds);
    assert(before.subrange(pos, pos + 8) =~= rest.take(8));
    assert(cipher::block_from_be(rest.take(8)) == cipher::block_from_be(rest));
    assert(rest.skip(8) =~= after.skip(pos + 8));
    assert(before.take(pos) + cipher::block_to_be(block) =~= after.take(pos + 8));
    assert(before.take(pos) + (cipher::block_to_be(block) + later) =~= (before.take(pos)
        + cipher::block_to_be(block)) + later);
}

/// Encrypts `buf` in place, in chaining mode from `iv`.
pub fn encrypt_in_place(buf: &mut [u8], iv: CoreData, w: &[u32; 8], round: u32)
    ensures
        final(buf)@ == cbc_encrypted(old(buf)@, iv, w@, round as nat),
{
    let ghost plain = buf@;
    let len: usize = buf.len();
    let mut chain = iv;
    let mut pos: usize = 0;
    assert(plain.take(0) + cbc_encrypted(plain.skip(0), iv, w@, round as nat) =~= cbc_encrypted(
        plain,
        iv,
        w@,
        round as nat,
    )) by {
        assert(plain.skip(0) =~= plain);
    }
    while len - pos >= 8
        invariant
            pos <= len,
            buf@.len() == len,
            cbc_encrypted(plain, iv, w@, round as nat) == buf@.take(pos as int) + cbc_encrypted(
                buf@.skip(pos as int),
                chain,
                w@,
                round as nat,
            ),
        decreases len - pos,
    {
        let ghost before = buf@;
        let src = CoreData::from_be(&buf[pos..pos + 8]).xor(chain);
        let block = core_encrypt(src, w, round);
        put_block(buf, pos, block);
        proof {
            lemma_encrypt_step(before, buf@, pos as int, chain, block, w@, round as nat);
        }
        chain = block;
        pos += 8;
    }
    mask_tail(buf, pos, chain, w, round);
}

/// Decrypts `buf` in place, in chaining mode from `iv`.
pub fn decrypt_in_place(buf: &mut [u8], iv: CoreData, w: &[u32; 8], round: u32)
    ensures
        final(buf)@ == cbc_decrypted(old(buf)@, iv, w@, round as nat),
{
    let ghost coded = buf@;
    let len: usize = buf.len();
    let mut chain = iv;
    let mut pos: usize = 0;
    assert(coded.take(0) + cbc_decrypted(coded.skip(0), iv, w@, round as nat) =~= cbc_decrypted(
        coded,
        iv,
        w@,
        round as nat,
    )) by {
        assert(coded.skip(0) =~= coded);
    }
    while len - pos >= 8
        invariant
            pos <= len,
            buf@.len() == len,
            cbc_decrypted(coded, iv, w@, round as nat) == buf@.take(pos as int) + cbc_decrypted(
                buf@.skip(pos as int),
                chain,
                w@,
                round as nat,
            ),
        decreases len - pos,
    {
        let ghost before = buf@;
        let src = CoreData::from_be(&buf[pos..pos + 8]);
        let block = core_decrypt(src, w, round).xor(chain);
        put_block(buf, pos, block);
        proof {
            lemma_decrypt_step(before, buf@, pos as int, chain, src, block, w@, round as nat);
        }
        chain = src;
        pos += 8;
    }
    mask_tail(buf, pos, chain, w, round);
}

} // verus!
