//! The MULTI2 block cipher: 64-bit blocks under an eight-word work key.
//!
//! A block is two 32-bit halves. Each of the four keyed steps XORs one half
//! with a function of the other half and of key words, so each step undoes
//! itself. One round applies eight steps with the eight words of the work key;
//! decryption applies them in the opposite order.

use vstd::prelude::*;

verus! {

/// One 64-bit block as two halves: `l` is the big-endian word of bytes 0 to 3,
/// `r` that of bytes 4 to 7.
#[derive(Clone, Copy, PartialEq, Eq, Debug)]
pub struct CoreData {
    pub l: u32,
    pub r: u32,
}

/// The 32-bit word whose big-endian bytes are `b0`, `b1`, `b2`, `b3`.
pub open spec fn word_from_be(b0: u8, b1: u8, b2: u8, b3: u8) -> u32 {
    ((b0 as u32) << 24) | ((b1 as u32) << 16) | ((b2 as u32) << 8) | (b3 as u32)
}

/// The block held by the first eight of `bytes`.
pub open spec fn block_from_be(bytes: Seq<u8>) -> CoreData {
    CoreData {
        l: word_from_be(bytes[0], bytes[1], bytes[2], bytes[3]),
        r: word_from_be(bytes[4], bytes[5], bytes[6], bytes[7]),
    }
}

/// The eight big-endian bytes of a block.
pub open spec fn block_to_be(block: CoreData) -> Seq<u8> {
    seq![
        (block.l >> 24) as u8,
        (block.l >> 16) as u8,
        (block.l >> 8) as u8,
        block.l as u8,
        (block.r >> 24) as u8,
        (block.r >> 16) as u8,
        (block.r >> 8) as u8,
        block.r as u8,
    ]
}

/// Both halves XORed.
pub open spec fn block_xor(a: CoreData, b: CoreData) -> CoreData {
    CoreData { l: a.l ^ b.l, r: a.r ^ b.r }
}

/// `x` with its bits rotated left by `n` places.
pub open spec fn rotated_left(x: u32, n: u32) -> u32 {
    (x << n) | (x >> ((32 - n) as u32))
}

/// The unkeyed step: the left half goes into the right one.
pub open spec fn pi1_step(src: CoreData) -> CoreData {
    CoreData { l: src.l, r: src.r ^ src.l }
}

/// What the second step XORs into the left half.
pub open spec fn pi2_mask(r: u32, a: u32) -> u32 {
    let t0 = r.wrapping_add(a);
    let t1 = rotated_left(t0, 1).wrapping_add(t0).wrapping_sub(1);
    rotated_left(t1, 4) ^ t1
}

/// The second step, keyed by one word.
pub open spec fn pi2_step(src: CoreData, a: u32) -> CoreData {
    CoreData { l: src.l ^ pi2_mask(src.r, a), r: src.r }
}

/// What the third step XORs into the right half.
pub open spec fn pi3_mask(l: u32, a: u32, b: u32) -> u32 {
    let t0 = l.wrapping_add(a);
    let t1 = rotated_left(t0, 2).wrapping_add(t0).wrapping_add(1);
    let t2 = rotated_left(t1, 8) ^ t1;
    let t3 = t2.wrapping_add(b);
    let t4 = rotated_left(t3, 1).wrapping_sub(t3);
    rotated_left(t4, 16) ^ (t4 | l)
}

/// The third step, keyed by two words.
pub open spec fn pi3_step(src: CoreData, a: u32, b: u32) -> CoreData {
    CoreData { l: src.l, r: src.r ^ pi3_mask(src.l, a, b) }
}

/// What the fourth step XORs into the left half.
pub open spec fn pi4_mask(r: u32, a: u32) -> u32 {
    let t0 = r.wrapping_add(a);
    rotated_left(t0, 2).wrapping_add(t0).wrapping_add(1)
}

/// The fourth step, keyed by one word.
pub open spec fn pi4_step(src: CoreData, a: u32) -> CoreData {
    CoreData { l: src.l ^ pi4_mask(src.r, a), r: src.r }
}

/// The work key that a 64-bit data key gives under a 256-bit system key: the
/// data key runs through nine steps keyed by the system key, and each step from
/// the second on contributes the half it changed.
pub open spec fn schedule(sys: Seq<u32>, data_key: CoreData) -> Seq<u32> {
    let b1 = pi1_step(data_key);
    let b2 = pi2_step(b1, sys[0]);
    let b3 = pi3_step(b2, sys[1], sys[2]);
    let b4 = pi4_step(b3, sys[3]);
    let b5 = pi1_step(b4);
    let b6 = pi2_step(b5, sys[4]);
    let b7 = pi3_step(b6, sys[5], sys[6]);
    let b8 = pi4_step(b7, sys[7]);
    let b9 = pi1_step(b8);
    seq![b2.l, b3.r, b4.l, b5.r, b6.l, b7.r, b8.l, b9.r]
}

/// One encryption round under work key `w`.
pub open spec fn encrypt_round(d: CoreData, w: Seq<u32>) -> CoreData {
    let d1 = pi4_step(pi3_step(pi2_step(pi1_step(d), w[0]), w[1], w[2]), w[3]);
    pi4_step(pi3_step(pi2_step(pi1_step(d1), w[4]), w[5], w[6]), w[7])
}

/// One decryption round under work key `w`.
pub open spec fn decrypt_round(d: CoreData, w: Seq<u32>) -> CoreData {
    let d1 = pi1_step(pi2_step(pi3_step(pi4_step(d, w[7]), w[5], w[6]), w[4]));
    pi1_step(pi2_step(pi3_step(pi4_step(d1, w[3]), w[1], w[2]), w[0]))
}

/// A block after `rounds` encryption rounds.
pub open spec fn encrypted(d: CoreData, w: Seq<u32>, rounds: nat) -> CoreData
    decreases rounds,
{
    if rounds == 0 {
        d
    } else {
        encrypt_round(encrypted(d, w, (rounds - 1) as nat), w)
    }
}

/// A block after `rounds` decryption rounds.
pub open spec fn decrypted(d: CoreData, w: Seq<u32>, rounds: nat) -> CoreData
    decreases rounds,
{
    if rounds == 0 {
        d
    } else {
        decrypt_round(decrypted(d, w, (rounds - 1) as nat), w)
    }
}

/// XORing twice with the same word changes nothing.
pub proof fn lemma_xor_cancels(x: u32, m: u32)
    by (bit_vector)
    ensures
        (x ^ m) ^ m == x,
{
}

/// Each of the four steps undoes itself, whatever the key words.
pub proof fn law_steps_are_involutions(d: CoreData, a: u32, b: u32)
    ensures
        pi1_step(pi1_step(d)) == d,
        pi2_step(pi2_step(d, a), a) == d,
        pi3_step(pi3_step(d, a, b), a, b) == d,
        pi4_step(pi4_step(d, a), a) == d,
{
    lemma_xor_cancels(d.r, d.l);
    lemma_xor_cancels(d.l, pi2_mask(d.r, a));
    lemma_xor_cancels(d.r, pi3_mask(d.l, a, b));
    lemma_xor_cancels(d.l, pi4_mask(d.r, a));
}

/// A decryption round undoes an encryption round and the other way round.
pub proof fn law_rounds_are_inverse(d: CoreData, w: Seq<u32>)
    ensures
        decrypt_round(encrypt_round(d, w), w) == d,
        encrypt_round(decrypt_round(d, w), w) == d,
{
    let e1 = pi1_step(d);
    let e2 = pi2_step(e1, w[0]);
    let e3 = pi3_step(e2, w[1], w[2]);
    let e4 = pi4_step(e3, w[3]);
    let e5 = pi1_step(e4);
    let e6 = pi2_step(e5, w[4]);
    let e7 = pi3_step(e6, w[5], w[6]);
    law_steps_are_involutions(e7, w[7], 0);
    law_steps_are_involutions(e6, w[5], w[6]);
    law_steps_are_involutions(e5, w[4], 0);
    law_steps_are_involutions(e4, 0, 0);
    law_steps_are_involutions(e3, w[3], 0);
    law_steps_are_involutions(e2, w[1], w[2]);
    law_steps_are_involutions(e1, w[0], 0);
    law_steps_are_involutions(d, w[7], 0);
    let d1 = pi4_step(d, w[7]);
    let d2 = pi3_step(d1, w[5], w[6]);
    let d3 = pi2_step(d2, w[4]);
    let d4 = pi1_step(d3);
    let d5 = pi4_step(d4, w[3]);
    let d6 = pi3_step(d5, w[1], w[2]);
    let d7 = pi2_step(d6, w[0]);
    law_steps_are_involutions(d1, w[5], w[6]);
    law_steps_are_involutions(d2, w[4], 0);
    law_steps_are_involutions(d3, 0, 0);
    law_steps_are_involutions(d4, w[3], 0);
    law_steps_are_involutions(d5, w[1], w[2]);
    law_steps_are_involutions(d6, w[0], 0);
    law_steps_are_involutions(d7, 0, 0);
}

proof fn lemma_encrypted_first_round(d: CoreData, w: Seq<u32>, rounds: nat)
    ensures
        encrypted(d, w, rounds + 1) == encrypted(encrypt_round(d, w), w, rounds),
    decreases rounds,
{
    reveal_with_fuel(encrypted, 2);
    if rounds > 0 {
        lemma_encrypted_first_round(d, w, (rounds - 1) as nat);
    }
}

proof fn lemma_decrypted_first_round(d: CoreData, w: Seq<u32>, rounds: nat)
    ensures
        decrypted(d, w, rounds + 1) == decrypted(decrypt_round(d, w), w, rounds),
    decreases rounds,
{
    reveal_with_fuel(decrypted, 2);
    if rounds > 0 {
        lemma_decrypted_first_round(d, w, (rounds - 1) as nat);
    }
}

/// Block decryption and encryption are inverse to each other, for every work
/// key and every round count.
pub proof fn law_block_round_trip(d: CoreData, w: Seq<u32>, rounds: nat)
    ensures
        decrypted(encrypted(d, w, rounds), w, rounds) == d,
        encrypted(decrypted(d, w, rounds), w, rounds) == d,
    decreases rounds,
{
    if rounds > 0 {
        let fewer = (rounds - 1) as nat;
        law_block_round_trip(d, w, fewer);
        law_rounds_are_inverse(encrypted(d, w, fewer), w);
        lemma_decrypted_first_round(encrypted(d, w, rounds), w, fewer);
        law_rounds_are_inverse(decrypted(d, w, fewer), w);
        lemma_encrypted_first_round(decrypted(d, w, rounds), w, fewer);
    }
}

/// A block's bytes give back the block, and eight bytes give back themselves.
pub proof fn law_block_bytes_round_trip(block: CoreData, bytes: Seq<u8>)
    requires
        bytes.len() == 8,
    ensures
        block_from_be(block_to_be(block)) == block,
        block_to_be(block_from_be(bytes)) == bytes,
{
    lemma_word_bytes(block.l);
    lemma_word_bytes(block.r);
    lemma_bytes_word(bytes[0], bytes[1], bytes[2], bytes[3]);
    lemma_bytes_word(bytes[4], bytes[5], bytes[6], bytes[7]);
    assert(block_to_be(block_from_be(bytes)) =~= bytes);
}

proof fn lemma_word_bytes(x: u32)
    ensures
        word_from_be((x >> 24) as u8, (x >> 16) as u8, (x >> 8) as u8, x as u8) == x,
{
    assert((((x >> 24) as u8) as u32) << 24 | (((x >> 16) as u8) as u32) << 16 | (((x
        >> 8) as u8) as u32) << 8 | ((x as u8) as u32) == x) by (bit_vector);
}

proof fn lemma_bytes_word(b0: u8, b1: u8, b2: u8, b3: u8)
    ensures
        (word_from_be(b0, b1, b2, b3) >> 24) as u8 == b0,
        (word_from_be(b0, b1, b2, b3) >> 16) as u8 == b1,
        (word_from_be(b0, b1, b2, b3) >> 8) as u8 == b2,
        word_from_be(b0, b1, b2, b3) as u8 == b3,
{
    let x = word_from_be(b0, b1, b2, b3);
    assert((x >> 24) as u8 == b0 && (x >> 16) as u8 == b1 && (x >> 8) as u8 == b2 && x as u8 == b3)
        by (bit_vector)
        requires
            x == ((b0 as u32) << 24) | ((b1 as u32) << 16) | ((b2 as u32) << 8) | (b3 as u32),
    ;
}

impl CoreData {
    /// The block held by the first eight of `bytes`.
    pub fn from_be(bytes: &[u8]) -> (block: Self)
        requires
            8 <= bytes@.len(),
        ensures
            block == block_from_be(bytes@),
    {
        CoreData {
            l: word(bytes[0], bytes[1], bytes[2], bytes[3]),
            r: word(bytes[4], bytes[5], bytes[6], bytes[7]),
        }
    }

    /// The eight big-endian bytes of the block.
    pub fn to_be(self) -> (bytes: [u8; 8])
        ensures
            bytes@ == block_to_be(self),
    {
        let bytes: [u8; 8] = [
            (self.l >> 24) as u8,
            (self.l >> 16) as u8,
            (self.l >> 8) as u8,
            self.l as u8,
            (self.r >> 24) as u8,
            (self.r >> 16) as u8,
            (self.r >> 8) as u8,
            self.r as u8,
        ];
        assert(bytes@ =~= block_to_be(self));
        bytes
    }

    /// Both halves XORed with those of `other`.
    pub fn xor(self, other: CoreData) -> (block: Self)
        ensures
            block == block_xor(self, other),
    {
        CoreData { l: self.l ^ other.l, r: self.r ^ other.r }
    }
}

impl Default for CoreData {
    fn default() -> (block: Self)
        ensures
            block == (CoreData { l: 0, r: 0 }),
    {
        CoreData { l: 0, r: 0 }
    }
}

/// The 32-bit word whose big-endian bytes are `b0`, `b1`, `b2`, `b3`.
pub fn word(b0: u8, b1: u8, b2: u8, b3: u8) -> (value: u32)
    ensures
        value == word_from_be(b0, b1, b2, b3),
{
    ((b0 as u32) << 24) | ((b1 as u32) << 16) | ((b2 as u32) << 8) | (b3 as u32)
}

fn rotate_left(x: u32, n: u32) -> (rotated: u32)
    requires
        0 < n < 32,
    ensures
        rotated == rotated_left(x, n),
{
    (x << n) | (x >> (32 - n))
}

/// The unkeyed step.
pub fn pi1(src: CoreData) -> (dst: CoreData)
    ensures
        dst == pi1_step(src),
{
    CoreData { l: src.l, r: src.r ^ src.l }
}

/// The second step, keyed by one word.
pub fn pi2(src: CoreData, a: u32) -> (dst: CoreData)
    ensures
        dst == pi2_step(src, a),
{
    let t0: u32 = src.r.wrapping_add(a);
    let t1: u32 = rotate_left(t0, 1).wrapping_add(t0).wrapping_sub(1);
    let t2: u32 = rotate_left(t1, 4) ^ t1;
    CoreData { l: src.l ^ t2, r: src.r }
}

/// The third step, keyed by two words.
pub fn pi3(src: CoreData, a: u32, b: u32) -> (dst: CoreData)
    ensures
        dst == pi3_step(src, a, b),
{
    let t0: u32 = src.l.wrapping_add(a);
    let t1: u32 = rotate_left(t0, 2).wrapping_add(t0).wrapping_add(1);
    let t2: u32 = rotate_left(t1, 8) ^ t1;
    let t3: u32 = t2.wrapping_add(b);
    let t4: u32 = rotate_left(t3, 1).wrapping_sub(t3);
    let t5: u32 = rotate_left(t4, 16) ^ (t4 | src.l);
    CoreData { l: src.l, r: src.r ^ t5 }
}

/// The fourth step, keyed by one word.
pub fn pi4(src: CoreData, a: u32) -> (dst: CoreData)
    ensures
        dst == pi4_step(src, a),
{
    let t0: u32 = src.r.wrapping_add(a);
    let t1: u32 = rotate_left(t0, 2).wrapping_add(t0).wrapping_add(1);
    CoreData { l: src.l ^ t1, r: src.r }
}

/// Expands a 64-bit data key against the 256-bit system key into a work key.
pub fn core_schedule(sys: &[u32; 8], data_key: CoreData) -> (work_key: [u32; 8])
    ensures
        work_key@ == schedule(sys@, data_key),
{
    let b1 = pi1(data_key);
    let b2 = pi2(b1, sys[0]);
    let b3 = pi3(b2, sys[1], sys[2]);
    let b4 = pi4(b3, sys[3]);
    let b5 = pi1(b4);
    let b6 = pi2(b5, sys[4]);
    let b7 = pi3(b6, sys[5], sys[6]);
    let b8 = pi4(b7, sys[7]);
    let b9 = pi1(b8);
    let work_key: [u32; 8] = [b2.l, b3.r, b4.l, b5.r, b6.l, b7.r, b8.l, b9.r];
    assert(work_key@ =~= schedule(sys@, data_key));
    work_key
}

/// Encrypts one block.
pub fn core_encrypt(src: CoreData, w: &[u32; 8], round: u32) -> (dst: CoreData)
    ensures
        dst == encrypted(src, w@, round as nat),
{
    let mut d = src;
    for done in 0..round
        invariant
            d == encrypted(src, w@, done as nat),
    {
        d = pi2(pi1(d), w[0]);
        d = pi4(pi3(d, w[1], w[2]), w[3]);
        d = pi2(pi1(d), w[4]);
        d = pi4(pi3(d, w[5], w[6]), w[7]);
    }
    d
}

/// Decrypts one block.
pub fn core_decrypt(src: CoreData, w: &[u32; 8], round: u32) -> (dst: CoreData)
    ensures
        dst == decrypted(src, w@, round as nat),
{
    let mut d = src;
    for done in 0..round
        invariant
            d == decrypted(src, w@, done as nat),
    {
        d = pi3(pi4(d, w[7]), w[5], w[6]);
        d = pi1(pi2(d, w[4]));
        d = pi3(pi4(d, w[3]), w[1], w[2]);
        d = pi1(pi2(d, w[0]));
    }
    d
}

} // verus!
