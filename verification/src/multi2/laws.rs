//! What the cipher computes, in numbers: keys and blocks as big-endian integers,
//! the masks as arithmetic modulo 2^32, and the work keys and rounds as
//! recurrences on the two halves of a block.

use vstd::prelude::*;

use crate::multi2::cbc;
use crate::multi2::cipher;
use crate::multi2::cipher::CoreData;
use crate::multi2::{CipherState, ScrambleKey};

verus! {

/// Four bytes give the number that they are the base-256 digits of.
pub proof fn law_words_are_big_endian(b0: u8, b1: u8, b2: u8, b3: u8)
    ensures
        cipher::word_from_be(b0, b1, b2, b3) == b0 * 0x100_0000 + b1 * 0x1_0000 + b2 * 0x100 + b3,
{
    assert((((b0 as u32) << 24) | ((b1 as u32) << 16) | ((b2 as u32) << 8) | (b3 as u32)) == b0
        * 0x100_0000 + b1 * 0x1_0000 + b2 * 0x100 + b3) by (bit_vector);
}

/// A block is read from eight bytes as two numbers, and written as the digits of
/// the same two numbers.
pub proof fn law_blocks_are_two_big_endian_words(bytes: Seq<u8>, block: CoreData)
    ensures
        cipher::block_from_be(bytes).l == bytes[0] * 0x100_0000 + bytes[1] * 0x1_0000 + bytes[2]
            * 0x100 + bytes[3],
        cipher::block_from_be(bytes).r == bytes[4] * 0x100_0000 + bytes[5] * 0x1_0000 + bytes[6]
            * 0x100 + bytes[7],
        cipher::block_to_be(block).len() == 8,
        ({
            let out = cipher::block_to_be(block);
            &&& block.l == out[0] * 0x100_0000 + out[1] * 0x1_0000 + out[2] * 0x100 + out[3]
            &&& block.r == out[4] * 0x100_0000 + out[5] * 0x1_0000 + out[6] * 0x100 + out[7]
        }),
{
    law_words_are_big_endian(bytes[0], bytes[1], bytes[2], bytes[3]);
    law_words_are_big_endian(bytes[4], bytes[5], bytes[6], bytes[7]);
    let out = cipher::block_to_be(block);
    law_words_are_big_endian(out[0], out[1], out[2], out[3]);
    law_words_are_big_endian(out[4], out[5], out[6], out[7]);
    let eight = Seq::new(8, |i: int| 0u8);
    cipher::law_block_bytes_round_trip(block, eight);
}

/// Loading a system key loses nothing of it: its words are the numbers that its
/// bytes spell, four at a time.
pub proof fn law_system_key_is_loaded_whole(system_key: Seq<u8>, init_cbc: Seq<u8>, i: int)
    requires
        0 <= i < 8,
    ensures
        CipherState::initial(system_key, init_cbc).sys.len() == 8,
        CipherState::initial(system_key, init_cbc).sys[i] == system_key[4 * i] * 0x100_0000
            + system_key[4 * i + 1] * 0x1_0000 + system_key[4 * i + 2] * 0x100 + system_key[4 * i
            + 3],
{
    law_words_are_big_endian(
        system_key[4 * i],
        system_key[4 * i + 1],
        system_key[4 * i + 2],
        system_key[4 * i + 3],
    );
}

/// Two numbers below 2^32 with different base-256 digits differ.
proof fn lemma_digits_are_unique(a0: u8, a1: u8, a2: u8, a3: u8, b0: u8, b1: u8, b2: u8, b3: u8)
    requires
        a0 * 0x100_0000 + a1 * 0x1_0000 + a2 * 0x100 + a3 == b0 * 0x100_0000 + b1 * 0x1_0000 + b2
            * 0x100 + b3,
    ensures
        a0 == b0,
        a1 == b1,
        a2 == b2,
        a3 == b3,
{
}

/// Different system keys never give the same words.
pub proof fn law_different_system_keys_differ(a: Seq<u8>, b: Seq<u8>, init_cbc: Seq<u8>)
    requires
        a.len() == 32,
        b.len() == 32,
        CipherState::initial(a, init_cbc).sys == CipherState::initial(b, init_cbc).sys,
    ensures
        a == b,
{
    assert forall|j: int| 0 <= j < 32 implies a[j] == b[j] by {
        let i = j / 4;
        law_system_key_is_loaded_whole(a, init_cbc, i);
        law_system_key_is_loaded_whole(b, init_cbc, i);
        lemma_digits_are_unique(
            a[4 * i],
            a[4 * i + 1],
            a[4 * i + 2],
            a[4 * i + 3],
            b[4 * i],
            b[4 * i + 1],
            b[4 * i + 2],
            b[4 * i + 3],
        );
        assert(j == 4 * i || j == 4 * i + 1 || j == 4 * i + 2 || j == 4 * i + 3);
    }
    assert(a =~= b);
}

/// A new cipher has its vector loaded whole, four rounds, and no scramble key.
pub proof fn law_new_cipher_has_its_vector(system_key: Seq<u8>, init_cbc: Seq<u8>)
    ensures
        ({
            let state = CipherState::initial(system_key, init_cbc);
            &&& state.iv.l == init_cbc[0] * 0x100_0000 + init_cbc[1] * 0x1_0000 + init_cbc[2]
                * 0x100 + init_cbc[3]
            &&& state.iv.r == init_cbc[4] * 0x100_0000 + init_cbc[5] * 0x1_0000 + init_cbc[6]
                * 0x100 + init_cbc[7]
            &&& state.round == 4
            &&& !state.ready
        }),
{
    law_blocks_are_two_big_endian_words(init_cbc, CoreData { l: 0, r: 0 });
}

/// The first eight bytes of a scramble key are the odd control word and the last
/// eight the even one, loaded whole; system key, vector and rounds stay.
pub proof fn law_scramble_key_is_loaded_whole(state: CipherState, scramble_key: Seq<u8>)
    requires
        scramble_key.len() == 16,
    ensures
        ({
            let keyed = state.with_key(scramble_key);
            let k = scramble_key;
            &&& keyed.odd.l == k[0] * 0x100_0000 + k[1] * 0x1_0000 + k[2] * 0x100 + k[3]
            &&& keyed.odd.r == k[4] * 0x100_0000 + k[5] * 0x1_0000 + k[6] * 0x100 + k[7]
            &&& keyed.even.l == k[8] * 0x100_0000 + k[9] * 0x1_0000 + k[10] * 0x100 + k[11]
            &&& keyed.even.r == k[12] * 0x100_0000 + k[13] * 0x1_0000 + k[14] * 0x100 + k[15]
            &&& keyed.ready
            &&& keyed.odd_work == keyed.work_key(ScrambleKey::Odd)
            &&& keyed.even_work == keyed.work_key(ScrambleKey::Even)
            &&& keyed.sys == state.sys
            &&& keyed.iv == state.iv
            &&& keyed.round == state.round
        }),
{
    let zero = CoreData { l: 0, r: 0 };
    law_blocks_are_two_big_endian_words(scramble_key, zero);
    let even = scramble_key.skip(8);
    law_blocks_are_two_big_endian_words(even, zero);
    assert forall|j: int| 0 <= j < 8 implies even[j] == scramble_key[8 + j] by {}
}

/// Erasing the scramble key leaves zeros in its place and everything else alone.
pub proof fn law_cleared_key_leaves_nothing(state: CipherState)
    ensures
        ({
            let cleared = state.without_key();
            let zero = CoreData { l: 0, r: 0 };
            &&& !cleared.ready
            &&& cleared.odd == zero
            &&& cleared.even == zero
            &&& cleared.odd_work.len() == 8
            &&& cleared.even_work.len() == 8
            &&& forall|i: int|
                0 <= i < 8 ==> #[trigger] cleared.odd_work[i] == 0 && #[trigger]
                    cleared.even_work[i] == 0
            &&& cleared.sys == state.sys
            &&& cleared.iv == state.iv
            &&& cleared.round == state.round
        }),
{
}

/// Rotating left by n places multiplies by 2^n, and what leaves at the top comes
/// back at the bottom.
pub proof fn law_rotations_multiply(x: u32)
    ensures
        cipher::rotated_left(x, 1) == x * 2 % 0x1_0000_0000 + x as int / 0x8000_0000,
        cipher::rotated_left(x, 2) == x * 4 % 0x1_0000_0000 + x as int / 0x4000_0000,
        cipher::rotated_left(x, 4) == x * 16 % 0x1_0000_0000 + x as int / 0x1000_0000,
        cipher::rotated_left(x, 8) == x * 0x100 % 0x1_0000_0000 + x as int / 0x100_0000,
        cipher::rotated_left(x, 16) == x * 0x1_0000 % 0x1_0000_0000 + x as int / 0x1_0000,
{
    assert(((x << 1) | (x >> 31)) == x * 2 % 0x1_0000_0000 + x / 0x8000_0000) by (bit_vector);
    assert(((x << 2) | (x >> 30)) == x * 4 % 0x1_0000_0000 + x / 0x4000_0000) by (bit_vector);
    assert(((x << 4) | (x >> 28)) == x * 16 % 0x1_0000_0000 + x / 0x1000_0000) by (bit_vector);
    assert(((x << 8) | (x >> 24)) == x * 0x100 % 0x1_0000_0000 + x / 0x100_0000) by (bit_vector);
    assert(((x << 16) | (x >> 16)) == x * 0x1_0000 % 0x1_0000_0000 + x / 0x1_0000) by (bit_vector);
}

proof fn lemma_wrapped_sum(x: u32, y: u32)
    ensures
        x.wrapping_add(y) == (x + y) % 0x1_0000_0000,
{
}

/// The bits that leave at the top, as a number `top`, take `top` times 2^32 with
/// them and bring `top` back.
proof fn lemma_turned_linearly(t: u32)
    ensures
        0 <= t as int / 0x8000_0000 < 2,
        0 <= t as int / 0x4000_0000 < 4,
        cipher::rotated_left(t, 1) == 2 * t - 0xFFFF_FFFF * (t as int / 0x8000_0000),
        cipher::rotated_left(t, 2) == 4 * t - 0xFFFF_FFFF * (t as int / 0x4000_0000),
{
    assert(((t << 1) | (t >> 31)) + 0xFFFF_FFFF * (t / 0x8000_0000) == 2 * t && ((t << 2) | (t
        >> 30)) + 0xFFFF_FFFF * (t / 0x4000_0000) == 4 * t) by (bit_vector);
}

/// A number that differs by a whole multiple of 2^32 from one below 2^32 has that
/// one as its remainder.
proof fn lemma_remainder(value: int, turns: int, remainder: int)
    requires
        value == turns * 0x1_0000_0000 + remainder,
        0 <= remainder < 0x1_0000_0000,
    ensures
        value % 0x1_0000_0000 == remainder,
{
}

/// Rotated by one place, plus itself, minus one.
proof fn lemma_three_times(t: u32)
    ensures
        cipher::rotated_left(t, 1).wrapping_add(t).wrapping_sub(1) == (3 * t - 1 + t as int
            / 0x8000_0000) % 0x1_0000_0000,
{
    lemma_turned_linearly(t);
    let turned = cipher::rotated_left(t, 1);
    let top = t as int / 0x8000_0000;
    let value = 3 * t - 1 + top;
    assert(value == turned + t - 1 + top * 0x1_0000_0000);
    let result = turned.wrapping_add(t).wrapping_sub(1) as int;
    if turned + t - 1 < 0 {
        lemma_remainder(value, top - 1, result);
    } else if turned + t - 1 < 0x1_0000_0000 {
        lemma_remainder(value, top, result);
    } else {
        lemma_remainder(value, top + 1, result);
    }
}

/// Rotated by two places, plus itself, plus one.
proof fn lemma_five_times(t: u32)
    ensures
        cipher::rotated_left(t, 2).wrapping_add(t).wrapping_add(1) == (5 * t + 1 + t as int
            / 0x4000_0000) % 0x1_0000_0000,
{
    lemma_turned_linearly(t);
    let turned = cipher::rotated_left(t, 2);
    let top = t as int / 0x4000_0000;
    let value = 5 * t + 1 + top;
    assert(value == turned + t + 1 + top * 0x1_0000_0000);
    let result = turned.wrapping_add(t).wrapping_add(1) as int;
    if turned + t + 1 < 0x1_0000_0000 {
        lemma_remainder(value, top, result);
    } else {
        lemma_remainder(value, top + 1, result);
    }
}

/// Rotated by one place, minus itself.
proof fn lemma_once(t: u32)
    ensures
        cipher::rotated_left(t, 1).wrapping_sub(t) == (t + t as int / 0x8000_0000) % 0x1_0000_0000,
{
    lemma_turned_linearly(t);
    let turned = cipher::rotated_left(t, 1);
    let top = t as int / 0x8000_0000;
    let value = t + top;
    assert(value == turned - t + top * 0x1_0000_0000);
    let result = turned.wrapping_sub(t) as int;
    if turned - t < 0 {
        lemma_remainder(value, top - 1, result);
    } else {
        lemma_remainder(value, top, result);
    }
}

/// The second step's mask, modulo 2^32: with t = r + a and u = 3t - 1, plus one
/// where t has its top bit, it is u XORed with u rotated by four places.
pub proof fn law_second_mask(r: u32, a: u32)
    ensures
        ({
            let t = (r + a) % 0x1_0000_0000;
            let u = (3 * t - 1 + t / 0x8000_0000) % 0x1_0000_0000;
            let turned = u * 16 % 0x1_0000_0000 + u / 0x1000_0000;
            cipher::pi2_mask(r, a) == turned as u32 ^ u as u32
        }),
{
    lemma_wrapped_sum(r, a);
    let t0 = r.wrapping_add(a);
    lemma_three_times(t0);
    law_rotations_multiply(cipher::rotated_left(t0, 1).wrapping_add(t0).wrapping_sub(1));
}

/// The fourth step's mask, modulo 2^32: with t = r + a, it is 5t + 1 plus the top
/// two bits of t.
pub proof fn law_fourth_mask(r: u32, a: u32)
    ensures
        ({
            let t = (r + a) % 0x1_0000_0000;
            cipher::pi4_mask(r, a) == (5 * t + 1 + t / 0x4000_0000) % 0x1_0000_0000
        }),
{
    lemma_wrapped_sum(r, a);
    lemma_five_times(r.wrapping_add(a));
}

/// The third step's mask, modulo 2^32: with t = l + a, u = 5t + 1 plus the top two
/// bits of t, v = b plus u XORed with u rotated by eight places, and s = v plus
/// the top bit of v, it is s rotated by sixteen places XORed with s OR l.
pub proof fn law_third_mask(l: u32, a: u32, b: u32)
    ensures
        ({
            let t = (l + a) % 0x1_0000_0000;
            let u = (5 * t + 1 + t / 0x4000_0000) % 0x1_0000_0000;
            let turned = u * 0x100 % 0x1_0000_0000 + u / 0x100_0000;
            let v = ((turned as u32 ^ u as u32) + b) % 0x1_0000_0000;
            let s = (v + v / 0x8000_0000) % 0x1_0000_0000;
            let swapped = s * 0x1_0000 % 0x1_0000_0000 + s / 0x1_0000;
            cipher::pi3_mask(l, a, b) == swapped as u32 ^ (s as u32 | l)
        }),
{
    lemma_wrapped_sum(l, a);
    let t0 = l.wrapping_add(a);
    lemma_five_times(t0);
    let t1 = cipher::rotated_left(t0, 2).wrapping_add(t0).wrapping_add(1);
    law_rotations_multiply(t1);
    let t2 = cipher::rotated_left(t1, 8) ^ t1;
    lemma_wrapped_sum(t2, b);
    let t3 = t2.wrapping_add(b);
    lemma_once(t3);
    law_rotations_multiply(cipher::rotated_left(t3, 1).wrapping_sub(t3));
}

/// Which half each step changes, and by what; the other half stays.
pub proof fn law_each_step_changes_one_half(d: CoreData, a: u32, b: u32, other: CoreData)
    ensures
        cipher::pi1_step(d).l == d.l && cipher::pi1_step(d).r == d.r ^ d.l,
        cipher::pi2_step(d, a).l == d.l ^ cipher::pi2_mask(d.r, a) && cipher::pi2_step(d, a).r
            == d.r,
        cipher::pi3_step(d, a, b).l == d.l && cipher::pi3_step(d, a, b).r == d.r
            ^ cipher::pi3_mask(d.l, a, b),
        cipher::pi4_step(d, a).l == d.l ^ cipher::pi4_mask(d.r, a) && cipher::pi4_step(d, a).r
            == d.r,
        cipher::block_xor(d, other).l == d.l ^ other.l && cipher::block_xor(d, other).r == d.r
            ^ other.r,
{
}

/// The eight words of a work key, each from the ones before it.
pub proof fn law_work_key_recurrence(sys: Seq<u32>, data_key: CoreData)
    ensures
        ({
            let w = cipher::schedule(sys, data_key);
            &&& w.len() == 8
            &&& w[0] == data_key.l ^ cipher::pi2_mask(data_key.r ^ data_key.l, sys[0])
            &&& w[1] == (data_key.r ^ data_key.l) ^ cipher::pi3_mask(w[0], sys[1], sys[2])
            &&& w[2] == w[0] ^ cipher::pi4_mask(w[1], sys[3])
            &&& w[3] == w[1] ^ w[2]
            &&& w[4] == w[2] ^ cipher::pi2_mask(w[3], sys[4])
            &&& w[5] == w[3] ^ cipher::pi3_mask(w[4], sys[5], sys[6])
            &&& w[6] == w[4] ^ cipher::pi4_mask(w[5], sys[7])
            &&& w[7] == w[5] ^ w[6]
        }),
{
}

/// Expanding a data key is one encryption round under the system key: the last
/// words are what that round leaves of the data key.
pub proof fn law_schedule_is_a_round_under_the_system_key(sys: Seq<u32>, data_key: CoreData)
    ensures
        ({
            let w = cipher::schedule(sys, data_key);
            cipher::encrypt_round(data_key, sys) == (CoreData { l: w[6], r: w[5] })
        }),
{
}

/// One round, half by half.
pub proof fn law_round_recurrence(d: CoreData, w: Seq<u32>)
    ensures
        ({
            let r1 = d.r ^ d.l;
            let l1 = d.l ^ cipher::pi2_mask(r1, w[0]);
            let r2 = r1 ^ cipher::pi3_mask(l1, w[1], w[2]);
            let l2 = l1 ^ cipher::pi4_mask(r2, w[3]);
            let r3 = r2 ^ l2;
            let l3 = l2 ^ cipher::pi2_mask(r3, w[4]);
            let r4 = r3 ^ cipher::pi3_mask(l3, w[5], w[6]);
            let l4 = l3 ^ cipher::pi4_mask(r4, w[7]);
            cipher::encrypt_round(d, w) == (CoreData { l: l4, r: r4 })
        }),
{
}

/// Rounds add up: none changes nothing, one is a round, and some rounds followed
/// by others are all of them together.
pub proof fn law_rounds_add_up(d: CoreData, w: Seq<u32>, first: nat, second: nat)
    ensures
        cipher::encrypted(d, w, 0) == d,
        cipher::encrypted(d, w, 1) == cipher::encrypt_round(d, w),
        cipher::encrypted(d, w, first + second) == cipher::encrypted(
            cipher::encrypted(d, w, first),
            w,
            second,
        ),
    decreases second,
{
    assert(cipher::encrypted(d, w, 1) == cipher::encrypt_round(d, w)) by {
        reveal_with_fuel(cipher::encrypted, 2);
    }
    if second > 0 {
        let fewer = (second - 1) as nat;
        law_rounds_add_up(d, w, first, fewer);
        assert((first + second - 1) as nat == first + fewer);
    }
}

/// The work key of each control word is the expansion of that half against the
/// system key, and nothing else.
pub proof fn law_each_half_has_its_work_key(state: CipherState)
    ensures
        state.work_key(ScrambleKey::Odd) == cipher::schedule(state.sys, state.odd),
        state.work_key(ScrambleKey::Even) == cipher::schedule(state.sys, state.even),
{
}

/// What a block of a chained buffer was XORed with before it was encrypted: the
/// ciphertext block before it, or the vector.
pub open spec fn chained_with(coded: Seq<u8>, iv: CoreData, pos: int) -> CoreData {
    if pos == 0 {
        iv
    } else {
        cipher::block_from_be(coded.subrange(pos - 8, pos))
    }
}

/// Whether `coded` is `plain` in chaining mode, from `pos` on: a whole block there
/// is the encryption of its plaintext XORed with the ciphertext block before it,
/// and the bytes of a partial block are XORed with the encryption of the
/// ciphertext block before it; the vector stands in where there is none.
pub open spec fn chained_at(
    plain: Seq<u8>,
    coded: Seq<u8>,
    iv: CoreData,
    w: Seq<u32>,
    rounds: nat,
    pos: int,
) -> bool {
    let chain = chained_with(coded, iv, pos);
    if pos + 8 <= plain.len() {
        cipher::block_from_be(coded.subrange(pos, pos + 8)) == cipher::encrypted(
            cipher::block_xor(cipher::block_from_be(plain.subrange(pos, pos + 8)), chain),
            w,
            rounds,
        )
    } else {
        forall|j: int|
            pos <= j < plain.len() ==> #[trigger] coded[j] == plain[j] ^ cipher::block_to_be(
                cipher::encrypted(chain, w, rounds),
            )[j - pos]
    }
}

/// Chaining goes on behind the first block from that block's ciphertext.
proof fn lemma_chained_behind_a_block(
    plain: Seq<u8>,
    coded: Seq<u8>,
    iv: CoreData,
    block: CoreData,
    w: Seq<u32>,
    rounds: nat,
    pos: int,
)
    requires
        8 <= pos < plain.len(),
        pos % 8 == 0,
        coded.len() == plain.len(),
        cipher::block_from_be(coded.subrange(0, 8)) == block,
        chained_at(plain.skip(8), coded.skip(8), block, w, rounds, pos - 8),
    ensures
        chained_at(plain, coded, iv, w, rounds, pos),
{
    let rest = plain.skip(8);
    let later = coded.skip(8);
    if pos > 8 {
        assert(later.subrange(pos - 16, pos - 8) =~= coded.subrange(pos - 8, pos));
    }
    let chain = chained_with(coded, iv, pos);
    assert(chained_with(later, block, pos - 8) == chain);
    if pos + 8 <= plain.len() {
        assert(later.subrange(pos - 8, pos) =~= coded.subrange(pos, pos + 8));
        assert(rest.subrange(pos - 8, pos) =~= plain.subrange(pos, pos + 8));
    } else {
        let stream = cipher::block_to_be(cipher::encrypted(chain, w, rounds));
        assert forall|j: int| pos <= j < plain.len() implies #[trigger] coded[j] == plain[j]
            ^ stream[j - pos] by {
            assert(later[j - 8] == rest[j - 8] ^ stream[(j - 8) - (pos - 8)]);
        }
    }
}

/// How a buffer of a block or more is encrypted: the first block, then the rest
/// from that block's ciphertext.
proof fn lemma_first_block(plain: Seq<u8>, iv: CoreData, w: Seq<u32>, rounds: nat)
    requires
        plain.len() >= 8,
    ensures
        ({
            let coded = cbc::cbc_encrypted(plain, iv, w, rounds);
            let block = cipher::encrypted(
                cipher::block_xor(cipher::block_from_be(plain.subrange(0, 8)), iv),
                w,
                rounds,
            );
            &&& cipher::block_from_be(coded.subrange(0, 8)) == block
            &&& coded.skip(8) == cbc::cbc_encrypted(plain.skip(8), block, w, rounds)
        }),
{
    let coded = cbc::cbc_encrypted(plain, iv, w, rounds);
    assert(cipher::block_from_be(plain.subrange(0, 8)) == cipher::block_from_be(plain));
    let mixed = cipher::block_xor(cipher::block_from_be(plain), iv);
    let block = cipher::encrypted(mixed, w, rounds);
    cipher::law_block_bytes_round_trip(block, cipher::block_to_be(block));
    assert(coded.subrange(0, 8) =~= cipher::block_to_be(block));
    assert(coded.skip(8) =~= cbc::cbc_encrypted(plain.skip(8), block, w, rounds));
}

/// How less than a block is encrypted.
proof fn lemma_short_buffer(plain: Seq<u8>, iv: CoreData, w: Seq<u32>, rounds: nat)
    requires
        plain.len() < 8,
    ensures
        chained_at(plain, cbc::cbc_encrypted(plain, iv, w, rounds), iv, w, rounds, 0),
{
    let coded = cbc::cbc_encrypted(plain, iv, w, rounds);
    let stream = cipher::block_to_be(cipher::encrypted(iv, w, rounds));
    assert(coded == cbc::tail_masked(plain, iv, w, rounds));
    assert forall|j: int| 0 <= j < plain.len() implies #[trigger] coded[j] == plain[j] ^ stream[j
        - 0] by {}
}

/// In chaining mode every block and every byte of a partial block depends on the
/// plaintext and on the ciphertext right before it as chaining says, in a buffer
/// of any length.
pub proof fn law_each_block_is_chained(
    plain: Seq<u8>,
    iv: CoreData,
    w: Seq<u32>,
    rounds: nat,
    pos: int,
)
    requires
        0 <= pos < plain.len(),
        pos % 8 == 0,
    ensures
        cbc::cbc_encrypted(plain, iv, w, rounds).len() == plain.len(),
        chained_at(plain, cbc::cbc_encrypted(plain, iv, w, rounds), iv, w, rounds, pos),
    decreases plain.len(),
{
    let coded = cbc::cbc_encrypted(plain, iv, w, rounds);
    cbc::law_cbc_preserves_length(plain, iv, w, rounds);
    if plain.len() < 8 {
        lemma_short_buffer(plain, iv, w, rounds);
    } else {
        lemma_first_block(plain, iv, w, rounds);
        let block = cipher::block_from_be(coded.subrange(0, 8));
        if pos > 0 {
            law_each_block_is_chained(plain.skip(8), block, w, rounds, pos - 8);
            lemma_chained_behind_a_block(plain, coded, iv, block, w, rounds, pos);
        }
    }
}

/// A keyed cipher chains every buffer from its own vector, under the work key of
/// the control word asked for, with its own number of rounds; so a buffer of one
/// block is that block XORed with the vector and encrypted.
pub proof fn law_buffers_start_from_the_vector(
    state: CipherState,
    key: ScrambleKey,
    plain: Seq<u8>,
    pos: int,
)
    requires
        0 <= pos < plain.len(),
        pos % 8 == 0,
    ensures
        ({
            let half = match key {
                ScrambleKey::Odd => state.odd,
                ScrambleKey::Even => state.even,
            };
            let w = cipher::schedule(state.sys, half);
            &&& state.encrypted(key, plain).len() == plain.len()
            &&& chained_at(
                plain,
                state.encrypted(key, plain),
                state.iv,
                w,
                state.round as nat,
                pos,
            )
        }),
{
    law_each_block_is_chained(
        plain,
        state.iv,
        state.work_key(key),
        state.round as nat,
        pos,
    );
}

} // verus!
