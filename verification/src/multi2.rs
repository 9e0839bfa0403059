//! The MULTI2 cipher with its keys, and the transport-packet descramble
//! procedure built on it.
//!
//! Key layout:
//! - System key: 256 bits, loaded as eight big-endian words.
//! - Initial vector: 64 bits. It starts *every* chaining-mode call; nothing
//!   chains across calls or packets.
//! - Scramble key: 128 bits, **bytes 0 to 7 the odd control word, bytes 8 to 15
//!   the even one**. Each half is expanded against the system key into a work
//!   key of its own.
//!
//! Keys are supplied by the caller. Where they come from is no concern of this
//! crate.

use vstd::prelude::*;

use crate::multi2::cipher::{core_decrypt, core_encrypt, core_schedule, word, CoreData};

pub mod cbc;
pub mod cipher;
pub mod laws;
pub mod packet;
pub mod packet_laws;

verus! {

/// Round count of the broadcast scrambling layer.
pub const DEFAULT_ROUND: u32 = 4;

/// Size of one MPEG transport-stream packet.
pub const TS_PACKET_LEN: usize = 188;

/// Which 64-bit control word (scramble key half) to operate with.
#[derive(Clone, Copy, PartialEq, Eq, Debug)]
pub enum ScrambleKey {
    /// Odd control word: bytes 0 to 7 of the scramble key.
    Odd,
    /// Even control word: bytes 8 to 15 of the scramble key.
    Even,
}

/// The control word that a packet's scrambling-control value selects.
pub open spec fn key_of_tsc(tsc: int) -> ScrambleKey {
    if tsc == 2 {
        ScrambleKey::Even
    } else {
        ScrambleKey::Odd
    }
}

impl ScrambleKey {
    /// Selects the key for a packet's `transport_scrambling_control` value (the
    /// top two bits of header byte 3): 2 is even, 3 is odd, and the reserved
    /// value 1 falls to **odd** as well.
    pub fn from_tsc(tsc: u8) -> (key: Self)
        ensures
            key == key_of_tsc(tsc as int),
    {
        if tsc == 2 {
            ScrambleKey::Even
        } else {
            ScrambleKey::Odd
        }
    }
}

/// Errors from the MULTI2 operations.
#[derive(Clone, Copy, PartialEq, Eq, Debug)]
pub enum Multi2Error {
    /// Crypto operation requested before [`Multi2::set_scramble_key`] (or after
    /// [`Multi2::clear_scramble_key`]).
    UnsetScrambleKey,
    /// Empty buffer passed to a chaining-mode or batch operation.
    EmptyBuffer,
}

impl Multi2Error {
    /// The message shown to people.
    pub fn to_string(&self) -> (text: String)
        ensures
            text@ == match self {
                Multi2Error::UnsetScrambleKey => "scramble key is not set"@,
                Multi2Error::EmptyBuffer => "buffer must be at least 1 byte"@,
            },
    {
        match self {
            Multi2Error::UnsetScrambleKey => "scramble key is not set".to_string(),
            Multi2Error::EmptyBuffer => "buffer must be at least 1 byte".to_string(),
        }
    }
}

/// What [`Multi2::descramble_ts_packet`] did with a packet.
#[derive(Clone, Copy, PartialEq, Eq, Debug)]
pub enum TsAction {
    /// Scrambled with a payload: the payload was decrypted and the two
    /// scrambling-control bits in byte 3 were cleared.
    Decrypted,
    /// Not scrambled; passed through verbatim.
    Unscrambled,
    /// Scrambled but adaptation-field-only: no crypto, only the
    /// scrambling-control bits were cleared.
    NoPayload,
    /// Transport-error indicator set: passed through verbatim.
    TransportError,
    /// Broken adaptation-field geometry (no room left for the announced
    /// payload, or an adaptation field running past the packet end): left
    /// untouched.
    Broken,
}

/// What a cipher holds.
pub struct CipherState {
    /// The system key as eight words.
    pub sys: Seq<u32>,
    /// The vector that every chaining-mode call starts from.
    pub iv: CoreData,
    /// The odd half of the scramble key; zero while none is set.
    pub odd: CoreData,
    /// The even half of the scramble key; zero while none is set.
    pub even: CoreData,
    /// The stored expansion of the odd half; zero while none is set.
    pub odd_work: Seq<u32>,
    /// The stored expansion of the even half; zero while none is set.
    pub even_work: Seq<u32>,
    /// Rounds per block operation.
    pub round: u32,
    /// Whether a scramble key is installed.
    pub ready: bool,
}

/// A system key's eight big-endian words.
pub open spec fn system_words(system_key: Seq<u8>) -> Seq<u32> {
    Seq::new(
        8,
        |i: int|
            cipher::word_from_be(
                system_key[4 * i],
                system_key[4 * i + 1],
                system_key[4 * i + 2],
                system_key[4 * i + 3],
            ),
    )
}

/// Eight zero words.
pub open spec fn zero_words() -> Seq<u32> {
    Seq::new(8, |i: int| 0u32)
}

impl CipherState {
    /// The state right after construction from a system key and a vector.
    pub open spec fn initial(system_key: Seq<u8>, init_cbc: Seq<u8>) -> CipherState {
        CipherState {
            sys: system_words(system_key),
            iv: cipher::block_from_be(init_cbc),
            odd: CoreData { l: 0, r: 0 },
            even: CoreData { l: 0, r: 0 },
            odd_work: zero_words(),
            even_work: zero_words(),
            round: DEFAULT_ROUND,
            ready: false,
        }
    }

    /// The state after installing a scramble key.
    pub open spec fn with_key(self, scramble_key: Seq<u8>) -> CipherState {
        let odd = cipher::block_from_be(scramble_key);
        let even = cipher::block_from_be(scramble_key.skip(8));
        CipherState {
            odd,
            even,
            odd_work: cipher::schedule(self.sys, odd),
            even_work: cipher::schedule(self.sys, even),
            ready: true,
            ..self
        }
    }

    /// The state after erasing the scramble key and its expansions.
    pub open spec fn without_key(self) -> CipherState {
        CipherState {
            odd: CoreData { l: 0, r: 0 },
            even: CoreData { l: 0, r: 0 },
            odd_work: zero_words(),
            even_work: zero_words(),
            ready: false,
            ..self
        }
    }

    /// The work key of one control word: that half of the scramble key,
    /// expanded against the system key.
    pub open spec fn work_key(self, key: ScrambleKey) -> Seq<u32> {
        match key {
            ScrambleKey::Odd => cipher::schedule(self.sys, self.odd),
            ScrambleKey::Even => cipher::schedule(self.sys, self.even),
        }
    }

    /// `plain` encrypted under one control word, from the vector.
    pub open spec fn encrypted(self, key: ScrambleKey, plain: Seq<u8>) -> Seq<u8> {
        cbc::cbc_encrypted(plain, self.iv, self.work_key(key), self.round as nat)
    }

    /// `coded` decrypted under one control word, from the vector.
    pub open spec fn decrypted(self, key: ScrambleKey, coded: Seq<u8>) -> Seq<u8> {
        cbc::cbc_decrypted(coded, self.iv, self.work_key(key), self.round as nat)
    }
}

/// MULTI2 cipher context: created once with the system key and the vector,
/// then given each scramble key as it arrives.
pub struct Multi2 {
    sys: [u32; 8],
    cbc_init: CoreData,
    scr: [CoreData; 2],  // [odd, even]
    wrk: [[u32; 8]; 2],  // [odd, even]
    round: u32,
    scramble_key_set: bool,
}

impl View for Multi2 {
    type V = CipherState;

    closed spec fn view(&self) -> CipherState {
        CipherState {
            sys: self.sys@,
            iv: self.cbc_init,
            odd: self.scr@[0],
            even: self.scr@[1],
            odd_work: self.wrk@[0]@,
            even_work: self.wrk@[1]@,
            round: self.round,
            ready: self.scramble_key_set,
        }
    }
}

impl Multi2 {
    /// The stored work keys are the expansions of the stored halves while a key
    /// is set; otherwise no key material is left.
    #[verifier::type_invariant]
    spec fn keys_are_consistent(self) -> bool {
        if self.scramble_key_set {
            self.wrk@[0]@ == cipher::schedule(self.sys@, self.scr@[0]) && self.wrk@[1]@
                == cipher::schedule(self.sys@, self.scr@[1])
        } else {
            self@ == self@.without_key()
        }
    }

    /// Creates a cipher with the given system key and vector, at
    /// [`DEFAULT_ROUND`] rounds. No scramble key is set yet: crypto operations
    /// return [`Multi2Error::UnsetScrambleKey`] until one is.
    pub fn new(system_key: &[u8; 32], init_cbc: &[u8; 8]) -> (cipher: Self)
        ensures
            cipher@ == CipherState::initial(system_key@, init_cbc@),
    {
        let mut sys: [u32; 8] = [0u32; 8];
        for i in 0..8usize
            invariant
                forall|j: int| 0 <= j < i ==> #[trigger] sys@[j] == system_words(system_key@)[j],
        {
            sys[i] = word(
                system_key[i * 4],
                system_key[i * 4 + 1],
                system_key[i * 4 + 2],
                system_key[i * 4 + 3],
            );
        }
        let zero = CoreData::default();
        let scr: [CoreData; 2] = [zero, zero];
        let wrk: [[u32; 8]; 2] = [[0u32; 8], [0u32; 8]];
        assert(sys@ =~= system_words(system_key@));
        assert(wrk@[0]@ =~= zero_words());
        assert(wrk@[1]@ =~= zero_words());
        Multi2 {
            sys,
            cbc_init: CoreData::from_be(init_cbc),
            scr,
            wrk,
            round: DEFAULT_ROUND,
            scramble_key_set: false,
        }
    }

    /// [`Multi2::new`] and [`Multi2::set_scramble_key`] in one call.
    pub fn with_scramble_key(
        system_key: &[u8; 32],
        init_cbc: &[u8; 8],
        scramble_key: &[u8; 16],
    ) -> (cipher: Self)
        ensures
            cipher@ == CipherState::initial(system_key@, init_cbc@).with_key(scramble_key@),
    {
        let mut cipher = Self::new(system_key, init_cbc);
        cipher.set_scramble_key(scramble_key);
        cipher
    }

    /// Changes the round count. The broadcast layer always uses 4.
    pub fn set_round(&mut self, round: u32)
        ensures
            final(self)@ == (CipherState { round, ..old(self)@ }),
    {
        proof {
            use_type_invariant(&*self);
        }
        self.round = round;
    }

    /// Current round count (default 4).
    pub fn round(&self) -> (round: u32)
        ensures
            round == self@.round,
    {
        self.round
    }

    /// Whether an odd/even scramble key is installed.
    pub fn is_ready(&self) -> (ready: bool)
        ensures
            ready == self@.ready,
    {
        self.scramble_key_set
    }

    /// Installs a 16-byte scramble key and expands both halves into work keys.
    /// **Bytes 0 to 7 are the odd control word, 8 to 15 the even one.**
    pub fn set_scramble_key(&mut self, scramble_key: &[u8; 16])
        ensures
            final(self)@ == old(self)@.with_key(scramble_key@),
    {
        let odd = CoreData::from_be(&scramble_key[0..8]);
        let even = CoreData::from_be(&scramble_key[8..16]);
        let scr: [CoreData; 2] = [odd, even];
        let wrk: [[u32; 8]; 2] = [core_schedule(&self.sys, odd), core_schedule(&self.sys, even)];
        *self =
        Multi2 {
            sys: self.sys,
            cbc_init: self.cbc_init,
            scr,
            wrk,
            round: self.round,
            scramble_key_set: true,
        };
    }

    /// Erases the scramble key and the work keys.
    pub fn clear_scramble_key(&mut self)
        ensures
            final(self)@ == old(self)@.without_key(),
    {
        let zero = CoreData::default();
        let scr: [CoreData; 2] = [zero, zero];
        let wrk: [[u32; 8]; 2] = [[0u32; 8], [0u32; 8]];
        assert(wrk@[0]@ =~= zero_words());
        assert(wrk@[1]@ =~= zero_words());
        *self =
        Multi2 {
            sys: self.sys,
            cbc_init: self.cbc_init,
            scr,
            wrk,
            round: self.round,
            scramble_key_set: false,
        };
    }

    /// The work key of one control word, once a scramble key is installed.
    pub fn work_key(&self, key: ScrambleKey) -> (work_key: Result<&[u32; 8], Multi2Error>)
        ensures
            match work_key {
                Ok(words) => self@.ready && words@ == self@.work_key(key),
                Err(error) => !self@.ready && error == Multi2Error::UnsetScrambleKey,
            },
    {
        proof {
            use_type_invariant(self);
        }
        if !self.scramble_key_set {
            return Err(Multi2Error::UnsetScrambleKey);
        }
        match key {
            ScrambleKey::Odd => Ok(&self.wrk[0]),
            ScrambleKey::Even => Ok(&self.wrk[1]),
        }
    }

    /// Raw block encryption, without chaining.
    pub fn encrypt_block(&self, key: ScrambleKey, block: &[u8; 8]) -> (coded: Result<
        [u8; 8],
        Multi2Error,
    >)
        ensures
            match coded {
                Ok(coded) => self@.ready && coded@ == cipher::block_to_be(
                    cipher::encrypted(
                        cipher::block_from_be(block@),
                        self@.work_key(key),
                        self@.round as nat,
                    ),
                ),
                Err(error) => !self@.ready && error == Multi2Error::UnsetScrambleKey,
            },
    {
        let w = self.work_key(key)?;
        Ok(core_encrypt(CoreData::from_be(block), w, self.round).to_be())
    }

    /// Raw block decryption, without chaining.
    pub fn decrypt_block(&self, key: ScrambleKey, block: &[u8; 8]) -> (clear: Result<
        [u8; 8],
        Multi2Error,
    >)
        ensures
            match clear {
                Ok(clear) => self@.ready && clear@ == cipher::block_to_be(
                    cipher::decrypted(
                        cipher::block_from_be(block@),
                        self@.work_key(key),
                        self@.round as nat,
                    ),
                ),
                Err(error) => !self@.ready && error == Multi2Error::UnsetScrambleKey,
            },
    {
        let w = self.work_key(key)?;
        Ok(core_decrypt(CoreData::from_be(block), w, self.round).to_be())
    }

    /// Encrypts `buf` in place in chaining mode, always from the configured
    /// vector. A trailing partial block is XORed with the encrypted chain
    /// value. On an error `buf` is left as it was.
    pub fn encrypt_cbc(&self, key: ScrambleKey, buf: &mut [u8]) -> (outcome: Result<
        (),
        Multi2Error,
    >)
        ensures
            outcome == (if !self@.ready {
                Err::<(), Multi2Error>(Multi2Error::UnsetScrambleKey)
            } else if old(buf)@.len() == 0 {
                Err(Multi2Error::EmptyBuffer)
            } else {
                Ok(())
            }),
            final(buf)@ == (if outcome is Ok {
                self@.encrypted(key, old(buf)@)
            } else {
                old(buf)@
            }),
    {
        let w = self.work_key(key)?;
        if buf.is_empty() {
            return Err(Multi2Error::EmptyBuffer);
        }
        cbc::encrypt_in_place(buf, self.cbc_init, w, self.round);
        Ok(())
    }

    /// Decrypts `buf` in place in chaining mode, always from the configured
    /// vector. A trailing partial block is XORed with the same key stream as in
    /// encryption. On an error `buf` is left as it was.
    pub fn decrypt_cbc(&self, key: ScrambleKey, buf: &mut [u8]) -> (outcome: Result<
        (),
        Multi2Error,
    >)
        ensures
            outcome == (if !self@.ready {
                Err::<(), Multi2Error>(Multi2Error::UnsetScrambleKey)
            } else if old(buf)@.len() == 0 {
                Err(Multi2Error::EmptyBuffer)
            } else {
                Ok(())
            }),
            final(buf)@ == (if outcome is Ok {
                self@.decrypted(key, old(buf)@)
            } else {
                old(buf)@
            }),
    {
        let w = self.work_key(key)?;
        if buf.is_empty() {
            return Err(Multi2Error::EmptyBuffer);
        }
        cbc::decrypt_in_place(buf, self.cbc_init, w, self.round);
        Ok(())
    }
}

/// Block decryption and encryption undo each other on the bytes of a block, for
/// either control word.
pub proof fn law_block_operations_are_inverse(
    state: CipherState,
    key: ScrambleKey,
    bytes: Seq<u8>,
)
    requires
        bytes.len() == 8,
    ensures
        ({
            let w = state.work_key(key);
            let rounds = state.round as nat;
            let coded = cipher::block_to_be(
                cipher::encrypted(cipher::block_from_be(bytes), w, rounds),
            );
            let clear = cipher::block_to_be(
                cipher::decrypted(cipher::block_from_be(bytes), w, rounds),
            );
            &&& cipher::block_to_be(cipher::decrypted(cipher::block_from_be(coded), w, rounds))
                == bytes
            &&& cipher::block_to_be(cipher::encrypted(cipher::block_from_be(clear), w, rounds))
                == bytes
        }),
{
    let w = state.work_key(key);
    let rounds = state.round as nat;
    let block = cipher::block_from_be(bytes);
    cipher::law_block_round_trip(block, w, rounds);
    cipher::law_block_bytes_round_trip(cipher::encrypted(block, w, rounds), bytes);
    cipher::law_block_bytes_round_trip(cipher::decrypted(block, w, rounds), bytes);
}

/// Chaining-mode decryption and encryption undo each other on every buffer, for
/// either control word, and keep its length.
pub proof fn law_buffer_operations_are_inverse(
    state: CipherState,
    key: ScrambleKey,
    bytes: Seq<u8>,
)
    ensures
        state.decrypted(key, state.encrypted(key, bytes)) == bytes,
        state.encrypted(key, state.decrypted(key, bytes)) == bytes,
        state.encrypted(key, bytes).len() == bytes.len(),
        state.decrypted(key, bytes).len() == bytes.len(),
{
    cbc::law_cbc_round_trip(bytes, state.iv, state.work_key(key), state.round as nat);
    cbc::law_cbc_preserves_length(bytes, state.iv, state.work_key(key), state.round as nat);
}

/// A new scramble key replaces the one before it without a trace, and erasing
/// the key leaves nothing of it: both depend only on the system key, the vector
/// and the round count.
pub proof fn law_scramble_keys_replace_each_other(
    state: CipherState,
    earlier: Seq<u8>,
    later: Seq<u8>,
)
    ensures
        state.with_key(earlier).with_key(later) == state.with_key(later),
        state.with_key(earlier).without_key() == state.without_key(),
        state.without_key().with_key(later) == state.with_key(later),
{
}

/// The reserved scrambling-control value 1 selects the same key as 3, and only
/// 2 selects the even key.
pub proof fn law_only_two_selects_the_even_key(tsc: int)
    ensures
        key_of_tsc(1) == key_of_tsc(3),
        key_of_tsc(tsc) == ScrambleKey::Even <==> tsc == 2,
{
}

} // verus!
