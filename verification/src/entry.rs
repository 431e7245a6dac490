//! The words of the endpoint command/status list.
//!
//! One 32-bit word describes one packet buffer of one endpoint:
//!
//! | bits  | field   | meaning                                               |
//! |-------|---------|-------------------------------------------------------|
//! | 15:0  | ADDROFF | bits 21:6 of the buffer's address                     |
//! | 25:16 | NBYTES  | bytes left to transfer                                |
//! | 28:26 |         | type, rate feedback and toggle; never written here    |
//! | 29    | S       | the endpoint is stalled                               |
//! | 30    | D       | the endpoint is disabled                              |
//! | 31    | A       | the buffer is active: the controller owns it          |
use vstd::prelude::*;

verus! {

pub const ADDROFF: u32 = 0x0000_ffff;

pub const NBYTES: u32 = 0x03ff_0000;

pub const STALLED: u32 = 0x2000_0000;

pub const DISABLED: u32 = 0x4000_0000;

pub const ACTIVE: u32 = 0x8000_0000;

/// What a word of the list says.
pub ghost struct Entry {
    pub addroff: nat,
    pub nbytes: nat,
    pub kept: nat,
    pub stalled: bool,
    pub disabled: bool,
    pub active: bool,
}

/// The fields of `word`.
#[verifier::opaque]
pub open spec fn entry(word: u32) -> Entry {
    Entry {
        addroff: word as nat % 0x1_0000,
        nbytes: (word as nat / 0x1_0000) % 0x400,
        kept: (word as nat / 0x400_0000) % 8,
        stalled: (word as nat / 0x2000_0000) % 2 == 1,
        disabled: (word as nat / 0x4000_0000) % 2 == 1,
        active: (word as nat / 0x8000_0000) % 2 == 1,
    }
}

/// The number of bytes that `word` leaves to transfer.
pub fn nbytes(word: u32) -> (count: usize)
    ensures
        count == entry(word).nbytes,
        count < 0x400,
{
    let field: u32 = (word & NBYTES) >> 16u32;
    reveal(entry);
    assert(field == (word / 0x1_0000) % 0x400) by (bit_vector)
        requires
            field == (word & 0x03ff_0000) >> 16u32,
    ;
    field as usize
}

/// Whether the controller owns the buffer that `word` describes.
pub fn is_active(word: u32) -> (active: bool)
    ensures
        active == entry(word).active,
{
    reveal(entry);
    assert((word & 0x8000_0000 != 0) == ((word / 0x8000_0000) % 2 == 1)) by (bit_vector);
    word & ACTIVE != 0
}

/// A change to a register: the bits of `mask` are replaced by those of `bits`, the others stay.
#[derive(Clone, Copy, Debug, PartialEq, Eq, Structural)]
pub struct Update {
    pub mask: u32,
    pub bits: u32,
}

impl Update {
    /// `word` with the bits of the mask replaced.
    pub open spec fn spec_apply(&self, word: u32) -> u32 {
        (word & !self.mask) | self.bits
    }

    /// What the update makes of `word`.
    #[verifier::when_used_as_spec(spec_apply)]
    pub fn apply(&self, word: u32) -> (updated: u32)
        ensures
            updated == self.spec_apply(word),
    {
        (word & !self.mask) | self.bits
    }

    /// The update that changes nothing.
    #[verifier::allow_in_spec]
    pub fn none() -> Update
        returns
            (Update { mask: 0, bits: 0 }),
    {
        Update { mask: 0, bits: 0 }
    }

    /// The update that sets the bits of `bits`.
    #[verifier::allow_in_spec]
    pub fn set(bits: u32) -> Update
        returns
            (Update { mask: bits, bits }),
    {
        Update { mask: bits, bits }
    }

    /// Adds a new value for the bits of `mask`.
    #[verifier::allow_in_spec]
    pub fn with(self, mask: u32, bits: u32) -> Update
        returns
            (Update { mask: self.mask | mask, bits: (self.bits & !mask) | (bits & mask) }),
    {
        Update { mask: self.mask | mask, bits: (self.bits & !mask) | (bits & mask) }
    }

    /// Adds a byte count; it keeps the count's lowest ten bits.
    #[verifier::allow_in_spec]
    pub fn nbytes(self, count: usize) -> Update
        returns
            self.with(NBYTES, (count as u32) << 16u32),
    {
        self.with(NBYTES, (count as u32) << 16u32)
    }

    /// Adds a buffer offset; it keeps the offset's lowest sixteen bits.
    #[verifier::allow_in_spec]
    pub fn addroff(self, offset: u32) -> Update
        returns
            self.with(ADDROFF, offset),
    {
        self.with(ADDROFF, offset)
    }

    /// Adds the hand-over of the buffer, to the controller or from it.
    #[verifier::allow_in_spec]
    pub fn active(self, active: bool) -> Update
        returns
            self.with(ACTIVE, if active { ACTIVE } else { 0 }),
    {
        self.with(ACTIVE, if active { ACTIVE } else { 0 })
    }

    /// Adds the enabling of the endpoint.
    #[verifier::allow_in_spec]
    pub fn enabled(self) -> Update
        returns
            self.with(DISABLED, 0),
    {
        self.with(DISABLED, 0)
    }

    /// Adds the end of a stall.
    #[verifier::allow_in_spec]
    pub fn not_stalled(self) -> Update
        returns
            self.with(STALLED, 0),
    {
        self.with(STALLED, 0)
    }
}

/// An update leaves `word` as it is where it names no field.
pub proof fn lemma_none(word: u32)
    ensures
        Update::none().apply(word) == word,
{
    assert((word & !0u32) | 0u32 == word) by (bit_vector);
}

/// A byte count replaces the byte count and nothing else.
pub proof fn lemma_nbytes(update: Update, count: usize, word: u32)
    ensures
        entry(update.nbytes(count).apply(word)) == (Entry {
            nbytes: count as nat % 0x400,
            ..entry(update.apply(word))
        }),
{
    reveal(entry);
    let (m, b, n) = (update.mask, update.bits, count as u32);
    let before: u32 = (word & !m) | b;
    let after: u32 = (word & !(m | 0x03ff_0000)) | ((b & !0x03ff_0000) | ((n << 16u32)
        & 0x03ff_0000));
    assert(n % 0x400 == count % 0x400) by (bit_vector)
        requires
            n == count as u32,
    ;
    assert({
        &&& after % 0x1_0000 == before % 0x1_0000
        &&& (after / 0x1_0000) % 0x400 == n % 0x400
        &&& after / 0x400_0000 == before / 0x400_0000
    }) by (bit_vector)
        requires
            before == (word & !m) | b,
            after == (word & !(m | 0x03ff_0000)) | ((b & !0x03ff_0000) | ((n << 16u32)
                & 0x03ff_0000)),
    ;
    lemma_flags_of_top(before);
    lemma_flags_of_top(after);
}

/// A buffer offset replaces the buffer offset and nothing else.
pub proof fn lemma_addroff(update: Update, offset: u32, word: u32)
    ensures
        entry(update.addroff(offset).apply(word)) == (Entry {
            addroff: offset as nat % 0x1_0000,
            ..entry(update.apply(word))
        }),
{
    reveal(entry);
    let (m, b) = (update.mask, update.bits);
    let before: u32 = (word & !m) | b;
    let after: u32 = (word & !(m | 0xffff)) | ((b & !0xffff) | (offset & 0xffff));
    assert({
        &&& after % 0x1_0000 == offset % 0x1_0000
        &&& after / 0x1_0000 == before / 0x1_0000
        &&& after / 0x400_0000 == before / 0x400_0000
    }) by (bit_vector)
        requires
            before == (word & !m) | b,
            after == (word & !(m | 0xffff)) | ((b & !0xffff) | (offset & 0xffff)),
    ;
    lemma_flags_of_top(before);
    lemma_flags_of_top(after);
}

/// A hand-over changes who owns the buffer and nothing else.
pub proof fn lemma_active(update: Update, active: bool, word: u32)
    ensures
        entry(update.active(active).apply(word)) == (Entry { active, ..entry(update.apply(word)) }),
{
    let v: u32 = if active { ACTIVE } else { 0 };
    lemma_flag(update, ACTIVE, v, word);
}

/// Enabling changes whether the endpoint is disabled and nothing else.
pub proof fn lemma_enabled(update: Update, word: u32)
    ensures
        entry(update.enabled().apply(word)) == (Entry {
            disabled: false,
            ..entry(update.apply(word))
        }),
{
    lemma_flag(update, DISABLED, 0, word);
}

/// The end of a stall changes whether the endpoint is stalled and nothing else.
pub proof fn lemma_not_stalled(update: Update, word: u32)
    ensures
        entry(update.not_stalled().apply(word)) == (Entry {
            stalled: false,
            ..entry(update.apply(word))
        }),
{
    lemma_flag(update, STALLED, 0, word);
}

proof fn lemma_flags_of_top(word: u32)
    ensures
        word as nat / 0x2000_0000 == (word as nat / 0x400_0000) / 8,
        word as nat / 0x4000_0000 == (word as nat / 0x400_0000) / 16,
        word as nat / 0x8000_0000 == (word as nat / 0x400_0000) / 32,
{
}

proof fn lemma_flag(update: Update, flag: u32, value: u32, word: u32)
    requires
        flag == STALLED || flag == DISABLED || flag == ACTIVE,
        value == 0 || value == flag,
    ensures
        ({
            let before = entry(update.apply(word));
            let after = entry(update.with(flag, value).apply(word));
            &&& after == Entry {
                stalled: after.stalled,
                disabled: after.disabled,
                active: after.active,
                ..before
            }
            &&& after.stalled == if flag == STALLED { value != 0 } else { before.stalled }
            &&& after.disabled == if flag == DISABLED { value != 0 } else { before.disabled }
            &&& after.active == if flag == ACTIVE { value != 0 } else { before.active }
        }),
{
    reveal(entry);
    let (m, b) = (update.mask, update.bits);
    let before: u32 = (word & !m) | b;
    let after: u32 = (word & !(m | flag)) | ((b & !flag) | (value & flag));
    assert({
        &&& after % 0x1_0000 == before % 0x1_0000
        &&& (after / 0x1_0000) % 0x400 == (before / 0x1_0000) % 0x400
        &&& (after / 0x400_0000) % 8 == (before / 0x400_0000) % 8
        &&& flag == 0x2000_0000 ==> ((after / 0x2000_0000) % 2 == 1) == (value != 0)
        &&& flag != 0x2000_0000 ==> (after / 0x2000_0000) % 2 == (before / 0x2000_0000) % 2
        &&& flag == 0x4000_0000 ==> ((after / 0x4000_0000) % 2 == 1) == (value != 0)
        &&& flag != 0x4000_0000 ==> (after / 0x4000_0000) % 2 == (before / 0x4000_0000) % 2
        &&& flag == 0x8000_0000 ==> ((after / 0x8000_0000) % 2 == 1) == (value != 0)
        &&& flag != 0x8000_0000 ==> (after / 0x8000_0000) % 2 == (before / 0x8000_0000) % 2
    }) by (bit_vector)
        requires
            flag == 0x2000_0000 || flag == 0x4000_0000 || flag == 0x8000_0000,
            value == 0 || value == flag,
            before == (word & !m) | b,
            after == (word & !(m | flag)) | ((b & !flag) | (value & flag)),
    ;
}

} // verus!
