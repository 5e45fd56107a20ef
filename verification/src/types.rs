//! The values that travel in payload words: addresses, 256-bit integers and
//! composite round identifiers.

use crate::word::{
    be_nat, be_seq, is_zero_range, lemma_be_nat_bound, lemma_be_nat_fits, lemma_be_nat_of_be_seq,
    lemma_be_seq_leading_zeros, lemma_be_seq_len, lemma_be_seq_of_be_nat, lemma_pow256_widths,
    pow256, push_be, push_bytes, push_zeros, read_uint, zeros, WORD,
};
use vstd::prelude::*;

verus! {

/// Number of bytes in an address.
pub const ADDRESS_BYTES: usize = 20;

/// Copies `N` bytes of `bytes`, from `start`, into an array.
pub fn array_from<const N: usize>(bytes: &[u8], start: usize) -> (array: [u8; N])
    requires
        start + N <= bytes.len(),
    ensures
        array@ == bytes@.subrange(start as int, start + N),
{
    let mut array: [u8; N] = [0u8; N];
    let mut i: usize = 0;
    while i < N
        invariant
            i <= N,
            start + N <= bytes.len(),
            forall|k: int| 0 <= k < i ==> array@[k] == bytes@[start + k],
        decreases N - i,
    {
        array[i] = bytes[start + i];
        i = i + 1;
    }
    assert(array@ =~= bytes@.subrange(start as int, start + N));
    array
}

/// The address of a contract.
#[derive(Clone, Copy, Debug, PartialEq, Eq)]
pub struct Address {
    pub bytes: [u8; 20],
}

impl Address {
    /// The payload word that carries this address: twelve zero bytes, then
    /// the address.
    pub open spec fn word(self) -> Seq<u8> {
        zeros(12) + self.bytes@
    }

    /// Appends the address as a payload word.
    pub fn push_word(&self, out: &mut Vec<u8>)
        ensures
            final(out)@ == old(out)@ + self.word(),
    {
        push_zeros(out, WORD - ADDRESS_BYTES);
        push_bytes(out, self.bytes.as_slice());
        assert(out@ =~= old(out)@ + self.word());
    }

    /// Reads an address from a payload word. Fails exactly when the word
    /// carries no address, that is, when one of its first twelve bytes is set.
    pub fn from_word(word: &[u8]) -> (address: Option<Address>)
        requires
            word.len() == WORD,
        ensures
            match address {
                Some(a) => a.word() == word@,
                None => forall|a: Address| a.word() != word@,
            },
    {
        if is_zero_range(word, 0, WORD - ADDRESS_BYTES) {
            let address = Address { bytes: array_from::<20>(word, WORD - ADDRESS_BYTES) };
            assert(address.word() =~= word@);
            Some(address)
        } else {
            assert forall|a: Address| a.word() != word@ by {
                assert(a.word().subrange(0, 12) =~= zeros(12));
            }
            None
        }
    }
}

/// An unsigned 256-bit integer, held as its big-endian bytes.
#[derive(Clone, Copy, Debug, PartialEq, Eq)]
pub struct Uint256 {
    pub bytes: [u8; 32],
}

impl Uint256 {
    /// The number held.
    pub open spec fn value(self) -> nat {
        be_nat(self.bytes@)
    }

    /// The payload word that carries this number.
    pub open spec fn word(self) -> Seq<u8> {
        self.bytes@
    }

    /// The integer `value`.
    pub fn from_u128(value: u128) -> (number: Uint256)
        ensures
            number.value() == value,
            number.word() == be_seq(value as nat, WORD as nat),
    {
        let mut digits: Vec<u8> = Vec::new();
        push_be(&mut digits, value, WORD);
        proof {
            lemma_be_seq_len(value as nat, WORD as nat);
            lemma_pow256_widths();
            lemma_be_seq_leading_zeros(value as nat, 16, WORD as nat);
            lemma_be_nat_fits(be_seq(value as nat, WORD as nat), 16);
            lemma_be_nat_of_be_seq(value as nat, 16);
            assert(digits@ =~= be_seq(value as nat, WORD as nat));
            assert(digits@.subrange(16, 32) =~= be_seq(value as nat, 16));
            assert(digits@.subrange(0, 16) =~= zeros(16));
        }
        let number = Uint256 { bytes: array_from::<32>(digits.as_slice(), 0) };
        assert(number.bytes@ =~= digits@);
        number
    }

    /// The number as a machine integer, if it fits.
    pub fn to_u128(&self) -> (value: Option<u128>)
        ensures
            match value {
                Some(v) => v == self.value(),
                None => self.value() > u128::MAX,
            },
    {
        proof {
            lemma_pow256_widths();
        }
        read_uint(self.bytes.as_slice(), 16)
    }

    /// Whether the number is greater than `limit`.
    pub fn exceeds(&self, limit: u128) -> (greater: bool)
        ensures
            greater == (self.value() > limit),
    {
        match self.to_u128() {
            Some(v) => v > limit,
            None => true,
        }
    }

    /// The number that a payload word carries.
    pub fn from_word(word: &[u8]) -> (number: Uint256)
        requires
            word.len() == WORD,
        ensures
            number.word() == word@,
    {
        let number = Uint256 { bytes: array_from::<32>(word, 0) };
        assert(number.bytes@ =~= word@);
        number
    }
}

/// A signed 256-bit integer, held as the big-endian bytes of its two's
/// complement form.
#[derive(Clone, Copy, Debug, PartialEq, Eq)]
pub struct Int256 {
    pub bytes: [u8; 32],
}

impl Int256 {
    /// The number held.
    pub open spec fn value(self) -> int {
        if self.bytes@[0] >= 0x80 {
            be_nat(self.bytes@) - pow256(32)
        } else {
            be_nat(self.bytes@) as int
        }
    }

    /// The payload word that carries this number.
    pub open spec fn word(self) -> Seq<u8> {
        self.bytes@
    }

    /// Whether the number is below zero.
    pub fn is_negative(&self) -> (negative: bool)
        ensures
            negative == (self.value() < 0),
    {
        proof {
            lemma_be_nat_bound(self.bytes@);
        }
        self.bytes[0] >= 0x80
    }

    /// The number that a payload word carries.
    pub fn from_word(word: &[u8]) -> (number: Int256)
        requires
            word.len() == WORD,
        ensures
            number.word() == word@,
    {
        let number = Int256 { bytes: array_from::<32>(word, 0) };
        assert(number.bytes@ =~= word@);
        number
    }
}

/// The first round identifier that does not fit in 80 bits.
pub const ROUND_ID_LIMIT: u128 = 0x1_0000_0000_0000_0000_0000;

/// The weight of the phase within a composite round identifier.
pub const PHASE_UNIT: u128 = 0x1_0000_0000_0000_0000;

/// A round identifier as a proxy reports it: the phase of the aggregator that
/// produced the round, and the round's number within that aggregator.
#[derive(Clone, Copy, Debug, PartialEq, Eq)]
pub struct RoundId {
    pub phase: u16,
    pub local: u64,
}

impl RoundId {
    /// The 80-bit number that stands for this identifier: the phase in the
    /// upper 16 bits, the local round in the lower 64.
    pub open spec fn composite(self) -> nat {
        (self.phase as nat) * (PHASE_UNIT as nat) + self.local as nat
    }

    /// The payload word that carries this identifier.
    pub open spec fn word(self) -> Seq<u8> {
        be_seq(self.composite(), WORD as nat)
    }

    /// The composite number.
    pub fn to_u128(&self) -> (number: u128)
        ensures
            number == self.composite(),
            number < ROUND_ID_LIMIT,
    {
        (self.phase as u128) * PHASE_UNIT + self.local as u128
    }

    /// The identifier that the composite number `number` stands for.
    pub open spec fn of_composite(number: nat) -> RoundId {
        RoundId {
            phase: (number / (PHASE_UNIT as nat)) as u16,
            local: (number % (PHASE_UNIT as nat)) as u64,
        }
    }

    /// The identifier that `number` stands for, if it fits in 80 bits.
    pub fn from_u128(number: u128) -> (id: Option<RoundId>)
        ensures
            match id {
                Some(i) => i.composite() == number && i == RoundId::of_composite(number as nat),
                None => number >= ROUND_ID_LIMIT,
            },
            id is Some <==> number < ROUND_ID_LIMIT,
    {
        if number >= ROUND_ID_LIMIT {
            None
        } else {
            Some(RoundId { phase: (number / PHASE_UNIT) as u16, local: (number % PHASE_UNIT) as u64 })
        }
    }

    /// Appends the identifier as a payload word.
    pub fn push_word(&self, out: &mut Vec<u8>)
        ensures
            final(out)@ == old(out)@ + self.word(),
    {
        push_be(out, self.to_u128(), WORD);
    }

    /// Reads an identifier from a payload word. Fails exactly when the word
    /// carries no identifier, that is, when its number needs more than 80 bits.
    pub fn from_word(word: &[u8]) -> (id: Option<RoundId>)
        requires
            word.len() == WORD,
        ensures
            match id {
                Some(i) => i.word() == word@,
                None => forall|i: RoundId| i.word() != word@,
            },
    {
        proof {
            lemma_pow256_widths();
            lemma_be_seq_of_be_nat(word@);
        }
        match read_uint(word, 10) {
            Some(number) => RoundId::from_u128(number),
            None => {
                assert forall|i: RoundId| i.word() != word@ by {
                    lemma_round_id_word(i);
                }
                None
            },
        }
    }
}

/// The word of a round identifier spells its composite number.
pub proof fn lemma_round_id_word(id: RoundId)
    ensures
        id.word().len() == WORD,
        be_nat(id.word()) == id.composite(),
        id.composite() < pow256(10),
{
    lemma_pow256_widths();
    crate::word::lemma_pow256_monotonic(10, 32);
    lemma_be_seq_len(id.composite(), WORD as nat);
    lemma_be_nat_of_be_seq(id.composite(), WORD as nat);
}

/// One round of a price feed, as `getRoundData` and `latestRoundData` return
/// it. The answer is not scaled: the feed's decimal count is no part of the
/// payload.
#[derive(Clone, Copy, Debug, PartialEq, Eq)]
pub struct RoundData {
    pub round_id: RoundId,
    pub answer: Int256,
    pub started_at: Uint256,
    pub updated_at: Uint256,
    pub answered_in_round: RoundId,
}

/// Number of bytes in an encoded round: five words.
pub const ROUND_DATA_BYTES: usize = 160;

impl RoundData {
    /// The payload that carries this round: its five fields, one word each.
    pub open spec fn encoding(self) -> Seq<u8> {
        self.round_id.word() + self.answer.word() + self.started_at.word()
            + self.updated_at.word() + self.answered_in_round.word()
    }
}

/// What the registry knows of a feed: the proxy to query, and the number of
/// decimals by which its answers are scaled.
#[derive(Clone, Copy, Debug, PartialEq, Eq)]
pub struct OracleDescriptor {
    pub proxy_address: Address,
    pub decimals: u8,
}

/// One generation of a feed: the aggregator that served a phase, and the
/// version it reports.
#[derive(Clone, Copy, Debug, PartialEq, Eq)]
pub struct PhaseRecord {
    pub phase_id: u16,
    pub aggregator_address: Address,
    pub version: Uint256,
}

} // verus!
