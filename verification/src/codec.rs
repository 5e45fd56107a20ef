//! The binary layout of call payloads and return payloads: 32-byte words for
//! fixed-size values, and length-prefixed, zero-padded runs for byte strings.
//!
//! Every decoder here is strict. It accepts a payload exactly when the payload
//! is the encoding of some value, and then returns that value; a payload that
//! is truncated, has bytes to spare or holds a word out of its type's range is
//! refused.

use crate::word::{
    be_nat, be_seq, is_zero_range, lemma_be_nat_of_be_seq, lemma_be_seq_len,
    lemma_be_seq_of_be_nat, lemma_pow256_monotonic, lemma_pow256_widths, pow256, push_bytes,
    push_word, push_zeros, read_uint, zeros, WORD,
};
use vstd::prelude::*;
use vstd::slice::{slice_subrange, slice_to_vec};

verus! {

/// The payload word that carries a size or an offset.
pub open spec fn size_word(size: nat) -> Seq<u8> {
    be_seq(size, WORD as nat)
}

/// The payload word that carries a flag: one for true, zero for false.
pub open spec fn bool_word(flag: bool) -> Seq<u8> {
    be_seq(
        if flag {
            1
        } else {
            0
        },
        WORD as nat,
    )
}

/// The payload word that carries a phase number.
pub open spec fn phase_word(phase: u16) -> Seq<u8> {
    be_seq(phase as nat, WORD as nat)
}

/// A word written from a number below `2^64` spells that number.
pub proof fn lemma_size_word(size: nat)
    requires
        size < pow256(8),
    ensures
        size_word(size).len() == WORD,
        be_nat(size_word(size)) == size,
{
    lemma_pow256_monotonic(8, 32);
    lemma_be_seq_len(size, WORD as nat);
    lemma_be_nat_of_be_seq(size, WORD as nat);
}

/// Appends a flag as a payload word.
pub fn push_bool(out: &mut Vec<u8>, flag: bool)
    ensures
        final(out)@ == old(out)@ + bool_word(flag),
{
    push_word(
        out,
        if flag {
            1
        } else {
            0
        },
    );
}

/// Reads a flag from a payload word. Fails exactly when the word is neither
/// zero nor one.
pub fn read_bool(word: &[u8]) -> (flag: Option<bool>)
    requires
        word.len() == WORD,
    ensures
        match flag {
            Some(f) => bool_word(f) == word@,
            None => forall|f: bool| bool_word(f) != word@,
        },
{
    proof {
        lemma_pow256_widths();
        lemma_be_seq_of_be_nat(word@);
        lemma_size_word(0);
        lemma_size_word(1);
    }
    match read_uint(word, 1) {
        Some(0) => Some(false),
        Some(1) => Some(true),
        _ => None,
    }
}

/// Reads a phase number from a payload word. Fails exactly when the word
/// spells a number that needs more than 16 bits.
pub fn read_phase(word: &[u8]) -> (phase: Option<u16>)
    requires
        word.len() == WORD,
    ensures
        match phase {
            Some(p) => phase_word(p) == word@,
            None => forall|p: u16| phase_word(p) != word@,
        },
{
    proof {
        lemma_pow256_widths();
        lemma_be_seq_of_be_nat(word@);
    }
    match read_uint(word, 2) {
        Some(number) => Some(number as u16),
        None => {
            assert forall|p: u16| phase_word(p) != word@ by {
                lemma_size_word(p as nat);
            }
            None
        },
    }
}

/// Reads a size or an offset from a payload word. Fails exactly when the word
/// spells a number that no `usize` holds.
pub fn read_size(word: &[u8]) -> (size: Option<usize>)
    requires
        word.len() == WORD,
    ensures
        match size {
            Some(s) => size_word(s as nat) == word@,
            None => be_nat(word@) > usize::MAX,
        },
{
    proof {
        lemma_pow256_widths();
        lemma_be_seq_of_be_nat(word@);
    }
    match read_uint(word, 8) {
        Some(number) => {
            if number <= usize::MAX as u128 {
                Some(number as usize)
            } else {
                None
            }
        },
        None => None,
    }
}

/// Number of zero bytes that follow a byte string of length `len`, so that
/// the run ends on a word boundary.
pub open spec fn padding(len: nat) -> nat {
    if len % (WORD as nat) == 0 {
        0
    } else {
        (WORD - len % (WORD as nat)) as nat
    }
}

/// The run that carries a byte string: its length as a word, the bytes, and
/// zero bytes up to the next word boundary.
pub open spec fn bytes_encoding(bytes: Seq<u8>) -> Seq<u8> {
    size_word(bytes.len()) + bytes + zeros(padding(bytes.len()))
}

/// The parts of an encoded byte string, by position.
pub proof fn lemma_bytes_encoding_parts(bytes: Seq<u8>)
    ensures
        bytes_encoding(bytes).len() == WORD + bytes.len() + padding(bytes.len()),
        bytes_encoding(bytes).subrange(0, WORD as int) == size_word(bytes.len()),
        bytes_encoding(bytes).subrange(WORD as int, WORD + bytes.len()) == bytes,
        bytes_encoding(bytes).subrange(
            WORD + bytes.len(),
            bytes_encoding(bytes).len() as int,
        ) == zeros(padding(bytes.len())),
{
    let run = bytes_encoding(bytes);
    let head = size_word(bytes.len());
    let tail = zeros(padding(bytes.len()));
    lemma_be_seq_len(bytes.len(), WORD as nat);
    assert(head.len() == WORD);
    assert(run.len() == WORD + bytes.len() + padding(bytes.len()));
    assert(run.subrange(0, WORD as int) =~= head);
    assert(run.subrange(WORD as int, WORD + bytes.len()) =~= bytes);
    assert(run.subrange(WORD + bytes.len(), run.len() as int) =~= tail);
}

/// What a payload that carries `bytes` looks like to a reader.
pub proof fn lemma_bytes_encoding_read(bytes: Seq<u8>, data: Seq<u8>)
    requires
        bytes_encoding(bytes) == data,
        data.len() <= usize::MAX,
    ensures
        data.len() == WORD + bytes.len() + padding(bytes.len()),
        data.subrange(0, WORD as int) == size_word(bytes.len()),
        be_nat(data.subrange(0, WORD as int)) == bytes.len(),
        data.subrange(WORD as int, WORD + bytes.len()) == bytes,
        data.subrange(WORD + bytes.len(), data.len() as int) == zeros(padding(bytes.len())),
{
    lemma_bytes_encoding_parts(bytes);
    lemma_pow256_widths();
    lemma_size_word(bytes.len());
}

/// Appends the run that carries `bytes`.
pub fn push_bytes_encoding(out: &mut Vec<u8>, bytes: &[u8])
    ensures
        final(out)@ == old(out)@ + bytes_encoding(bytes@),
{
    push_word(out, bytes.len() as u128);
    push_bytes(out, bytes);
    push_zeros(out, (WORD - bytes.len() % WORD) % WORD);
    assert(out@ =~= old(out)@ + bytes_encoding(bytes@));
}

/// Reads a byte string from the run that carries it. Fails exactly when
/// `data` is the run of no byte string: when it is shorter than a word, when
/// its length word disagrees with the bytes that follow, or when the padding
/// is not zero.
pub fn read_bytes_encoding(data: &[u8]) -> (bytes: Option<Vec<u8>>)
    ensures
        match bytes {
            Some(b) => bytes_encoding(b@) == data@,
            None => forall|b: Seq<u8>| bytes_encoding(b) != data@,
        },
{
    proof {
        lemma_pow256_widths();
        assert(data@.len() == data.len());
        assert forall|b: Seq<u8>| bytes_encoding(b) == data@ implies data@.len() == WORD + b.len()
            + padding(b.len()) && be_nat(data@.subrange(0, WORD as int)) == b.len()
            && data@.subrange(WORD + b.len(), data@.len() as int) == zeros(padding(b.len())) by {
            lemma_bytes_encoding_read(b, data@);
        }
    }
    if data.len() < WORD {
        return None;
    }
    let head = slice_subrange(data, 0, WORD);
    let room: usize = data.len() - WORD;
    match read_size(head) {
        None => None,
        Some(len) => {
            proof {
                lemma_size_word(len as nat);
            }
            if len > room {
                return None;
            }
            if room - len != (WORD - len % WORD) % WORD {
                return None;
            }
            if !is_zero_range(data, WORD + len, data.len()) {
                return None;
            }
            let bytes = slice_to_vec(slice_subrange(data, WORD, WORD + len));
            assert(bytes_encoding(bytes@) =~= data@);
            Some(bytes)
        },
    }
}

} // verus!
