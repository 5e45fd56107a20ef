//! The return types of the remote functions, and one strict decoder for each.
//! A call site names the schema it expects; nothing is inferred from the
//! bytes.

use crate::codec::{
    bytes_encoding, lemma_bytes_encoding_read, lemma_size_word, phase_word, read_bytes_encoding,
    read_phase, read_size, size_word,
};
use crate::error::FeedError;
use crate::types::{
    lemma_round_id_word, Address, Int256, RoundData, RoundId, Uint256, ROUND_DATA_BYTES,
};
use crate::word::{lemma_be_seq_len, lemma_pow256_widths, push_bytes, WORD};
use vstd::prelude::*;
use vstd::slice::slice_subrange;
use vstd::utf8::{encode_utf8, encode_utf8_valid_utf8, valid_utf8};

verus! {

/// The type that a remote function returns.
#[derive(Clone, Copy, Debug, PartialEq, Eq)]
pub enum Schema {
    /// An unsigned 256-bit integer: `latestAnswer`, `version`.
    Uint,
    /// The five fields of a round: `getRoundData`, `latestRoundData`.
    Round,
    /// A contract address: `phaseAggregators`.
    Address,
    /// A phase number: `phaseId`.
    Phase,
    /// A text: `description`.
    Text,
}

/// A decoded return value.
#[derive(Clone, Debug, PartialEq, Eq)]
pub enum Decoded {
    Uint(Uint256),
    Round(RoundData),
    Address(Address),
    Phase(u16),
    Text(String),
}

/// The payload that carries a text: the offset of the run, and the run of
/// the text's UTF-8 bytes.
pub open spec fn text_encoding(text: Seq<char>) -> Seq<u8> {
    size_word(WORD as nat) + bytes_encoding(encode_utf8(text))
}

/// A return value as a mathematical value: a text stands as its sequence of
/// characters.
pub enum Value {
    Uint(Uint256),
    Round(RoundData),
    Address(Address),
    Phase(u16),
    Text(Seq<char>),
}

impl View for Decoded {
    type V = Value;

    open spec fn view(&self) -> Value {
        match *self {
            Decoded::Uint(number) => Value::Uint(number),
            Decoded::Round(round) => Value::Round(round),
            Decoded::Address(address) => Value::Address(address),
            Decoded::Phase(phase) => Value::Phase(phase),
            Decoded::Text(text) => Value::Text(text@),
        }
    }
}

impl Value {
    /// The schema that the value belongs to.
    pub open spec fn schema(self) -> Schema {
        match self {
            Value::Uint(_) => Schema::Uint,
            Value::Round(_) => Schema::Round,
            Value::Address(_) => Schema::Address,
            Value::Phase(_) => Schema::Phase,
            Value::Text(_) => Schema::Text,
        }
    }

    /// The payload that carries the value.
    pub open spec fn encoding(self) -> Seq<u8> {
        match self {
            Value::Uint(number) => number.word(),
            Value::Round(round) => round.encoding(),
            Value::Address(address) => address.word(),
            Value::Phase(phase) => phase_word(phase),
            Value::Text(text) => text_encoding(text),
        }
    }
}

/// Whether `data` is the encoding of `value`, a value of `schema`.
pub open spec fn encodes(schema: Schema, data: Seq<u8>, value: Value) -> bool {
    value.schema() == schema && value.encoding() == data
}

/// The value of `schema` that `data` is the encoding of, if there is one.
/// There is never more than one.
pub open spec fn decoded_value(schema: Schema, data: Seq<u8>) -> Option<Value> {
    if exists|v: Value| encodes(schema, data, v) {
        Some(choose|v: Value| encodes(schema, data, v))
    } else {
        None
    }
}

/// What decoding `data` under `schema` comes to: the value whose encoding
/// `data` is, or `FeedError::Decode` where there is none.
pub open spec fn decodes_to(schema: Schema, data: Seq<u8>, value: Result<Decoded, FeedError>) -> bool {
    match value {
        Ok(v) => decoded_value(schema, data) == Some(v@),
        Err(e) => e == FeedError::Decode && decoded_value(schema, data) is None,
    }
}

/// Calls `String::from_utf8` of std. As its documentation says, the call
/// succeeds exactly on valid UTF-8, and the string then holds the bytes given.
#[verifier::external_body]
fn string_from_utf8(bytes: Vec<u8>) -> (text: Option<String>)
    ensures
        text is Some <==> valid_utf8(bytes@),
        text matches Some(t) ==> encode_utf8(t@) == bytes@,
{
    String::from_utf8(bytes).ok()
}

/// Decodes an unsigned 256-bit integer. Fails exactly when `data` is not one
/// word long.
pub fn decode_uint(data: &[u8]) -> (number: Option<Uint256>)
    ensures
        match number {
            Some(n) => n.word() == data@,
            None => forall|n: Uint256| n.word() != data@,
        },
{
    if data.len() == WORD {
        Some(Uint256::from_word(data))
    } else {
        assert(data@.len() == data.len());
        None
    }
}

/// Decodes a contract address. Fails exactly when `data` is not one word that
/// carries an address.
pub fn decode_address(data: &[u8]) -> (address: Option<Address>)
    ensures
        match address {
            Some(a) => a.word() == data@,
            None => forall|a: Address| a.word() != data@,
        },
{
    if data.len() == WORD {
        Address::from_word(data)
    } else {
        assert(data@.len() == data.len());
        None
    }
}

/// Decodes a phase number. Fails exactly when `data` is not one word that
/// carries a 16-bit number.
pub fn decode_phase(data: &[u8]) -> (phase: Option<u16>)
    ensures
        match phase {
            Some(p) => phase_word(p) == data@,
            None => forall|p: u16| phase_word(p) != data@,
        },
{
    if data.len() == WORD {
        read_phase(data)
    } else {
        proof {
            assert(data@.len() == data.len());
            assert forall|p: u16| phase_word(p) != data@ by {
                lemma_be_seq_len(p as nat, WORD as nat);
            }
        }
        None
    }
}

/// The fields of an encoded round, by position.
pub proof fn lemma_round_data_parts(round: RoundData)
    ensures
        round.encoding().len() == ROUND_DATA_BYTES,
        round.encoding().subrange(0, 32) == round.round_id.word(),
        round.encoding().subrange(32, 64) == round.answer.word(),
        round.encoding().subrange(64, 96) == round.started_at.word(),
        round.encoding().subrange(96, 128) == round.updated_at.word(),
        round.encoding().subrange(128, 160) == round.answered_in_round.word(),
{
    let run = round.encoding();
    lemma_round_id_word(round.round_id);
    lemma_round_id_word(round.answered_in_round);
    assert(run.subrange(0, 32) =~= round.round_id.word());
    assert(run.subrange(32, 64) =~= round.answer.word());
    assert(run.subrange(64, 96) =~= round.started_at.word());
    assert(run.subrange(96, 128) =~= round.updated_at.word());
    assert(run.subrange(128, 160) =~= round.answered_in_round.word());
}

/// Encodes a round as a payload of five words.
pub fn encode_round_data(round: &RoundData) -> (data: Vec<u8>)
    ensures
        data@ == round.encoding(),
{
    let mut data: Vec<u8> = Vec::new();
    round.round_id.push_word(&mut data);
    push_bytes(&mut data, round.answer.bytes.as_slice());
    push_bytes(&mut data, round.started_at.bytes.as_slice());
    push_bytes(&mut data, round.updated_at.bytes.as_slice());
    round.answered_in_round.push_word(&mut data);
    assert(data@ =~= round.encoding());
    data
}

/// Decodes a round. Fails exactly when `data` is the encoding of no round:
/// when it is not five words long, or when one of the two round identifiers
/// needs more than 80 bits.
pub fn decode_round_data(data: &[u8]) -> (round: Option<RoundData>)
    ensures
        match round {
            Some(r) => r.encoding() == data@,
            None => forall|r: RoundData| r.encoding() != data@,
        },
{
    proof {
        assert(data@.len() == data.len());
        assert forall|r: RoundData| r.encoding() == data@ implies data@.len() == ROUND_DATA_BYTES
            && data@.subrange(0, 32) == r.round_id.word() && data@.subrange(128, 160)
            == r.answered_in_round.word() by {
            lemma_round_data_parts(r);
        }
    }
    if data.len() != ROUND_DATA_BYTES {
        return None;
    }
    let round_id = match RoundId::from_word(slice_subrange(data, 0, 32)) {
        Some(id) => id,
        None => {
            return None;
        },
    };
    let answered_in_round = match RoundId::from_word(slice_subrange(data, 128, 160)) {
        Some(id) => id,
        None => {
            return None;
        },
    };
    let round = RoundData {
        round_id,
        answer: Int256::from_word(slice_subrange(data, 32, 64)),
        started_at: Uint256::from_word(slice_subrange(data, 64, 96)),
        updated_at: Uint256::from_word(slice_subrange(data, 96, 128)),
        answered_in_round,
    };
    assert(round.encoding() =~= data@);
    Some(round)
}

/// What a payload that carries `text` looks like to a reader.
pub proof fn lemma_text_encoding_read(text: Seq<char>, data: Seq<u8>)
    requires
        text_encoding(text) == data,
        data.len() <= usize::MAX,
    ensures
        data.len() >= 2 * WORD,
        data.subrange(0, WORD as int) == size_word(WORD as nat),
        data.subrange(WORD as int, data.len() as int) == bytes_encoding(encode_utf8(text)),
        data.subrange(2 * WORD, 2 * WORD + encode_utf8(text).len()) == encode_utf8(text),
{
    let run = data.subrange(WORD as int, data.len() as int);
    lemma_be_seq_len(WORD as nat, WORD as nat);
    assert(data.subrange(0, WORD as int) =~= size_word(WORD as nat));
    assert(run =~= bytes_encoding(encode_utf8(text)));
    lemma_bytes_encoding_read(encode_utf8(text), run);
    assert(data.subrange(2 * WORD, 2 * WORD + encode_utf8(text).len()) =~= run.subrange(
        WORD as int,
        WORD + encode_utf8(text).len(),
    ));
}

/// Decodes a text. Fails exactly when `data` is the encoding of no text: when
/// the offset word is not 32, when the run is cut short, padded wrongly or
/// followed by more bytes, or when the bytes are not valid UTF-8.
pub fn decode_text(data: &[u8]) -> (text: Option<String>)
    ensures
        match text {
            Some(t) => text_encoding(t@) == data@,
            None => forall|t: Seq<char>| text_encoding(t) != data@,
        },
{
    proof {
        lemma_pow256_widths();
        lemma_size_word(WORD as nat);
        assert(data@.len() == data.len());
        assert forall|t: Seq<char>| text_encoding(t) == data@ implies data@.len() >= 2 * WORD
            && data@.subrange(0, WORD as int) == size_word(WORD as nat) && data@.subrange(
            WORD as int,
            data@.len() as int,
        ) == bytes_encoding(encode_utf8(t)) by {
            lemma_text_encoding_read(t, data@);
        }
    }
    if data.len() < WORD {
        return None;
    }
    match read_size(slice_subrange(data, 0, WORD)) {
        Some(offset) => {
            proof {
                lemma_size_word(offset as nat);
            }
            if offset != WORD {
                return None;
            }
        },
        None => {
            return None;
        },
    }
    let run = slice_subrange(data, WORD, data.len());
    let bytes = match read_bytes_encoding(run) {
        Some(b) => b,
        None => {
            return None;
        },
    };
    let ghost held = bytes@;
    proof {
        lemma_bytes_encoding_read(held, run@);
        assert forall|t: Seq<char>| text_encoding(t) == data@ implies encode_utf8(t) == held by {
            lemma_bytes_encoding_read(encode_utf8(t), run@);
        }
        assert forall|t: Seq<char>| text_encoding(t) == data@ implies valid_utf8(held) by {
            encode_utf8_valid_utf8(t);
        }
    }
    match string_from_utf8(bytes) {
        Some(text) => {
            assert(text_encoding(text@) =~= data@);
            Some(text)
        },
        None => None,
    }
}

/// Decodes `data` as a value of the schema named. Fails, with
/// `FeedError::Decode`, exactly when `data` is the encoding of no value of
/// that schema.
pub fn decode(schema: Schema, data: &[u8]) -> (value: Result<Decoded, FeedError>)
    ensures
        decodes_to(schema, data@, value),
{
    assert(data@.len() == data.len());
    let value = match schema {
        Schema::Uint => match decode_uint(data) {
            Some(number) => Ok(Decoded::Uint(number)),
            None => Err(FeedError::Decode),
        },
        Schema::Round => match decode_round_data(data) {
            Some(round) => Ok(Decoded::Round(round)),
            None => Err(FeedError::Decode),
        },
        Schema::Address => match decode_address(data) {
            Some(address) => Ok(Decoded::Address(address)),
            None => Err(FeedError::Decode),
        },
        Schema::Phase => match decode_phase(data) {
            Some(phase) => Ok(Decoded::Phase(phase)),
            None => Err(FeedError::Decode),
        },
        Schema::Text => match decode_text(data) {
            Some(text) => Ok(Decoded::Text(text)),
            None => Err(FeedError::Decode),
        },
    };
    proof {
        if let Ok(v) = &value {
            lemma_decoded_value(schema, data@, v@);
        } else {
            assert forall|v: Value| !encodes(schema, data@, v) by {}
        }
    }
    value
}

/// A round identifier is told by its word.
pub proof fn lemma_round_id_word_injective(a: RoundId, b: RoundId)
    requires
        a.word() == b.word(),
    ensures
        a == b,
{
    lemma_round_id_word(a);
    lemma_round_id_word(b);
    assert(a.phase == b.phase && a.local == b.local) by (nonlinear_arith)
        requires
            a.phase as nat * 0x1_0000_0000_0000_0000 + a.local as nat == b.phase as nat
                * 0x1_0000_0000_0000_0000 + b.local as nat,
            a.local < 0x1_0000_0000_0000_0000,
            b.local < 0x1_0000_0000_0000_0000,
    ;
}

/// Two values of one schema with the same encoding are the same value: a
/// payload decodes in one way only, and what was encoded is what comes back.
pub proof fn lemma_encoding_injective(a: Value, b: Value)
    requires
        a.schema() == b.schema(),
        a.encoding() == b.encoding(),
        a.encoding().len() <= usize::MAX,
    ensures
        a == b,
{
    match (a, b) {
        (Value::Uint(x), Value::Uint(y)) => {
            assert(x.bytes =~= y.bytes);
        },
        (Value::Round(x), Value::Round(y)) => {
            lemma_round_data_parts(x);
            lemma_round_data_parts(y);
            lemma_round_id_word_injective(x.round_id, y.round_id);
            lemma_round_id_word_injective(x.answered_in_round, y.answered_in_round);
            assert(x.answer.bytes =~= y.answer.bytes);
            assert(x.started_at.bytes =~= y.started_at.bytes);
            assert(x.updated_at.bytes =~= y.updated_at.bytes);
        },
        (Value::Address(x), Value::Address(y)) => {
            assert(x.word().subrange(12, 32) =~= x.bytes@);
            assert(y.word().subrange(12, 32) =~= y.bytes@);
            assert(x.bytes =~= y.bytes);
        },
        (Value::Phase(x), Value::Phase(y)) => {
            lemma_pow256_widths();
            lemma_size_word(x as nat);
            lemma_size_word(y as nat);
        },
        (Value::Text(x), Value::Text(y)) => {
            lemma_text_encoding_read(x, a.encoding());
            lemma_text_encoding_read(y, a.encoding());
            lemma_bytes_encoding_read(encode_utf8(x), bytes_encoding(encode_utf8(x)));
            lemma_bytes_encoding_read(encode_utf8(y), bytes_encoding(encode_utf8(x)));
            vstd::utf8::encode_utf8_decode_utf8(x);
            vstd::utf8::encode_utf8_decode_utf8(y);
        },
        _ => {},
    }
}

/// The value that `data` encodes is the one it decodes to.
pub proof fn lemma_decoded_value(schema: Schema, data: Seq<u8>, value: Value)
    requires
        encodes(schema, data, value),
        data.len() <= usize::MAX,
    ensures
        decoded_value(schema, data) == Some(value),
{
    let chosen = choose|v: Value| encodes(schema, data, v);
    lemma_encoding_injective(chosen, value);
}

/// Encoding a value and decoding the payload gives the value back.
pub proof fn lemma_decode_inverts_encode(value: Value)
    requires
        value.encoding().len() <= usize::MAX,
    ensures
        decoded_value(value.schema(), value.encoding()) == Some(value),
{
    lemma_decoded_value(value.schema(), value.encoding(), value);
}

} // verus!
