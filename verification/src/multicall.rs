//! The batched call: many read-only calls packed into one `aggregate3`
//! request, and the envelope of per-call results that comes back.

use crate::array::{
    array_encoding, lemma_array_encoding_injective, push_array_encoding, read_array_encoding,
    views,
};
use crate::codec::{
    bool_word, bytes_encoding, lemma_size_word, push_bool, push_bytes_encoding, read_bool,
    read_bytes_encoding, read_size, size_word,
};
use crate::error::FeedError;
use crate::selector::{call_payload, encode_call_payload};
use crate::types::Address;
use crate::word::{lemma_be_seq_len, lemma_pow256_widths, push_word, WORD};
use vstd::prelude::*;
use vstd::slice::slice_subrange;

verus! {

/// One call of a batch.
#[derive(Clone, Debug, PartialEq, Eq)]
pub struct Call {
    /// The contract to call.
    pub target: Address,
    /// Whether the batch goes on when this call reverts.
    pub allow_failure: bool,
    /// The encoded call.
    pub payload: Vec<u8>,
}

/// A call, with its payload as a sequence of bytes.
pub struct CallView {
    pub target: Address,
    pub allow_failure: bool,
    pub payload: Seq<u8>,
}

impl View for Call {
    type V = CallView;

    open spec fn view(&self) -> CallView {
        CallView { target: self.target, allow_failure: self.allow_failure, payload: self.payload@ }
    }
}

impl CallView {
    /// The encoding of the call as an element of the batch: target, flag, the
    /// offset of the payload within the element, and the payload.
    pub open spec fn encoding(self) -> Seq<u8> {
        self.target.word() + bool_word(self.allow_failure) + size_word(3 * WORD as nat)
            + bytes_encoding(self.payload)
    }
}

/// What one call of a batch came to: whether it succeeded, and the bytes it
/// returned.
#[derive(Clone, Debug, PartialEq, Eq)]
pub struct CallResult {
    pub success: bool,
    pub raw_return: Vec<u8>,
}

/// A call result, with the returned bytes as a sequence.
pub struct ResultView {
    pub success: bool,
    pub raw_return: Seq<u8>,
}

impl View for CallResult {
    type V = ResultView;

    open spec fn view(&self) -> ResultView {
        ResultView { success: self.success, raw_return: self.raw_return@ }
    }
}

impl ResultView {
    /// The encoding of the result as an element of the envelope: flag, the
    /// offset of the returned bytes within the element, and the bytes.
    pub open spec fn encoding(self) -> Seq<u8> {
        bool_word(self.success) + size_word(2 * WORD as nat) + bytes_encoding(self.raw_return)
    }
}

/// The calls of a batch, each by its view.
pub open spec fn call_views(calls: Seq<Call>) -> Seq<CallView> {
    Seq::new(calls.len(), |i: int| calls[i]@)
}

/// The results of a batch, each by its view.
pub open spec fn result_views(results: Seq<CallResult>) -> Seq<ResultView> {
    Seq::new(results.len(), |i: int| results[i]@)
}

/// The encodings of the calls of a batch, in order.
pub open spec fn call_parts(calls: Seq<CallView>) -> Seq<Seq<u8>> {
    Seq::new(calls.len(), |i: int| calls[i].encoding())
}

/// The encodings of the results of a batch, in order.
pub open spec fn result_parts(results: Seq<ResultView>) -> Seq<Seq<u8>> {
    Seq::new(results.len(), |i: int| results[i].encoding())
}

/// The canonical signature of the batch function.
pub open spec fn aggregate3_signature() -> Seq<char> {
    "aggregate3((address,bool,bytes)[])"@
}

/// The payload of the batch request: the selector of `aggregate3`, the offset
/// of its one argument, and the array of calls in the order given.
pub open spec fn aggregate3_payload(calls: Seq<CallView>) -> Seq<u8> {
    call_payload(
        aggregate3_signature(),
        size_word(WORD as nat) + array_encoding(call_parts(calls)),
    )
}

/// The envelope that `aggregate3` returns: the offset of the array, and the
/// array of results in the order of the calls.
pub open spec fn aggregate3_return(results: Seq<ResultView>) -> Seq<u8> {
    size_word(WORD as nat) + array_encoding(result_parts(results))
}

/// Encodes one call as an element of the batch.
pub fn encode_call(call: &Call) -> (part: Vec<u8>)
    ensures
        part@ == call@.encoding(),
{
    let mut part: Vec<u8> = Vec::new();
    call.target.push_word(&mut part);
    push_bool(&mut part, call.allow_failure);
    push_word(&mut part, 3 * WORD as u128);
    push_bytes_encoding(&mut part, call.payload.as_slice());
    assert(part@ =~= call@.encoding());
    part
}

/// Packs the calls of a batch into the payload of one `aggregate3` request.
/// The calls stand in the payload in the order given. An empty batch is not
/// sent: it has no payload.
pub fn encode_aggregate3(calls: &Vec<Call>) -> (payload: Option<Vec<u8>>)
    ensures
        match payload {
            Some(p) => calls@.len() > 0 && p@ == aggregate3_payload(call_views(calls@)),
            None => calls@.len() == 0,
        },
{
    if calls.len() == 0 {
        return None;
    }
    let mut parts: Vec<Vec<u8>> = Vec::new();
    let mut i: usize = 0;
    while i < calls.len()
        invariant
            i <= calls.len(),
            parts@.len() == i,
            forall|j: int| 0 <= j < i ==> parts@[j]@ == calls@[j]@.encoding(),
        decreases calls.len() - i,
    {
        parts.push(encode_call(&calls[i]));
        i = i + 1;
    }
    assert(views(parts@) =~= call_parts(call_views(calls@)));
    let mut arguments: Vec<u8> = Vec::new();
    push_word(&mut arguments, WORD as u128);
    push_array_encoding(&mut arguments, &parts);
    assert(arguments@ =~= size_word(WORD as nat) + array_encoding(call_parts(call_views(calls@))));
    Some(encode_call_payload("aggregate3((address,bool,bytes)[])", arguments.as_slice()))
}

/// The parts of an encoded result, by position.
pub proof fn lemma_result_encoding_parts(result: ResultView)
    ensures
        result.encoding().len() == 2 * WORD + bytes_encoding(result.raw_return).len(),
        result.encoding().subrange(0, WORD as int) == bool_word(result.success),
        result.encoding().subrange(WORD as int, 2 * WORD) == size_word(2 * WORD as nat),
        result.encoding().subrange(2 * WORD, result.encoding().len() as int) == bytes_encoding(
            result.raw_return,
        ),
{
    let run = result.encoding();
    lemma_be_seq_len(
        if result.success {
            1
        } else {
            0
        },
        WORD as nat,
    );
    lemma_be_seq_len(2 * WORD as nat, WORD as nat);
    assert(run.subrange(0, WORD as int) =~= bool_word(result.success));
    assert(run.subrange(WORD as int, 2 * WORD) =~= size_word(2 * WORD as nat));
    assert(run.subrange(2 * WORD, run.len() as int) =~= bytes_encoding(result.raw_return));
}

/// Reads one result from its encoding as an element of the envelope. Fails
/// exactly when `part` is the encoding of no result.
pub fn read_result(part: &[u8]) -> (result: Option<CallResult>)
    ensures
        match result {
            Some(r) => r@.encoding() == part@,
            None => forall|r: ResultView| r.encoding() != part@,
        },
{
    proof {
        lemma_pow256_widths();
        assert(part@.len() == part.len());
        assert forall|r: ResultView| r.encoding() == part@ implies part@.len() >= 2 * WORD
            && part@.subrange(0, WORD as int) == bool_word(r.success) && part@.subrange(
            WORD as int,
            2 * WORD,
        ) == size_word(2 * WORD as nat) && part@.subrange(2 * WORD, part@.len() as int)
            == bytes_encoding(r.raw_return) by {
            lemma_result_encoding_parts(r);
        }
    }
    if part.len() < 2 * WORD {
        return None;
    }
    let success = match read_bool(slice_subrange(part, 0, WORD)) {
        Some(flag) => flag,
        None => {
            return None;
        },
    };
    match read_size(slice_subrange(part, WORD, 2 * WORD)) {
        Some(offset) => {
            proof {
                lemma_size_word(offset as nat);
                lemma_size_word(2 * WORD as nat);
            }
            if offset != 2 * WORD {
                return None;
            }
        },
        None => {
            proof {
                lemma_size_word(2 * WORD as nat);
            }
            return None;
        },
    }
    match read_bytes_encoding(slice_subrange(part, 2 * WORD, part.len())) {
        Some(raw_return) => {
            let result = CallResult { success, raw_return };
            assert(result@.encoding() =~= part@);
            Some(result)
        },
        None => None,
    }
}

/// What an envelope that carries `results` looks like to a reader.
pub proof fn lemma_aggregate3_return_read(results: Seq<ResultView>, data: Seq<u8>)
    requires
        aggregate3_return(results) == data,
    ensures
        data.len() >= WORD,
        data.subrange(0, WORD as int) == size_word(WORD as nat),
        data.subrange(WORD as int, data.len() as int) == array_encoding(result_parts(results)),
{
    lemma_be_seq_len(WORD as nat, WORD as nat);
    assert(data.subrange(0, WORD as int) =~= size_word(WORD as nat));
    assert(data.subrange(WORD as int, data.len() as int) =~= array_encoding(
        result_parts(results),
    ));
}

/// Opens the envelope that `aggregate3` returned. The results come back in
/// the order in which the envelope holds them, unchanged. Fails, with
/// `FeedError::Decode`, exactly when `data` is the envelope of no sequence of
/// results.
pub fn decode_aggregate3(data: &[u8]) -> (results: Result<Vec<CallResult>, FeedError>)
    ensures
        match results {
            Ok(r) => aggregate3_return(result_views(r@)) == data@ && opened(data@) == Some(
                result_views(r@),
            ),
            Err(e) => e == FeedError::Decode && opened(data@) is None && forall|
                rs: Seq<ResultView>,
            |
                aggregate3_return(rs) != data@,
        },
{
    proof {
        lemma_pow256_widths();
        lemma_size_word(WORD as nat);
        assert(data@.len() == data.len());
        assert forall|rs: Seq<ResultView>| aggregate3_return(rs) == data@ implies data@.len()
            >= WORD && data@.subrange(0, WORD as int) == size_word(WORD as nat) && data@.subrange(
            WORD as int,
            data@.len() as int,
        ) == array_encoding(result_parts(rs)) by {
            lemma_aggregate3_return_read(rs, data@);
        }
    }
    if data.len() < WORD {
        return Err(FeedError::Decode);
    }
    match read_size(slice_subrange(data, 0, WORD)) {
        Some(offset) => {
            proof {
                lemma_size_word(offset as nat);
            }
            if offset != WORD {
                return Err(FeedError::Decode);
            }
        },
        None => {
            return Err(FeedError::Decode);
        },
    }
    let rest = slice_subrange(data, WORD, data.len());
    let parts = match read_array_encoding(rest) {
        Some(p) => p,
        None => {
            return Err(FeedError::Decode);
        },
    };
    let mut results: Vec<CallResult> = Vec::new();
    let mut i: usize = 0;
    while i < parts.len()
        invariant
            i <= parts.len(),
            results@.len() == i,
            rest@ == data@.subrange(WORD as int, data@.len() as int),
            rest@.len() <= usize::MAX,
            array_encoding(views(parts@)) == rest@,
            forall|j: int| 0 <= j < i ==> results@[j]@.encoding() == parts@[j]@,
        decreases parts.len() - i,
    {
        match read_result(parts[i].as_slice()) {
            Some(result) => {
                results.push(result);
            },
            None => {
                assert forall|rs: Seq<ResultView>| aggregate3_return(rs) != data@ by {
                    if aggregate3_return(rs) == data@ {
                        lemma_aggregate3_return_read(rs, data@);
                        lemma_array_encoding_injective(result_parts(rs), views(parts@));
                        assert(result_parts(rs)[i as int] == rs[i as int].encoding());
                    }
                }
                return Err(FeedError::Decode);
            },
        }
        i = i + 1;
    }
    proof {
        assert(result_parts(result_views(results@)) =~= views(parts@));
        assert(data@ =~= size_word(WORD as nat) + rest@);
        lemma_opened(data@, result_views(results@));
    }
    Ok(results)
}

/// A result is told by its encoding.
pub proof fn lemma_result_encoding_injective(a: ResultView, b: ResultView)
    requires
        a.encoding() == b.encoding(),
        a.encoding().len() <= usize::MAX,
    ensures
        a == b,
{
    lemma_result_encoding_parts(a);
    lemma_result_encoding_parts(b);
    lemma_pow256_widths();
    lemma_size_word(0);
    lemma_size_word(1);
    crate::codec::lemma_bytes_encoding_read(a.raw_return, bytes_encoding(a.raw_return));
    crate::codec::lemma_bytes_encoding_read(b.raw_return, bytes_encoding(a.raw_return));
    assert(a.raw_return =~= b.raw_return);
}

/// An envelope holds one sequence of results only: count, order and contents
/// are all told by its bytes.
pub proof fn lemma_aggregate3_return_injective(a: Seq<ResultView>, b: Seq<ResultView>)
    requires
        aggregate3_return(a) == aggregate3_return(b),
        aggregate3_return(a).len() <= usize::MAX,
    ensures
        a == b,
{
    let data = aggregate3_return(a);
    lemma_aggregate3_return_read(a, data);
    lemma_aggregate3_return_read(b, data);
    lemma_array_encoding_injective(result_parts(a), result_parts(b));
    assert(a.len() == result_parts(a).len());
    assert(b.len() == result_parts(b).len());
    assert forall|i: int| 0 <= i < a.len() implies a[i] == b[i] by {
        assert(result_parts(a)[i] == a[i].encoding());
        assert(result_parts(b)[i] == b[i].encoding());
        crate::array::lemma_array_encoding_read(result_parts(a), array_encoding(result_parts(a)), i as nat);
        lemma_result_encoding_injective(a[i], b[i]);
    }
    assert(a =~= b);
}

/// The results that the envelope `data` holds, if `data` is an envelope.
pub open spec fn opened(data: Seq<u8>) -> Option<Seq<ResultView>> {
    if exists|rs: Seq<ResultView>| aggregate3_return(rs) == data {
        Some(choose|rs: Seq<ResultView>| aggregate3_return(rs) == data)
    } else {
        None
    }
}

/// The results that were put into an envelope are those that it holds.
pub proof fn lemma_opened(data: Seq<u8>, results: Seq<ResultView>)
    requires
        aggregate3_return(results) == data,
        data.len() <= usize::MAX,
    ensures
        opened(data) == Some(results),
{
    let chosen = choose|rs: Seq<ResultView>| aggregate3_return(rs) == data;
    lemma_aggregate3_return_injective(chosen, results);
}

/// The results that the envelope `returned` holds for a batch of `count`
/// calls: one per call, or nothing where `returned` is no envelope of that
/// many results.
pub open spec fn batch_results(count: nat, returned: Seq<u8>) -> Option<Seq<ResultView>> {
    match opened(returned) {
        Some(results) => if results.len() == count {
            Some(results)
        } else {
            None
        },
        None => None,
    }
}

/// Opens the envelope that came back for a batch of `count` calls. The
/// results are one per call, in the order of the calls. Fails, with
/// `FeedError::Decode`, exactly when `returned` is the envelope of no sequence
/// of `count` results.
pub fn aggregate_results(count: usize, returned: &[u8]) -> (results: Result<
    Vec<CallResult>,
    FeedError,
>)
    ensures
        match results {
            Ok(r) => r@.len() == count && batch_results(count as nat, returned@) == Some(
                result_views(r@),
            ),
            Err(e) => e == FeedError::Decode && batch_results(count as nat, returned@) is None,
        },
{
    match decode_aggregate3(returned) {
        Ok(results) => {
            if results.len() == count {
                Ok(results)
            } else {
                Err(FeedError::Decode)
            }
        },
        Err(e) => Err(e),
    }
}

} // verus!
