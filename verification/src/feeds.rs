//! The queries that a price feed answers: for each, the request or the batch
//! to send, and the reading of what comes back.

use crate::batch::{Batch, Entry, Request};
use crate::calls::FeedCall;
use crate::codec::phase_word;
use crate::correlate::{
    correlated_views, ContextView, Correlated, CorrelatedView, Outcome, OutcomeView, QueryContext,
};
use crate::error::FeedError;
use crate::schema::{
    decode_phase, decode_round_data, decode_text, decode_uint, text_encoding, Decoded, Value,
};
use crate::types::{Address, OracleDescriptor, RoundData, RoundId, Uint256};
use vstd::prelude::*;

verus! {

/// A token quoted in a base, with the oracle that the registry names for the
/// pair.
#[derive(Clone, Debug, PartialEq, Eq)]
pub struct PairFeed {
    pub token: String,
    pub base: String,
    pub oracle: OracleDescriptor,
}

/// The request for one call, made alone.
pub fn single_request(target: Address, call: FeedCall) -> (request: Request)
    ensures
        request.target == target,
        request.payload@ == call.payload(),
{
    Request { target, payload: call.encode() }
}

/// Reads the answer that `latestAnswer` returned. Fails, with
/// `FeedError::Decode`, exactly when `returned` is not one word.
pub fn latest_answer(returned: &[u8]) -> (answer: Result<Uint256, FeedError>)
    ensures
        match answer {
            Ok(a) => a.word() == returned@,
            Err(e) => e == FeedError::Decode && forall|a: Uint256| a.word() != returned@,
        },
{
    match decode_uint(returned) {
        Some(answer) => Ok(answer),
        None => Err(FeedError::Decode),
    }
}

/// Reads the round that `getRoundData` or `latestRoundData` returned. Fails,
/// with `FeedError::Decode`, exactly when `returned` is the encoding of no
/// round.
pub fn round_data(returned: &[u8]) -> (round: Result<RoundData, FeedError>)
    ensures
        match round {
            Ok(r) => r.encoding() == returned@,
            Err(e) => e == FeedError::Decode && forall|r: RoundData| r.encoding() != returned@,
        },
{
    match decode_round_data(returned) {
        Some(round) => Ok(round),
        None => Err(FeedError::Decode),
    }
}

/// Reads the text that `description` returned. Fails, with
/// `FeedError::Decode`, exactly when `returned` is the encoding of no text.
pub fn description(returned: &[u8]) -> (text: Result<String, FeedError>)
    ensures
        match text {
            Ok(t) => text_encoding(t@) == returned@,
            Err(e) => e == FeedError::Decode && forall|t: Seq<char>|
                text_encoding(t) != returned@,
        },
{
    match decode_text(returned) {
        Some(text) => Ok(text),
        None => Err(FeedError::Decode),
    }
}

/// Reads the phase number that `phaseId` returned. Fails, with
/// `FeedError::Decode`, exactly when `returned` is the encoding of no phase
/// number.
pub fn phase_id(returned: &[u8]) -> (phase: Result<u16, FeedError>)
    ensures
        match phase {
            Ok(p) => phase_word(p) == returned@,
            Err(e) => e == FeedError::Decode && forall|p: u16| phase_word(p) != returned@,
        },
{
    match decode_phase(returned) {
        Some(phase) => Ok(phase),
        None => Err(FeedError::Decode),
    }
}

/// The entries of the batch that asks each aggregator for its version.
pub open spec fn version_entries(aggregators: Seq<Address>) -> Seq<Entry> {
    Seq::new(
        aggregators.len(),
        |i: int|
            Entry {
                target: aggregators[i],
                call: FeedCall::Version,
                context: ContextView::Aggregator { aggregator: aggregators[i] },
            },
    )
}

/// The batch that asks each aggregator for its version, in the order given.
pub fn version_batch(aggregators: &Vec<Address>) -> (batch: Batch)
    ensures
        batch.holds(version_entries(aggregators@)),
{
    let mut batch = Batch::new();
    let mut i: usize = 0;
    while i < aggregators.len()
        invariant
            i <= aggregators.len(),
            batch.holds(version_entries(aggregators@.take(i as int))),
        decreases aggregators.len() - i,
    {
        let aggregator = aggregators[i];
        let ghost before = version_entries(aggregators@.take(i as int));
        batch.push(aggregator, FeedCall::Version, QueryContext::Aggregator { aggregator });
        proof {
            assert(before.push(
                Entry {
                    target: aggregator,
                    call: FeedCall::Version,
                    context: ContextView::Aggregator { aggregator },
                },
            ) =~= version_entries(aggregators@.take(i + 1)));
        }
        i = i + 1;
    }
    assert(aggregators@.take(i as int) =~= aggregators@);
    batch
}

/// The entries of the batch that asks each aggregator for its latest round.
pub open spec fn latest_round_entries(aggregators: Seq<Address>) -> Seq<Entry> {
    Seq::new(
        aggregators.len(),
        |i: int|
            Entry {
                target: aggregators[i],
                call: FeedCall::LatestRoundData,
                context: ContextView::Aggregator { aggregator: aggregators[i] },
            },
    )
}

/// The batch that asks each aggregator for its latest round, in the order
/// given.
pub fn latest_round_batch(aggregators: &Vec<Address>) -> (batch: Batch)
    ensures
        batch.holds(latest_round_entries(aggregators@)),
{
    let mut batch = Batch::new();
    let mut i: usize = 0;
    while i < aggregators.len()
        invariant
            i <= aggregators.len(),
            batch.holds(latest_round_entries(aggregators@.take(i as int))),
        decreases aggregators.len() - i,
    {
        let aggregator = aggregators[i];
        let ghost before = latest_round_entries(aggregators@.take(i as int));
        batch.push(aggregator, FeedCall::LatestRoundData, QueryContext::Aggregator { aggregator });
        proof {
            assert(before.push(
                Entry {
                    target: aggregator,
                    call: FeedCall::LatestRoundData,
                    context: ContextView::Aggregator { aggregator },
                },
            ) =~= latest_round_entries(aggregators@.take(i + 1)));
        }
        i = i + 1;
    }
    assert(aggregators@.take(i as int) =~= aggregators@);
    batch
}

/// The entries of the batch that asks one oracle for each of the rounds
/// named.
pub open spec fn round_entries(oracle: Address, round_ids: Seq<RoundId>) -> Seq<Entry> {
    Seq::new(
        round_ids.len(),
        |i: int|
            Entry {
                target: oracle,
                call: FeedCall::GetRoundData(round_ids[i]),
                context: ContextView::Round { oracle, round_id: round_ids[i] },
            },
    )
}

/// The batch that asks `oracle` for each of the rounds named, in the order
/// given.
pub fn round_data_batch(oracle: Address, round_ids: &Vec<RoundId>) -> (batch: Batch)
    ensures
        batch.holds(round_entries(oracle, round_ids@)),
{
    let mut batch = Batch::new();
    let mut i: usize = 0;
    while i < round_ids.len()
        invariant
            i <= round_ids.len(),
            batch.holds(round_entries(oracle, round_ids@.take(i as int))),
        decreases round_ids.len() - i,
    {
        let round_id = round_ids[i];
        let ghost before = round_entries(oracle, round_ids@.take(i as int));
        batch.push(oracle, FeedCall::GetRoundData(round_id), QueryContext::Round { oracle, round_id });
        proof {
            assert(before.push(
                Entry {
                    target: oracle,
                    call: FeedCall::GetRoundData(round_id),
                    context: ContextView::Round { oracle, round_id },
                },
            ) =~= round_entries(oracle, round_ids@.take(i + 1)));
        }
        i = i + 1;
    }
    assert(round_ids@.take(i as int) =~= round_ids@);
    batch
}

/// The entries of the batch that asks the oracle of each pair for its latest
/// answer.
pub open spec fn answer_entries(pairs: Seq<PairFeed>) -> Seq<Entry> {
    Seq::new(
        pairs.len(),
        |i: int|
            Entry {
                target: pairs[i].oracle.proxy_address,
                call: FeedCall::LatestAnswer,
                context: ContextView::Pair { token: pairs[i].token@, base: pairs[i].base@ },
            },
    )
}

/// The batch that asks the oracle of each pair for its latest answer, in the
/// order given.
pub fn latest_answer_batch(pairs: &Vec<PairFeed>) -> (batch: Batch)
    ensures
        batch.holds(answer_entries(pairs@)),
{
    let mut batch = Batch::new();
    let mut i: usize = 0;
    while i < pairs.len()
        invariant
            i <= pairs.len(),
            batch.holds(answer_entries(pairs@.take(i as int))),
        decreases pairs.len() - i,
    {
        let ghost before = answer_entries(pairs@.take(i as int));
        let context = QueryContext::Pair {
            token: pairs[i].token.clone(),
            base: pairs[i].base.clone(),
        };
        batch.push(pairs[i].oracle.proxy_address, FeedCall::LatestAnswer, context);
        proof {
            assert(before.push(
                Entry {
                    target: pairs@[i as int].oracle.proxy_address,
                    call: FeedCall::LatestAnswer,
                    context: ContextView::Pair {
                        token: pairs@[i as int].token@,
                        base: pairs@[i as int].base@,
                    },
                },
            ) =~= answer_entries(pairs@.take(i + 1)));
        }
        i = i + 1;
    }
    assert(pairs@.take(i as int) =~= pairs@);
    batch
}

/// The entries of the batch that asks a proxy for the aggregator of each
/// phase before `phase_id`, from phase 1 on.
pub open spec fn phase_entries(proxy: Address, phase_id: u16) -> Seq<Entry> {
    Seq::new(
        if phase_id == 0 {
            0nat
        } else {
            (phase_id - 1) as nat
        },
        |i: int|
            Entry {
                target: proxy,
                call: FeedCall::PhaseAggregators((i + 1) as u16),
                context: ContextView::Phase { proxy, phase: (i + 1) as u16 },
            },
    )
}

/// The batch that asks `proxy` for the aggregator of each phase from 1 up to,
/// but not including, the current phase `phase_id`: one call per phase, in
/// rising order.
pub fn phase_batch(proxy: Address, phase_id: u16) -> (batch: Batch)
    ensures
        batch.holds(phase_entries(proxy, phase_id)),
{
    let mut batch = Batch::new();
    let mut phase: u16 = 1;
    assert(phase_entries(proxy, 1) =~= Seq::<Entry>::empty());
    if phase_id == 0 {
        assert(phase_entries(proxy, 0) =~= Seq::<Entry>::empty());
        return batch;
    }
    while phase < phase_id
        invariant
            1 <= phase <= phase_id,
            batch.holds(phase_entries(proxy, phase)),
        decreases phase_id - phase,
    {
        let ghost before = phase_entries(proxy, phase);
        batch.push(proxy, FeedCall::PhaseAggregators(phase), QueryContext::Phase { proxy, phase });
        proof {
            assert(before.push(
                Entry {
                    target: proxy,
                    call: FeedCall::PhaseAggregators(phase),
                    context: ContextView::Phase { proxy, phase },
                },
            ) =~= phase_entries(proxy, (phase + 1) as u16));
        }
        phase = phase + 1;
    }
    batch
}

/// The phase batch asks for every phase from 1 up to, but not including, the
/// current one, and for each exactly once: the entry at position `phase - 1`
/// asks for `phase`, and no two entries ask for the same phase.
pub proof fn lemma_phase_entries_once(proxy: Address, phase_id: u16)
    ensures
        phase_entries(proxy, phase_id).len() == if phase_id == 0 {
            0int
        } else {
            phase_id - 1
        },
        forall|phase: u16|
            1 <= phase < phase_id ==> (#[trigger] phase_entries(proxy, phase_id)[phase - 1]).call
                == FeedCall::PhaseAggregators(phase),
        forall|i: int, j: int|
            0 <= i < j < phase_entries(proxy, phase_id).len() ==> (#[trigger] phase_entries(
                proxy,
                phase_id,
            )[i]).call != (#[trigger] phase_entries(proxy, phase_id)[j]).call,
{
}

/// The numbers among the outcomes, in order.
pub open spec fn uints_of(entries: Seq<CorrelatedView>) -> Seq<Uint256>
    decreases entries.len(),
{
    if entries.len() == 0 {
        Seq::empty()
    } else {
        match entries.last().outcome {
            OutcomeView::Decoded(Value::Uint(number)) => uints_of(entries.drop_last()).push(number),
            _ => uints_of(entries.drop_last()),
        }
    }
}

/// The numbers that the entries decoded to, in the order of the entries.
/// Entries that failed, or that hold another kind of value, are left out.
pub fn decoded_uints(entries: &Vec<Correlated>) -> (numbers: Vec<Uint256>)
    ensures
        numbers@ == uints_of(correlated_views(entries@)),
{
    let ghost all = correlated_views(entries@);
    let mut numbers: Vec<Uint256> = Vec::new();
    let mut i: usize = 0;
    assert(all.take(0) =~= Seq::<CorrelatedView>::empty());
    while i < entries.len()
        invariant
            i <= entries.len(),
            all == correlated_views(entries@),
            numbers@ == uints_of(all.take(i as int)),
        decreases entries.len() - i,
    {
        proof {
            assert(all.take(i + 1).drop_last() =~= all.take(i as int));
            assert(all.take(i + 1).last() == entries@[i as int]@);
        }
        match &entries[i].outcome {
            Outcome::Decoded(Decoded::Uint(number)) => {
                numbers.push(*number);
            },
            _ => {},
        }
        i = i + 1;
    }
    assert(all.take(i as int) =~= all);
    numbers
}

/// The rounds among the outcomes, in order.
pub open spec fn rounds_of(entries: Seq<CorrelatedView>) -> Seq<RoundData>
    decreases entries.len(),
{
    if entries.len() == 0 {
        Seq::empty()
    } else {
        match entries.last().outcome {
            OutcomeView::Decoded(Value::Round(round)) => rounds_of(entries.drop_last()).push(round),
            _ => rounds_of(entries.drop_last()),
        }
    }
}

/// The rounds that the entries decoded to, in the order of the entries.
/// Entries that failed, or that hold another kind of value, are left out.
pub fn decoded_rounds(entries: &Vec<Correlated>) -> (rounds: Vec<RoundData>)
    ensures
        rounds@ == rounds_of(correlated_views(entries@)),
{
    let ghost all = correlated_views(entries@);
    let mut rounds: Vec<RoundData> = Vec::new();
    let mut i: usize = 0;
    assert(all.take(0) =~= Seq::<CorrelatedView>::empty());
    while i < entries.len()
        invariant
            i <= entries.len(),
            all == correlated_views(entries@),
            rounds@ == rounds_of(all.take(i as int)),
        decreases entries.len() - i,
    {
        proof {
            assert(all.take(i + 1).drop_last() =~= all.take(i as int));
            assert(all.take(i + 1).last() == entries@[i as int]@);
        }
        match &entries[i].outcome {
            Outcome::Decoded(Decoded::Round(round)) => {
                rounds.push(*round);
            },
            _ => {},
        }
        i = i + 1;
    }
    assert(all.take(i as int) =~= all);
    rounds
}

/// The addresses among the outcomes, in order.
pub open spec fn addresses_of(entries: Seq<CorrelatedView>) -> Seq<Address>
    decreases entries.len(),
{
    if entries.len() == 0 {
        Seq::empty()
    } else {
        match entries.last().outcome {
            OutcomeView::Decoded(Value::Address(address)) => addresses_of(
                entries.drop_last(),
            ).push(address),
            _ => addresses_of(entries.drop_last()),
        }
    }
}

/// The addresses that the entries decoded to, in the order of the entries.
/// Entries that failed, or that hold another kind of value, are left out.
pub fn decoded_addresses(entries: &Vec<Correlated>) -> (addresses: Vec<Address>)
    ensures
        addresses@ == addresses_of(correlated_views(entries@)),
{
    let ghost all = correlated_views(entries@);
    let mut addresses: Vec<Address> = Vec::new();
    let mut i: usize = 0;
    assert(all.take(0) =~= Seq::<CorrelatedView>::empty());
    while i < entries.len()
        invariant
            i <= entries.len(),
            all == correlated_views(entries@),
            addresses@ == addresses_of(all.take(i as int)),
        decreases entries.len() - i,
    {
        proof {
            assert(all.take(i + 1).drop_last() =~= all.take(i as int));
            assert(all.take(i + 1).last() == entries@[i as int]@);
        }
        match &entries[i].outcome {
            Outcome::Decoded(Decoded::Address(address)) => {
                addresses.push(*address);
            },
            _ => {},
        }
        i = i + 1;
    }
    assert(all.take(i as int) =~= all);
    addresses
}

/// The round that an outcome holds, if it holds one.
pub open spec fn round_of(outcome: OutcomeView) -> Option<RoundData> {
    match outcome {
        OutcomeView::Decoded(Value::Round(round)) => Some(round),
        _ => None,
    }
}

/// For each entry, the round it decoded to, or nothing where the call failed
/// or the payload is no round. The output has one item per entry, in the
/// order of the entries.
pub fn round_options(entries: &Vec<Correlated>) -> (rounds: Vec<Option<RoundData>>)
    ensures
        rounds@.len() == entries@.len(),
        forall|i: int| 0 <= i < rounds@.len() ==> rounds@[i] == round_of(entries@[i]@.outcome),
{
    let mut rounds: Vec<Option<RoundData>> = Vec::new();
    let mut i: usize = 0;
    while i < entries.len()
        invariant
            i <= entries.len(),
            rounds@.len() == i,
            forall|j: int| 0 <= j < i ==> rounds@[j] == round_of(entries@[j]@.outcome),
        decreases entries.len() - i,
    {
        match &entries[i].outcome {
            Outcome::Decoded(Decoded::Round(round)) => {
                rounds.push(Some(*round));
            },
            _ => {
                rounds.push(None);
            },
        }
        i = i + 1;
    }
    rounds
}

} // verus!
