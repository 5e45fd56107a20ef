//! Pairing the results of a batch with the contexts in which the calls were
//! made, and decoding each result under the schema its context expects.

use crate::error::FeedError;
use crate::multicall::{result_views, CallResult, ResultView};
use crate::schema::{decode, decoded_value, decodes_to, Decoded, Schema, Value};
use crate::types::{Address, RoundId};
use vstd::prelude::*;

verus! {

/// What a call was made for. A context travels beside its call and is handed
/// back with the result; it is no part of any payload.
#[derive(Clone, Debug, PartialEq, Eq)]
pub enum QueryContext {
    /// A token quoted in a base.
    Pair { token: String, base: String },
    /// One round of one oracle.
    Round { oracle: Address, round_id: RoundId },
    /// One aggregator behind a proxy.
    Aggregator { aggregator: Address },
    /// One phase of a proxy.
    Phase { proxy: Address, phase: u16 },
}

/// A context, with its texts as sequences of characters.
pub enum ContextView {
    Pair { token: Seq<char>, base: Seq<char> },
    Round { oracle: Address, round_id: RoundId },
    Aggregator { aggregator: Address },
    Phase { proxy: Address, phase: u16 },
}

impl View for QueryContext {
    type V = ContextView;

    open spec fn view(&self) -> ContextView {
        match *self {
            QueryContext::Pair { token, base } => ContextView::Pair { token: token@, base: base@ },
            QueryContext::Round { oracle, round_id } => ContextView::Round { oracle, round_id },
            QueryContext::Aggregator { aggregator } => ContextView::Aggregator { aggregator },
            QueryContext::Phase { proxy, phase } => ContextView::Phase { proxy, phase },
        }
    }
}

impl QueryContext {
    /// A copy of the context.
    pub fn duplicate(&self) -> (copy: QueryContext)
        ensures
            copy@ == self@,
    {
        match self {
            QueryContext::Pair { token, base } => QueryContext::Pair {
                token: token.clone(),
                base: base.clone(),
            },
            QueryContext::Round { oracle, round_id } => QueryContext::Round {
                oracle: *oracle,
                round_id: *round_id,
            },
            QueryContext::Aggregator { aggregator } => QueryContext::Aggregator {
                aggregator: *aggregator,
            },
            QueryContext::Phase { proxy, phase } => QueryContext::Phase {
                proxy: *proxy,
                phase: *phase,
            },
        }
    }
}

/// A context together with the schema of the value its call returns.
#[derive(Clone, Debug, PartialEq, Eq)]
pub struct Query {
    pub context: QueryContext,
    pub schema: Schema,
}

/// What one entry of a batch came to.
#[derive(Clone, Debug, PartialEq, Eq)]
pub enum Outcome {
    /// The call succeeded and its payload decoded to this value.
    Decoded(Decoded),
    /// The call reverted, or its target holds no code.
    CallFailed,
    /// The call succeeded, but its payload is no value of the schema.
    DecodeFailed,
}

/// A context with the outcome of its call.
#[derive(Clone, Debug, PartialEq, Eq)]
pub struct Correlated {
    pub context: QueryContext,
    pub outcome: Outcome,
}

/// An outcome, with its value as a mathematical value.
pub enum OutcomeView {
    Decoded(Value),
    CallFailed,
    DecodeFailed,
}

impl View for Outcome {
    type V = OutcomeView;

    open spec fn view(&self) -> OutcomeView {
        match *self {
            Outcome::Decoded(value) => OutcomeView::Decoded(value@),
            Outcome::CallFailed => OutcomeView::CallFailed,
            Outcome::DecodeFailed => OutcomeView::DecodeFailed,
        }
    }
}

/// A context with its outcome, both as mathematical values.
pub struct CorrelatedView {
    pub context: ContextView,
    pub outcome: OutcomeView,
}

impl View for Correlated {
    type V = CorrelatedView;

    open spec fn view(&self) -> CorrelatedView {
        CorrelatedView { context: self.context@, outcome: self.outcome@ }
    }
}

/// What `result` comes to under `schema`: a failed call is `CallFailed`; a
/// successful one is the value that its payload encodes, or `DecodeFailed`
/// where the payload encodes none.
pub open spec fn outcome_spec(schema: Schema, result: ResultView) -> OutcomeView {
    if !result.success {
        OutcomeView::CallFailed
    } else {
        match decoded_value(schema, result.raw_return) {
            Some(value) => OutcomeView::Decoded(value),
            None => OutcomeView::DecodeFailed,
        }
    }
}

/// The entries that the queries and the results come to, pair by pair.
pub open spec fn correlation(queries: Seq<Query>, results: Seq<ResultView>) -> Seq<CorrelatedView> {
    Seq::new(
        queries.len(),
        |i: int|
            CorrelatedView {
                context: queries[i].context@,
                outcome: outcome_spec(queries[i].schema, results[i]),
            },
    )
}

/// The entries, each by its view.
pub open spec fn correlated_views(entries: Seq<Correlated>) -> Seq<CorrelatedView> {
    Seq::new(entries.len(), |i: int| entries[i]@)
}

/// The outcome of one call: its result, decoded under `schema`.
pub fn outcome_of(schema: Schema, result: &CallResult) -> (outcome: Outcome)
    ensures
        outcome@ == outcome_spec(schema, result@),
{
    if !result.success {
        Outcome::CallFailed
    } else {
        match decode(schema, result.raw_return.as_slice()) {
            Ok(value) => Outcome::Decoded(value),
            Err(_) => Outcome::DecodeFailed,
        }
    }
}

/// Pairs each query with the result at its position and decodes it. The
/// output has one entry per query, in the order of the queries; every entry
/// is worked out, whatever became of the entries before it. Fails, with
/// `FeedError::Correlation`, exactly when queries and results differ in
/// number.
pub fn correlate(queries: &Vec<Query>, results: &Vec<CallResult>) -> (paired: Result<
    Vec<Correlated>,
    FeedError,
>)
    ensures
        match paired {
            Ok(entries) => queries@.len() == results@.len() && correlated_views(entries@)
                == correlation(queries@, result_views(results@)),
            Err(e) => e == FeedError::Correlation && queries@.len() != results@.len(),
        },
{
    if queries.len() != results.len() {
        return Err(FeedError::Correlation);
    }
    let mut entries: Vec<Correlated> = Vec::new();
    let mut i: usize = 0;
    while i < queries.len()
        invariant
            i <= queries.len() == results.len(),
            entries@.len() == i,
            forall|j: int|
                0 <= j < i ==> (#[trigger] entries@[j])@ == correlation(
                    queries@,
                    result_views(results@),
                )[j],
        decreases queries.len() - i,
    {
        let entry = Correlated {
            context: queries[i].context.duplicate(),
            outcome: outcome_of(queries[i].schema, &results[i]),
        };
        entries.push(entry);
        i = i + 1;
    }
    assert(correlated_views(entries@) =~= correlation(queries@, result_views(results@)));
    Ok(entries)
}

/// Decodes the bytes that a single call returned, under the schema that the
/// call expects: the same decoding that an entry of a batch goes through.
pub fn single_outcome(schema: Schema, returned: &[u8]) -> (value: Result<Decoded, FeedError>)
    ensures
        decodes_to(schema, returned@, value),
{
    decode(schema, returned)
}

/// A call made alone and the same call made as a batch of one decode alike:
/// on the same returned bytes, the single path yields a value exactly when the
/// batch entry is `Decoded`, and then both hold the same value; it fails
/// exactly when the batch entry is `DecodeFailed`.
pub proof fn lemma_single_matches_batch(
    context: QueryContext,
    schema: Schema,
    returned: Seq<u8>,
    single: Result<Decoded, FeedError>,
)
    requires
        decodes_to(schema, returned, single),
    ensures
        ({
            let batch = correlation(
                seq![Query { context, schema }],
                seq![ResultView { success: true, raw_return: returned }],
            );
            &&& batch.len() == 1
            &&& match single {
                Ok(value) => batch[0].outcome == OutcomeView::Decoded(value@),
                Err(_) => batch[0].outcome == OutcomeView::DecodeFailed,
            }
        }),
{
}

} // verus!
