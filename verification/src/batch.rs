//! A batch in the making: the calls to send, each with the context it was
//! made for, and what comes of the batch once the envelope is back.

use crate::calls::FeedCall;
use crate::config::Settings;
use crate::correlate::{
    correlate, correlated_views, correlation, ContextView, Correlated, CorrelatedView, Query,
    QueryContext,
};
use crate::error::FeedError;
use crate::multicall::{
    aggregate3_payload, aggregate_results, batch_results, call_views, encode_aggregate3,
    result_views, Call, CallResult, CallView,
};
use crate::types::Address;
use vstd::prelude::*;

verus! {

/// What the transport is asked to do: call `target` with `payload`, read-only.
#[derive(Clone, Debug, PartialEq, Eq)]
pub struct Request {
    pub target: Address,
    pub payload: Vec<u8>,
}

/// One entry of a batch: the contract called, the call, and its context.
pub struct Entry {
    pub target: Address,
    pub call: FeedCall,
    pub context: ContextView,
}

impl Entry {
    /// The entry as a call of the batch. It allows failure.
    pub open spec fn call_view(self) -> CallView {
        CallView { target: self.target, allow_failure: true, payload: self.call.payload() }
    }
}

/// The calls of the entries, in order.
pub open spec fn entry_calls(entries: Seq<Entry>) -> Seq<CallView> {
    Seq::new(entries.len(), |i: int| entries[i].call_view())
}

/// The calls of a batch, side by side with the queries that say how each
/// result is to be read.
#[derive(Clone, Debug, PartialEq, Eq)]
pub struct Batch {
    pub calls: Vec<Call>,
    pub queries: Vec<Query>,
}

impl Batch {
    /// Whether the batch holds exactly `entries`, in order: the call of each
    /// entry, and a query with the entry's context and the schema of its call.
    pub open spec fn holds(self, entries: Seq<Entry>) -> bool {
        &&& self.calls@.len() == entries.len()
        &&& self.queries@.len() == entries.len()
        &&& forall|i: int|
            0 <= i < entries.len() ==> {
                &&& (#[trigger] self.calls@[i])@ == entries[i].call_view()
                &&& self.queries@[i].schema == entries[i].call.schema()
                &&& self.queries@[i].context@ == entries[i].context
            }
    }

    /// The batch without entries.
    pub fn new() -> (batch: Batch)
        ensures
            batch.holds(Seq::empty()),
    {
        Batch { calls: Vec::new(), queries: Vec::new() }
    }

    /// Number of entries.
    pub fn len(&self) -> (count: usize)
        ensures
            count == self.calls@.len(),
    {
        self.calls.len()
    }

    /// Adds an entry at the end: the call, addressed to `target` and allowed
    /// to fail, and a query with the context given and the schema of the call.
    pub fn push(&mut self, target: Address, call: FeedCall, context: QueryContext)
        ensures
            final(self).calls@.len() == old(self).calls@.len() + 1,
            final(self).calls@.drop_last() == old(self).calls@,
            final(self).calls@.last()@ == (Entry { target, call, context: context@ }).call_view(),
            final(self).queries@.len() == old(self).queries@.len() + 1,
            final(self).queries@.drop_last() == old(self).queries@,
            final(self).queries@.last().schema == call.schema(),
            final(self).queries@.last().context@ == context@,
            forall|entries: Seq<Entry>|
                old(self).holds(entries) ==> final(self).holds(
                    #[trigger] entries.push(Entry { target, call, context: context@ }),
                ),
    {
        let ghost before = *self;
        self.calls.push(call.entry(target));
        self.queries.push(Query { context, schema: call.expected() });
        assert(self.calls@.drop_last() =~= before.calls@);
        assert(self.queries@.drop_last() =~= before.queries@);
        assert forall|entries: Seq<Entry>| before.holds(entries) implies self.holds(
            #[trigger] entries.push(Entry { target, call, context: context@ }),
        ) by {
            let after = entries.push(Entry { target, call, context: context@ });
            assert forall|i: int| 0 <= i < after.len() implies {
                &&& (#[trigger] self.calls@[i])@ == after[i].call_view()
                &&& self.queries@[i].schema == after[i].call.schema()
                &&& self.queries@[i].context@ == after[i].context
            } by {
                if i < entries.len() {
                    assert(self.calls@[i] == before.calls@[i]);
                    assert(self.queries@[i] == before.queries@[i]);
                }
            }
            assert(self.calls@.len() == after.len());
            assert(self.queries@.len() == after.len());
            assert(self.holds(after));
        }
    }

    /// The request that carries the batch to the batch contract of
    /// `settings`: one `aggregate3` call with the calls in order. An empty
    /// batch has no request.
    pub fn request(&self, settings: &Settings) -> (request: Option<Request>)
        ensures
            match request {
                Some(r) => self.calls@.len() > 0 && r.target == settings.multicall && r.payload@
                    == aggregate3_payload(call_views(self.calls@)),
                None => self.calls@.len() == 0,
            },
    {
        match encode_aggregate3(&self.calls) {
            Some(payload) => Some(Request { target: settings.multicall, payload }),
            None => None,
        }
    }

    /// Opens the envelope that came back for this batch. The results are one
    /// per call, in the order of the calls. Fails, with `FeedError::Decode`,
    /// exactly when `returned` is the envelope of no sequence of as many
    /// results as the batch has calls.
    pub fn results(&self, returned: &[u8]) -> (results: Result<Vec<CallResult>, FeedError>)
        ensures
            match results {
                Ok(r) => batch_results(self.calls@.len(), returned@) == Some(result_views(r@)),
                Err(e) => e == FeedError::Decode && batch_results(self.calls@.len(), returned@)
                    is None,
            },
    {
        aggregate_results(self.calls.len(), returned)
    }

    /// What the batch came to: each context with the outcome of its call, one
    /// entry per call and in the order of the calls. An entry whose call
    /// failed, or whose payload does not decode, does not disturb the others.
    /// Fails with `FeedError::Correlation` exactly when calls and queries
    /// differ in number, and else with `FeedError::Decode` exactly when
    /// `returned` is the envelope of no sequence of as many results as the
    /// batch has calls.
    pub fn outcomes(&self, returned: &[u8]) -> (outcomes: Result<Vec<Correlated>, FeedError>)
        ensures
            match outcomes {
                Ok(entries) => batch_outcomes(self.calls@.len(), self.queries@, returned@) == Ok::<
                    Seq<CorrelatedView>,
                    FeedError,
                >(correlated_views(entries@)),
                Err(e) => batch_outcomes(self.calls@.len(), self.queries@, returned@) == Err::<
                    Seq<CorrelatedView>,
                    FeedError,
                >(e),
            },
    {
        if self.calls.len() != self.queries.len() {
            return Err(FeedError::Correlation);
        }
        let results = match self.results(returned) {
            Ok(r) => r,
            Err(e) => {
                return Err(e);
            },
        };
        correlate(&self.queries, &results)
    }
}

/// What a batch of `count` calls, read by `queries`, comes to on the envelope
/// `returned`.
pub open spec fn batch_outcomes(count: nat, queries: Seq<Query>, returned: Seq<u8>) -> Result<
    Seq<CorrelatedView>,
    FeedError,
> {
    if count != queries.len() {
        Err(FeedError::Correlation)
    } else {
        match batch_results(count, returned) {
            Some(results) => Ok(correlation(queries, results)),
            None => Err(FeedError::Decode),
        }
    }
}

/// What the batch of `entries` comes to on the envelope `returned`: each
/// entry's context with the outcome of its call, read under the schema of the
/// call; or `FeedError::Decode` where `returned` is no envelope of as many
/// results as there are entries.
pub open spec fn entry_outcomes(entries: Seq<Entry>, returned: Seq<u8>) -> Result<
    Seq<CorrelatedView>,
    FeedError,
> {
    match batch_results(entries.len(), returned) {
        Some(results) => Ok(
            Seq::new(
                entries.len(),
                |i: int|
                    CorrelatedView {
                        context: entries[i].context,
                        outcome: crate::correlate::outcome_spec(entries[i].call.schema(), results[i]),
                    },
            ),
        ),
        None => Err(FeedError::Decode),
    }
}

/// A batch that holds `entries` comes to what its entries come to.
pub proof fn lemma_batch_outcomes(batch: Batch, entries: Seq<Entry>, returned: Seq<u8>)
    requires
        batch.holds(entries),
    ensures
        batch_outcomes(batch.calls@.len(), batch.queries@, returned) == entry_outcomes(
            entries,
            returned,
        ),
{
    match batch_results(entries.len(), returned) {
        Some(results) => {
            assert forall|i: int| 0 <= i < entries.len() implies correlation(
                batch.queries@,
                results,
            )[i] == entry_outcomes(entries, returned)->Ok_0[i] by {
                assert(batch.calls@[i]@ == entries[i].call_view());
            }
            assert(correlation(batch.queries@, results) =~= entry_outcomes(
                entries,
                returned,
            )->Ok_0);
        },
        None => {},
    }
}

/// A batch that holds `entries` sends the calls of its entries.
pub proof fn lemma_batch_calls(batch: Batch, entries: Seq<Entry>)
    requires
        batch.holds(entries),
    ensures
        call_views(batch.calls@) == entry_calls(entries),
{
    assert forall|i: int| 0 <= i < entries.len() implies call_views(batch.calls@)[i]
        == entry_calls(entries)[i] by {
        assert(batch.calls@[i]@ == entries[i].call_view());
    }
    assert(call_views(batch.calls@) =~= entry_calls(entries));
}

} // verus!
