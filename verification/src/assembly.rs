//! The reconstruction of a feed's recent history, as a state machine that
//! takes up where the walk through the generations ended: pick the most
//! recent aggregator that can be built on, compare its latest round with the
//! proxy's, and ask the proxy for the rounds in between.
//!
//! The rounds are asked of the proxy, never of the aggregator: an aggregator
//! does not answer for rounds outside its own phase.

use crate::batch::{entry_outcomes, lemma_batch_calls, lemma_batch_outcomes};
use crate::calls::FeedCall;
use crate::config::Settings;
use crate::correlate::{correlated_views, Correlated, CorrelatedView, Outcome, OutcomeView};
use crate::error::FeedError;
use crate::feeds::{
    latest_round_batch, latest_round_entries, round_data_batch, round_entries,
};
use crate::history::{latest_qualifying, qualifying_of, recent_round_ids, recent_run};
use crate::schema::{Decoded, Value};
use crate::traversal::{send_batch, Action, ActionView, Event, EventView};
use crate::types::{Address, PhaseRecord, RoundData, RoundId};
use vstd::prelude::*;

verus! {

/// Where the reconstruction stands.
#[derive(Clone, Debug, PartialEq, Eq)]
pub enum History {
    /// Nothing has been sent. `records` are the generations of the feed, and
    /// `count` is the number of rounds wanted.
    Start { proxy: Address, records: Vec<PhaseRecord>, count: usize },
    /// The proxy and the aggregator have been asked, in one batch, for their
    /// latest rounds.
    AwaitLatest { proxy: Address, aggregator: Address, count: usize },
    /// The proxy has been asked, in one batch, for the rounds `ids`.
    AwaitRounds { proxy: Address, ids: Vec<RoundId> },
    /// The reconstruction is over: each round asked for, with what came of
    /// it, in rising order of round.
    Done { rounds: Vec<Correlated> },
    /// The reconstruction was given up.
    Failed { error: FeedError },
}

/// A state of the reconstruction, with its lists as sequences.
pub enum HistoryView {
    Start { proxy: Address, records: Seq<PhaseRecord>, count: usize },
    AwaitLatest { proxy: Address, aggregator: Address, count: usize },
    AwaitRounds { proxy: Address, ids: Seq<RoundId> },
    Done { rounds: Seq<CorrelatedView> },
    Failed { error: FeedError },
}

impl View for History {
    type V = HistoryView;

    open spec fn view(&self) -> HistoryView {
        match *self {
            History::Start { proxy, records, count } => HistoryView::Start {
                proxy,
                records: records@,
                count,
            },
            History::AwaitLatest { proxy, aggregator, count } => HistoryView::AwaitLatest {
                proxy,
                aggregator,
                count,
            },
            History::AwaitRounds { proxy, ids } => HistoryView::AwaitRounds { proxy, ids: ids@ },
            History::Done { rounds } => HistoryView::Done { rounds: correlated_views(rounds@) },
            History::Failed { error } => HistoryView::Failed { error },
        }
    }
}

/// The round that an outcome holds. A reverted call and an unreadable payload
/// are told apart.
pub open spec fn needed_round(outcome: OutcomeView) -> Result<RoundData, FeedError> {
    match outcome {
        OutcomeView::Decoded(Value::Round(round)) => Ok(round),
        OutcomeView::CallFailed => Err(FeedError::CallReverted),
        _ => Err(FeedError::Decode),
    }
}

/// The round that an outcome holds, where the reconstruction cannot go on
/// without it. Fails with `FeedError::CallReverted` exactly when the call
/// failed, and with `FeedError::Decode` exactly when the call succeeded but
/// the outcome holds no round.
pub fn round_needed(outcome: &Outcome) -> (round: Result<RoundData, FeedError>)
    ensures
        round == needed_round(outcome@),
{
    match outcome {
        Outcome::Decoded(Decoded::Round(round)) => Ok(*round),
        Outcome::CallFailed => Err(FeedError::CallReverted),
        _ => Err(FeedError::Decode),
    }
}

/// The state in which the reconstruction ends without any round.
pub open spec fn no_rounds() -> HistoryView {
    HistoryView::Done { rounds: Seq::empty() }
}

/// The state and the action by which the reconstruction is given up.
pub open spec fn abandon(error: FeedError) -> (HistoryView, ActionView) {
    (HistoryView::Failed { error }, ActionView::Stop)
}

/// The two whose latest rounds are compared: the proxy, then the aggregator.
pub open spec fn compared(proxy: Address, aggregator: Address) -> Seq<Address> {
    seq![proxy, aggregator]
}

/// What the reconstruction begins with: where an aggregator of a version
/// above 2 is among the records, the last such is compared with the proxy;
/// where there is none, there is nothing to build on.
pub open spec fn at_start(settings: Settings, proxy: Address, records: Seq<PhaseRecord>, count: usize)
    -> (HistoryView, ActionView) {
    let kept = qualifying_of(records);
    if kept.len() == 0 {
        (no_rounds(), ActionView::Stop)
    } else {
        let aggregator = kept.last().aggregator_address;
        (
            HistoryView::AwaitLatest { proxy, aggregator, count },
            send_batch(settings, latest_round_entries(compared(proxy, aggregator))),
        )
    }
}

/// What follows the two latest rounds, once both are known.
pub open spec fn after_rounds_known(
    settings: Settings,
    proxy: Address,
    count: usize,
    proxy_round: RoundData,
    aggregator_round: RoundData,
) -> (HistoryView, ActionView) {
    if aggregator_round.round_id.composite() > proxy_round.round_id.composite() {
        abandon(FeedError::Correlation)
    } else {
        let ids = recent_run(proxy_round.round_id, aggregator_round.round_id, count as nat);
        if ids.len() == 0 {
            (no_rounds(), ActionView::Stop)
        } else {
            (
                HistoryView::AwaitRounds { proxy, ids },
                send_batch(settings, round_entries(proxy, ids)),
            )
        }
    }
}

/// What follows the answer to the batch of the two latest rounds.
pub open spec fn after_latest(
    settings: Settings,
    proxy: Address,
    aggregator: Address,
    count: usize,
    returned: Seq<u8>,
) -> (HistoryView, ActionView) {
    match entry_outcomes(latest_round_entries(compared(proxy, aggregator)), returned) {
        Ok(entries) => match needed_round(entries[0].outcome) {
            Ok(proxy_round) => match needed_round(entries[1].outcome) {
                Ok(aggregator_round) => after_rounds_known(
                    settings,
                    proxy,
                    count,
                    proxy_round,
                    aggregator_round,
                ),
                Err(error) => abandon(error),
            },
            Err(error) => abandon(error),
        },
        Err(error) => abandon(error),
    }
}

/// What follows the answer to the batch of rounds.
pub open spec fn after_history(proxy: Address, ids: Seq<RoundId>, returned: Seq<u8>) -> (
    HistoryView,
    ActionView,
) {
    match entry_outcomes(round_entries(proxy, ids), returned) {
        Ok(rounds) => (HistoryView::Done { rounds }, ActionView::Stop),
        Err(error) => abandon(error),
    }
}

/// The state that follows `state` on `event`, and what the caller is to do.
///
/// The reconstruction begins by asking the proxy and the most recent
/// aggregator of a version above 2 for their latest rounds, in one batch. On
/// the answer, it works out the identifiers of the last rounds wanted and
/// asks the proxy for them, in one batch; where either latest round is
/// missing, or the two do not fit together, it gives up. On the answer to
/// that, it ends with the rounds. A transport failure, or an envelope that
/// cannot be read, ends it in failure; so does an event that the state does
/// not wait for. A reconstruction that has ended stays ended.
pub open spec fn advance(settings: Settings, state: HistoryView, event: EventView) -> (
    HistoryView,
    ActionView,
) {
    match state {
        HistoryView::Start { proxy, records, count } => match event {
            EventView::Begin => at_start(settings, proxy, records, count),
            _ => abandon(FeedError::Correlation),
        },
        HistoryView::AwaitLatest { proxy, aggregator, count } => match event {
            EventView::Returned(returned) => after_latest(
                settings,
                proxy,
                aggregator,
                count,
                returned,
            ),
            EventView::TransportFailed => abandon(FeedError::Transport),
            EventView::Begin => abandon(FeedError::Correlation),
        },
        HistoryView::AwaitRounds { proxy, ids } => match event {
            EventView::Returned(returned) => after_history(proxy, ids, returned),
            EventView::TransportFailed => abandon(FeedError::Transport),
            EventView::Begin => abandon(FeedError::Correlation),
        },
        HistoryView::Done { .. } => (state, ActionView::Stop),
        HistoryView::Failed { .. } => (state, ActionView::Stop),
    }
}

/// How many steps a reconstruction in `state` can still take, at most.
pub open spec fn steps_left(state: HistoryView) -> nat {
    match state {
        HistoryView::Start { .. } => 3,
        HistoryView::AwaitLatest { .. } => 2,
        HistoryView::AwaitRounds { .. } => 1,
        HistoryView::Done { .. } => 0,
        HistoryView::Failed { .. } => 0,
    }
}

/// Every step brings the reconstruction nearer its end, whatever the event:
/// it takes at most three steps, and so sends at most two batches. The caller
/// is asked to send exactly as long as the reconstruction has not ended.
pub proof fn lemma_reconstruction_ends(settings: Settings, state: HistoryView, event: EventView)
    ensures
        steps_left(state) > 0 ==> steps_left(advance(settings, state, event).0) < steps_left(state),
        steps_left(state) == 0 ==> advance(settings, state, event).0 == state,
        advance(settings, state, event).1 is Stop <==> steps_left(
            advance(settings, state, event).0,
        ) == 0,
{
}

/// Whatever rounds the reconstruction sends for, it sends for them to the
/// batch contract, and every call in the batch is addressed to the proxy.
pub proof fn lemma_rounds_asked_of_proxy(proxy: Address, ids: Seq<RoundId>, i: int)
    requires
        0 <= i < ids.len(),
    ensures
        round_entries(proxy, ids)[i].target == proxy,
        round_entries(proxy, ids)[i].call == FeedCall::GetRoundData(ids[i]),
{
}

/// The state in which the reconstruction ends without any round.
fn ended_without_rounds() -> (state: History)
    ensures
        state@ == no_rounds(),
{
    let rounds: Vec<Correlated> = Vec::new();
    assert(correlated_views(rounds@) =~= Seq::<CorrelatedView>::empty());
    History::Done { rounds }
}

/// The proxy and the aggregator, as the list of the two.
fn two_addresses(proxy: Address, aggregator: Address) -> (both: Vec<Address>)
    ensures
        both@ == compared(proxy, aggregator),
{
    let mut both: Vec<Address> = Vec::new();
    both.push(proxy);
    both.push(aggregator);
    assert(both@ =~= compared(proxy, aggregator));
    both
}

/// Begins the reconstruction: picks the aggregator to build on and asks for
/// the two latest rounds.
pub fn on_start(settings: &Settings, proxy: Address, records: &Vec<PhaseRecord>, count: usize) -> (next:
    (History, Action))
    ensures
        (next.0@, next.1@) == at_start(*settings, proxy, records@, count),
{
    match latest_qualifying(records) {
        None => (ended_without_rounds(), Action::Stop),
        Some(record) => {
            let aggregator = record.aggregator_address;
            let both = two_addresses(proxy, aggregator);
            let batch = latest_round_batch(&both);
            proof {
                lemma_batch_calls(batch, latest_round_entries(both@));
            }
            match batch.request(settings) {
                Some(request) => (
                    History::AwaitLatest { proxy, aggregator, count },
                    Action::Send(request),
                ),
                None => {
                    assert(false);
                    (History::Failed { error: FeedError::Correlation }, Action::Stop)
                },
            }
        },
    }
}

/// Works out the rounds to ask for from the two latest rounds, and asks the
/// proxy for them.
pub fn on_rounds_known(
    settings: &Settings,
    proxy: Address,
    count: usize,
    proxy_round: &RoundData,
    aggregator_round: &RoundData,
) -> (next: (History, Action))
    ensures
        (next.0@, next.1@) == after_rounds_known(
            *settings,
            proxy,
            count,
            *proxy_round,
            *aggregator_round,
        ),
{
    match recent_round_ids(proxy_round.round_id, aggregator_round.round_id, count) {
        None => (History::Failed { error: FeedError::Correlation }, Action::Stop),
        Some(ids) => {
            if ids.len() == 0 {
                (ended_without_rounds(), Action::Stop)
            } else {
                let batch = round_data_batch(proxy, &ids);
                proof {
                    lemma_batch_calls(batch, round_entries(proxy, ids@));
                }
                match batch.request(settings) {
                    Some(request) => (History::AwaitRounds { proxy, ids }, Action::Send(request)),
                    None => {
                        assert(false);
                        (History::Failed { error: FeedError::Correlation }, Action::Stop)
                    },
                }
            }
        },
    }
}

/// Reads the answer to the batch of the two latest rounds and asks the proxy
/// for the rounds wanted.
pub fn on_latest(
    settings: &Settings,
    proxy: Address,
    aggregator: Address,
    count: usize,
    returned: &[u8],
) -> (next: (History, Action))
    ensures
        (next.0@, next.1@) == after_latest(*settings, proxy, aggregator, count, returned@),
{
    let both = two_addresses(proxy, aggregator);
    let batch = latest_round_batch(&both);
    proof {
        lemma_batch_outcomes(batch, latest_round_entries(both@), returned@);
    }
    match batch.outcomes(returned) {
        Ok(entries) => {
            proof {
                let expected = entry_outcomes(latest_round_entries(both@), returned@);
                assert(expected == Ok::<Seq<CorrelatedView>, FeedError>(
                    correlated_views(entries@),
                ));
                assert(expected->Ok_0.len() == 2);
                assert(correlated_views(entries@).len() == entries@.len());
                assert(correlated_views(entries@)[0] == entries@[0]@);
                assert(correlated_views(entries@)[1] == entries@[1]@);
            }
            match round_needed(&entries[0].outcome) {
                Ok(proxy_round) => match round_needed(&entries[1].outcome) {
                    Ok(aggregator_round) => on_rounds_known(
                        settings,
                        proxy,
                        count,
                        &proxy_round,
                        &aggregator_round,
                    ),
                    Err(error) => (History::Failed { error }, Action::Stop),
                },
                Err(error) => (History::Failed { error }, Action::Stop),
            }
        },
        Err(error) => (History::Failed { error }, Action::Stop),
    }
}

/// Reads the answer to the batch of rounds and ends the reconstruction.
pub fn on_history(proxy: Address, ids: &Vec<RoundId>, returned: &[u8]) -> (next: (History, Action))
    ensures
        (next.0@, next.1@) == after_history(proxy, ids@, returned@),
{
    let batch = round_data_batch(proxy, ids);
    proof {
        lemma_batch_outcomes(batch, round_entries(proxy, ids@), returned@);
    }
    match batch.outcomes(returned) {
        Ok(rounds) => (History::Done { rounds }, Action::Stop),
        Err(error) => (History::Failed { error }, Action::Stop),
    }
}

/// Takes the reconstruction one step further: from `state`, on `event`, to
/// the next state and the action that the caller is to perform.
pub fn step(settings: &Settings, state: History, event: Event) -> (next: (History, Action))
    ensures
        (next.0@, next.1@) == advance(*settings, state@, event@),
{
    match state {
        History::Start { proxy, records, count } => match event {
            Event::Begin => on_start(settings, proxy, &records, count),
            _ => (History::Failed { error: FeedError::Correlation }, Action::Stop),
        },
        History::AwaitLatest { proxy, aggregator, count } => match event {
            Event::Returned(returned) => on_latest(
                settings,
                proxy,
                aggregator,
                count,
                returned.as_slice(),
            ),
            Event::TransportFailed => (History::Failed { error: FeedError::Transport }, Action::Stop),
            Event::Begin => (History::Failed { error: FeedError::Correlation }, Action::Stop),
        },
        History::AwaitRounds { proxy, ids } => match event {
            Event::Returned(returned) => on_history(proxy, &ids, returned.as_slice()),
            Event::TransportFailed => (History::Failed { error: FeedError::Transport }, Action::Stop),
            Event::Begin => (History::Failed { error: FeedError::Correlation }, Action::Stop),
        },
        History::Done { rounds } => (History::Done { rounds }, Action::Stop),
        History::Failed { error } => (History::Failed { error }, Action::Stop),
    }
}

} // verus!
