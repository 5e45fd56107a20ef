//! The walk through the generations of a feed, as a state machine. The caller
//! owns the transport: it sends what a step asks for and hands the answer to
//! the next step. Two batches bound the walk, however many phases there are.

use crate::batch::{
    entry_calls, entry_outcomes, lemma_batch_calls, lemma_batch_outcomes, Request,
};
use crate::calls::FeedCall;
use crate::config::Settings;
use crate::correlate::{
    correlated_views, ContextView, Correlated, CorrelatedView, Outcome, OutcomeView, QueryContext,
};
use crate::error::FeedError;
use crate::feeds::{phase_batch, phase_entries, single_request, version_batch, version_entries};
use crate::multicall::aggregate3_payload;
use crate::schema::{decode, decoded_value, Decoded, Schema, Value};
use crate::types::{Address, PhaseRecord};
use vstd::prelude::*;

verus! {

/// An aggregator found behind a proxy, with the phase it served.
#[derive(Clone, Copy, Debug, PartialEq, Eq)]
pub struct PhaseAggregator {
    pub phase_id: u16,
    pub aggregator: Address,
}

/// Where the walk stands.
#[derive(Clone, Debug, PartialEq, Eq)]
pub enum Traversal {
    /// Nothing has been sent.
    Start { proxy: Address },
    /// The proxy has been asked for its current phase.
    AwaitPhase { proxy: Address },
    /// The proxy has been asked, in one batch, for the aggregator of each
    /// phase before the current one.
    AwaitAggregators { proxy: Address, phase_id: u16 },
    /// The aggregators found have been asked, in one batch, for their
    /// versions.
    AwaitVersions { found: Vec<PhaseAggregator> },
    /// The walk is over. `records` holds the aggregators that told their
    /// version, in rising order of phase; `unversioned` holds those that did
    /// not.
    Done { records: Vec<PhaseRecord>, unversioned: Vec<PhaseAggregator> },
    /// The walk was given up.
    Failed { error: FeedError },
}

/// A state of the walk, with its lists as sequences.
pub enum TraversalView {
    Start { proxy: Address },
    AwaitPhase { proxy: Address },
    AwaitAggregators { proxy: Address, phase_id: u16 },
    AwaitVersions { found: Seq<PhaseAggregator> },
    Done { records: Seq<PhaseRecord>, unversioned: Seq<PhaseAggregator> },
    Failed { error: FeedError },
}

impl View for Traversal {
    type V = TraversalView;

    open spec fn view(&self) -> TraversalView {
        match *self {
            Traversal::Start { proxy } => TraversalView::Start { proxy },
            Traversal::AwaitPhase { proxy } => TraversalView::AwaitPhase { proxy },
            Traversal::AwaitAggregators { proxy, phase_id } => TraversalView::AwaitAggregators {
                proxy,
                phase_id,
            },
            Traversal::AwaitVersions { found } => TraversalView::AwaitVersions { found: found@ },
            Traversal::Done { records, unversioned } => TraversalView::Done {
                records: records@,
                unversioned: unversioned@,
            },
            Traversal::Failed { error } => TraversalView::Failed { error },
        }
    }
}

/// What happened since the last step.
#[derive(Clone, Debug, PartialEq, Eq)]
pub enum Event {
    /// The walk is to begin.
    Begin,
    /// The transport returned these bytes for the request last sent.
    Returned(Vec<u8>),
    /// The transport failed on the request last sent.
    TransportFailed,
}

/// An event, with its bytes as a sequence.
pub enum EventView {
    Begin,
    Returned(Seq<u8>),
    TransportFailed,
}

impl View for Event {
    type V = EventView;

    open spec fn view(&self) -> EventView {
        match *self {
            Event::Begin => EventView::Begin,
            Event::Returned(data) => EventView::Returned(data@),
            Event::TransportFailed => EventView::TransportFailed,
        }
    }
}

/// What the caller is to do next.
#[derive(Clone, Debug, PartialEq, Eq)]
pub enum Action {
    /// Send this request and come back with the answer.
    Send(Request),
    /// Nothing: the walk has ended.
    Stop,
}

/// An action, with its payload as a sequence.
pub enum ActionView {
    Send { target: Address, payload: Seq<u8> },
    Stop,
}

impl View for Action {
    type V = ActionView;

    open spec fn view(&self) -> ActionView {
        match *self {
            Action::Send(request) => ActionView::Send {
                target: request.target,
                payload: request.payload@,
            },
            Action::Stop => ActionView::Stop,
        }
    }
}

/// The aggregators that the entries of a phase batch name, in order: one for
/// each entry whose call succeeded and returned an address.
pub open spec fn found_of(entries: Seq<CorrelatedView>) -> Seq<PhaseAggregator>
    decreases entries.len(),
{
    if entries.len() == 0 {
        Seq::empty()
    } else {
        match (entries.last().context, entries.last().outcome) {
            (
                ContextView::Phase { proxy, phase },
                OutcomeView::Decoded(Value::Address(aggregator)),
            ) => found_of(entries.drop_last()).push(PhaseAggregator { phase_id: phase, aggregator }),
            _ => found_of(entries.drop_last()),
        }
    }
}

/// The aggregators that the entries of a phase batch name, in the order of
/// the entries. A phase whose call failed, or returned no address, is left
/// out.
pub fn found_aggregators(entries: &Vec<Correlated>) -> (found: Vec<PhaseAggregator>)
    ensures
        found@ == found_of(correlated_views(entries@)),
{
    let ghost all = correlated_views(entries@);
    let mut found: Vec<PhaseAggregator> = Vec::new();
    let mut i: usize = 0;
    assert(all.take(0) =~= Seq::<CorrelatedView>::empty());
    while i < entries.len()
        invariant
            i <= entries.len(),
            all == correlated_views(entries@),
            found@ == found_of(all.take(i as int)),
        decreases entries.len() - i,
    {
        proof {
            assert(all.take(i + 1).drop_last() =~= all.take(i as int));
            assert(all.take(i + 1).last() == entries@[i as int]@);
        }
        match (&entries[i].context, &entries[i].outcome) {
            (
                QueryContext::Phase { proxy, phase },
                Outcome::Decoded(Decoded::Address(aggregator)),
            ) => {
                found.push(PhaseAggregator { phase_id: *phase, aggregator: *aggregator });
            },
            _ => {},
        }
        i = i + 1;
    }
    assert(all.take(i as int) =~= all);
    found
}

/// The addresses of the aggregators, in order.
pub open spec fn found_addresses(found: Seq<PhaseAggregator>) -> Seq<Address> {
    Seq::new(found.len(), |i: int| found[i].aggregator)
}

/// The addresses of the aggregators, in order.
pub fn aggregator_addresses(found: &Vec<PhaseAggregator>) -> (addresses: Vec<Address>)
    ensures
        addresses@ == found_addresses(found@),
{
    let mut addresses: Vec<Address> = Vec::new();
    let mut i: usize = 0;
    while i < found.len()
        invariant
            i <= found.len(),
            addresses@.len() == i,
            forall|j: int| 0 <= j < i ==> addresses@[j] == found@[j].aggregator,
        decreases found.len() - i,
    {
        addresses.push(found[i].aggregator);
        i = i + 1;
    }
    assert(addresses@ =~= found_addresses(found@));
    addresses
}

/// The records of the first `k` aggregators: one for each whose version call
/// succeeded and returned a number.
pub open spec fn records_of(found: Seq<PhaseAggregator>, entries: Seq<CorrelatedView>, k: nat)
    -> Seq<PhaseRecord>
    decreases k,
{
    if k == 0 {
        Seq::empty()
    } else {
        match entries[k - 1].outcome {
            OutcomeView::Decoded(Value::Uint(version)) => records_of(
                found,
                entries,
                (k - 1) as nat,
            ).push(
                PhaseRecord {
                    phase_id: found[k - 1].phase_id,
                    aggregator_address: found[k - 1].aggregator,
                    version,
                },
            ),
            _ => records_of(found, entries, (k - 1) as nat),
        }
    }
}

/// Those of the first `k` aggregators whose version is not known: the version
/// call failed, or returned no number.
pub open spec fn unversioned_of(found: Seq<PhaseAggregator>, entries: Seq<CorrelatedView>, k: nat)
    -> Seq<PhaseAggregator>
    decreases k,
{
    if k == 0 {
        Seq::empty()
    } else {
        match entries[k - 1].outcome {
            OutcomeView::Decoded(Value::Uint(_)) => unversioned_of(found, entries, (k - 1) as nat),
            _ => unversioned_of(found, entries, (k - 1) as nat).push(found[k - 1]),
        }
    }
}

/// Sorts the aggregators found by what their version calls came to: a record
/// for each that told its version, and the list of those that did not, both
/// in the order of `found`. Nothing comes back exactly when there is not one
/// entry for each aggregator.
pub fn classify(found: &Vec<PhaseAggregator>, entries: &Vec<Correlated>) -> (sorted: Option<
    (Vec<PhaseRecord>, Vec<PhaseAggregator>),
>)
    ensures
        match sorted {
            Some((records, unversioned)) => {
                &&& found@.len() == entries@.len()
                &&& records@ == records_of(found@, correlated_views(entries@), found@.len())
                &&& unversioned@ == unversioned_of(
                    found@,
                    correlated_views(entries@),
                    found@.len(),
                )
            },
            None => found@.len() != entries@.len(),
        },
{
    if found.len() != entries.len() {
        return None;
    }
    let ghost all = correlated_views(entries@);
    let mut records: Vec<PhaseRecord> = Vec::new();
    let mut unversioned: Vec<PhaseAggregator> = Vec::new();
    let mut i: usize = 0;
    while i < found.len()
        invariant
            i <= found.len() == entries.len(),
            all == correlated_views(entries@),
            records@ == records_of(found@, all, i as nat),
            unversioned@ == unversioned_of(found@, all, i as nat),
        decreases found.len() - i,
    {
        assert(all[i as int] == entries@[i as int]@);
        match &entries[i].outcome {
            Outcome::Decoded(Decoded::Uint(version)) => {
                records.push(
                    PhaseRecord {
                        phase_id: found[i].phase_id,
                        aggregator_address: found[i].aggregator,
                        version: *version,
                    },
                );
            },
            _ => {
                unversioned.push(found[i]);
            },
        }
        i = i + 1;
    }
    Some((records, unversioned))
}

/// The state in which the walk ends without any aggregator.
pub open spec fn nothing_found() -> TraversalView {
    TraversalView::Done { records: Seq::empty(), unversioned: Seq::empty() }
}

/// The state and the action by which the walk is given up.
pub open spec fn give_up(error: FeedError) -> (TraversalView, ActionView) {
    (TraversalView::Failed { error }, ActionView::Stop)
}

/// The request that carries the batch of `entries` to the batch contract.
pub open spec fn send_batch(settings: Settings, entries: Seq<crate::batch::Entry>) -> ActionView {
    ActionView::Send {
        target: settings.multicall,
        payload: aggregate3_payload(entry_calls(entries)),
    }
}

/// What follows the answer to the phase call.
pub open spec fn after_phase(settings: Settings, proxy: Address, returned: Seq<u8>) -> (
    TraversalView,
    ActionView,
) {
    match decoded_value(Schema::Phase, returned) {
        Some(Value::Phase(phase_id)) => if phase_id <= 1 {
            (nothing_found(), ActionView::Stop)
        } else {
            (
                TraversalView::AwaitAggregators { proxy, phase_id },
                send_batch(settings, phase_entries(proxy, phase_id)),
            )
        },
        _ => give_up(FeedError::Decode),
    }
}

/// What follows the answer to the batch of phase lookups.
pub open spec fn after_aggregators(
    settings: Settings,
    proxy: Address,
    phase_id: u16,
    returned: Seq<u8>,
) -> (TraversalView, ActionView) {
    match entry_outcomes(phase_entries(proxy, phase_id), returned) {
        Ok(entries) => {
            let found = found_of(entries);
            if found.len() == 0 {
                (nothing_found(), ActionView::Stop)
            } else {
                (
                    TraversalView::AwaitVersions { found },
                    send_batch(settings, version_entries(found_addresses(found))),
                )
            }
        },
        Err(error) => give_up(error),
    }
}

/// What follows the answer to the batch of version calls.
pub open spec fn after_versions(found: Seq<PhaseAggregator>, returned: Seq<u8>) -> (
    TraversalView,
    ActionView,
) {
    match entry_outcomes(version_entries(found_addresses(found)), returned) {
        Ok(entries) => (
            TraversalView::Done {
                records: records_of(found, entries, found.len()),
                unversioned: unversioned_of(found, entries, found.len()),
            },
            ActionView::Stop,
        ),
        Err(error) => give_up(error),
    }
}

/// The state that follows `state` on `event`, and what the caller is to do.
///
/// The walk begins by asking the proxy for its current phase. On the answer,
/// it asks, in one batch, for the aggregator of every earlier phase, from
/// phase 1 on; a proxy in phase 0 or 1 has none, and the walk ends. On the
/// answer to that, it asks the aggregators found, in one batch, for their
/// versions; where none was found, the walk ends. On the answer to that, it
/// ends with the records. A transport failure, or an answer that cannot be
/// read, ends the walk in failure; so does an event that the state does not
/// wait for. A walk that has ended stays ended.
pub open spec fn advance(settings: Settings, state: TraversalView, event: EventView) -> (
    TraversalView,
    ActionView,
) {
    match state {
        TraversalView::Start { proxy } => match event {
            EventView::Begin => (
                TraversalView::AwaitPhase { proxy },
                ActionView::Send { target: proxy, payload: FeedCall::PhaseId.payload() },
            ),
            _ => give_up(FeedError::Correlation),
        },
        TraversalView::AwaitPhase { proxy } => match event {
            EventView::Returned(returned) => after_phase(settings, proxy, returned),
            EventView::TransportFailed => give_up(FeedError::Transport),
            EventView::Begin => give_up(FeedError::Correlation),
        },
        TraversalView::AwaitAggregators { proxy, phase_id } => match event {
            EventView::Returned(returned) => after_aggregators(
                settings,
                proxy,
                phase_id,
                returned,
            ),
            EventView::TransportFailed => give_up(FeedError::Transport),
            EventView::Begin => give_up(FeedError::Correlation),
        },
        TraversalView::AwaitVersions { found } => match event {
            EventView::Returned(returned) => after_versions(found, returned),
            EventView::TransportFailed => give_up(FeedError::Transport),
            EventView::Begin => give_up(FeedError::Correlation),
        },
        TraversalView::Done { .. } => (state, ActionView::Stop),
        TraversalView::Failed { .. } => (state, ActionView::Stop),
    }
}

/// How many steps a walk in `state` can still take, at most.
pub open spec fn steps_left(state: TraversalView) -> nat {
    match state {
        TraversalView::Start { .. } => 4,
        TraversalView::AwaitPhase { .. } => 3,
        TraversalView::AwaitAggregators { .. } => 2,
        TraversalView::AwaitVersions { .. } => 1,
        TraversalView::Done { .. } => 0,
        TraversalView::Failed { .. } => 0,
    }
}

/// Every step brings the walk nearer its end, whatever the event: a walk
/// takes at most four steps, and so sends at most three requests, however
/// many phases the proxy has. The caller is asked to send exactly as long as
/// the walk has not ended.
pub proof fn lemma_walk_ends(settings: Settings, state: TraversalView, event: EventView)
    ensures
        steps_left(state) > 0 ==> steps_left(advance(settings, state, event).0) < steps_left(state),
        steps_left(state) == 0 ==> advance(settings, state, event).0 == state,
        advance(settings, state, event).1 is Stop <==> steps_left(
            advance(settings, state, event).0,
        ) == 0,
{
}

/// Whether the aggregators stand in strictly rising order of phase, each of a
/// phase from 1 up to `limit`.
pub open spec fn phases_rise(found: Seq<PhaseAggregator>, limit: int) -> bool {
    &&& forall|k: int| 0 <= k < found.len() ==> 1 <= (#[trigger] found[k]).phase_id <= limit
    &&& forall|j: int, k: int|
        0 <= j < k < found.len() ==> (#[trigger] found[j]).phase_id < (#[trigger] found[k]).phase_id
}

/// Whether the records stand in strictly rising order of phase, each of a
/// phase from 1 up to `limit`.
pub open spec fn records_rise(records: Seq<PhaseRecord>, limit: int) -> bool {
    &&& forall|k: int| 0 <= k < records.len() ==> 1 <= (#[trigger] records[k]).phase_id <= limit
    &&& forall|j: int, k: int|
        0 <= j < k < records.len() ==> (#[trigger] records[j]).phase_id < (
        #[trigger] records[k]).phase_id
}

/// The aggregators found in the outcomes of a phase batch stand in rising
/// order of phase.
pub proof fn lemma_found_rise(entries: Seq<CorrelatedView>, proxy: Address)
    requires
        entries.len() <= u16::MAX,
        forall|i: int|
            0 <= i < entries.len() ==> (#[trigger] entries[i]).context == (ContextView::Phase {
                proxy,
                phase: (i + 1) as u16,
            }),
    ensures
        phases_rise(found_of(entries), entries.len() as int),
    decreases entries.len(),
{
    if entries.len() > 0 {
        let init = entries.drop_last();
        assert forall|i: int| 0 <= i < init.len() implies (#[trigger] init[i]).context == (
        ContextView::Phase { proxy, phase: (i + 1) as u16 }) by {
            assert(init[i] == entries[i]);
        }
        lemma_found_rise(init, proxy);
        assert(entries.last() == entries[entries.len() - 1]);
    }
}

/// The records made of aggregators in rising order of phase stand in rising
/// order of phase, and none is of a later phase than the last aggregator
/// looked at.
pub proof fn lemma_records_rise(
    found: Seq<PhaseAggregator>,
    entries: Seq<CorrelatedView>,
    k: nat,
    limit: int,
)
    requires
        k <= found.len(),
        phases_rise(found, limit),
    ensures
        records_rise(records_of(found, entries, k), limit),
        k > 0 ==> forall|r: int|
            0 <= r < records_of(found, entries, k).len() ==> (#[trigger] records_of(
                found,
                entries,
                k,
            )[r]).phase_id <= found[k - 1].phase_id,
    decreases k,
{
    if k > 0 {
        lemma_records_rise(found, entries, (k - 1) as nat, limit);
        if k > 1 {
            assert(found[k - 2].phase_id < found[k - 1].phase_id);
        }
    }
}

/// The walk ends with its records in strictly rising order of phase, each of
/// a phase from 1 up to, but not including, the proxy's current phase.
pub proof fn lemma_records_in_phase_order(
    settings: Settings,
    proxy: Address,
    phase_id: u16,
    aggregators_returned: Seq<u8>,
    versions_returned: Seq<u8>,
)
    ensures
        after_aggregators(settings, proxy, phase_id, aggregators_returned).0 matches (
        TraversalView::AwaitVersions { found }) ==> phases_rise(found, phase_id - 1) && (
        after_versions(found, versions_returned).0 matches (TraversalView::Done {
            records,
            unversioned,
        }) ==> records_rise(records, phase_id - 1)),
{
    if let TraversalView::AwaitVersions { found } = after_aggregators(
        settings,
        proxy,
        phase_id,
        aggregators_returned,
    ).0 {
        let entries = entry_outcomes(phase_entries(proxy, phase_id), aggregators_returned)->Ok_0;
        assert(entries.len() == phase_entries(proxy, phase_id).len());
        lemma_found_rise(entries, proxy);
        if let TraversalView::Done { records, unversioned } = after_versions(
            found,
            versions_returned,
        ).0 {
            let versions = entry_outcomes(
                version_entries(found_addresses(found)),
                versions_returned,
            )->Ok_0;
            lemma_records_rise(found, versions, found.len(), phase_id - 1);
        }
    }
}

/// Reads the answer to the phase call and, where there are earlier phases,
/// asks for their aggregators.
pub fn on_phase(settings: &Settings, proxy: Address, returned: &[u8]) -> (next: (
    Traversal,
    Action,
))
    ensures
        (next.0@, next.1@) == after_phase(*settings, proxy, returned@),
{
    match decode(Schema::Phase, returned) {
        Ok(Decoded::Phase(phase_id)) => {
            if phase_id <= 1 {
                (Traversal::Done { records: Vec::new(), unversioned: Vec::new() }, Action::Stop)
            } else {
                let batch = phase_batch(proxy, phase_id);
                proof {
                    lemma_batch_calls(batch, phase_entries(proxy, phase_id));
                }
                match batch.request(settings) {
                    Some(request) => (
                        Traversal::AwaitAggregators { proxy, phase_id },
                        Action::Send(request),
                    ),
                    None => {
                        assert(false);
                        (Traversal::Failed { error: FeedError::Correlation }, Action::Stop)
                    },
                }
            }
        },
        _ => (Traversal::Failed { error: FeedError::Decode }, Action::Stop),
    }
}

/// Reads the answer to the batch of phase lookups and, where aggregators were
/// found, asks them for their versions.
pub fn on_aggregators(settings: &Settings, proxy: Address, phase_id: u16, returned: &[u8]) -> (next:
    (Traversal, Action))
    ensures
        (next.0@, next.1@) == after_aggregators(*settings, proxy, phase_id, returned@),
{
    let batch = phase_batch(proxy, phase_id);
    proof {
        lemma_batch_outcomes(batch, phase_entries(proxy, phase_id), returned@);
    }
    match batch.outcomes(returned) {
        Ok(entries) => {
            let found = found_aggregators(&entries);
            if found.len() == 0 {
                (Traversal::Done { records: Vec::new(), unversioned: Vec::new() }, Action::Stop)
            } else {
                let addresses = aggregator_addresses(&found);
                let versions = version_batch(&addresses);
                proof {
                    lemma_batch_calls(versions, version_entries(addresses@));
                }
                match versions.request(settings) {
                    Some(request) => (Traversal::AwaitVersions { found }, Action::Send(request)),
                    None => {
                        assert(false);
                        (Traversal::Failed { error: FeedError::Correlation }, Action::Stop)
                    },
                }
            }
        },
        Err(error) => (Traversal::Failed { error }, Action::Stop),
    }
}

/// Reads the answer to the batch of version calls and ends the walk.
pub fn on_versions(found: Vec<PhaseAggregator>, returned: &[u8]) -> (next: (Traversal, Action))
    ensures
        (next.0@, next.1@) == after_versions(found@, returned@),
{
    let addresses = aggregator_addresses(&found);
    let versions = version_batch(&addresses);
    proof {
        lemma_batch_outcomes(versions, version_entries(addresses@), returned@);
    }
    match versions.outcomes(returned) {
        Ok(entries) => {
            proof {
                let expected = entry_outcomes(version_entries(addresses@), returned@);
                assert(expected == Ok::<Seq<CorrelatedView>, FeedError>(
                    correlated_views(entries@),
                ));
                assert(expected->Ok_0.len() == version_entries(addresses@).len());
                assert(correlated_views(entries@).len() == entries@.len());
            }
            match classify(&found, &entries) {
            Some((records, unversioned)) => (
                Traversal::Done { records, unversioned },
                Action::Stop,
            ),
                None => {
                    assert(false);
                    (Traversal::Failed { error: FeedError::Correlation }, Action::Stop)
                },
            }
        },
        Err(error) => (Traversal::Failed { error }, Action::Stop),
    }
}

/// Takes the walk one step further: from `state`, on `event`, to the next
/// state and the action that the caller is to perform.
pub fn step(settings: &Settings, state: Traversal, event: Event) -> (next: (Traversal, Action))
    ensures
        (next.0@, next.1@) == advance(*settings, state@, event@),
{
    match state {
        Traversal::Start { proxy } => match event {
            Event::Begin => (
                Traversal::AwaitPhase { proxy },
                Action::Send(single_request(proxy, FeedCall::PhaseId)),
            ),
            _ => (Traversal::Failed { error: FeedError::Correlation }, Action::Stop),
        },
        Traversal::AwaitPhase { proxy } => match event {
            Event::Returned(returned) => on_phase(settings, proxy, returned.as_slice()),
            Event::TransportFailed => (
                Traversal::Failed { error: FeedError::Transport },
                Action::Stop,
            ),
            Event::Begin => (Traversal::Failed { error: FeedError::Correlation }, Action::Stop),
        },
        Traversal::AwaitAggregators { proxy, phase_id } => match event {
            Event::Returned(returned) => on_aggregators(
                settings,
                proxy,
                phase_id,
                returned.as_slice(),
            ),
            Event::TransportFailed => (
                Traversal::Failed { error: FeedError::Transport },
                Action::Stop,
            ),
            Event::Begin => (Traversal::Failed { error: FeedError::Correlation }, Action::Stop),
        },
        Traversal::AwaitVersions { found } => match event {
            Event::Returned(returned) => on_versions(found, returned.as_slice()),
            Event::TransportFailed => (
                Traversal::Failed { error: FeedError::Transport },
                Action::Stop,
            ),
            Event::Begin => (Traversal::Failed { error: FeedError::Correlation }, Action::Stop),
        },
        Traversal::Done { records, unversioned } => (
            Traversal::Done { records, unversioned },
            Action::Stop,
        ),
        Traversal::Failed { error } => (Traversal::Failed { error }, Action::Stop),
    }
}

} // verus!
