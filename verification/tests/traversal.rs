use feed_query::batch::Request;
use feed_query::calls::FeedCall;
use feed_query::config::Settings;
use feed_query::correlate::{Correlated, Outcome, QueryContext};
use feed_query::error::FeedError;
use feed_query::feeds::{phase_batch, version_batch};
use feed_query::schema::{Decoded, Schema};
use feed_query::traversal::{
    aggregator_addresses, classify, found_aggregators, on_phase, step, Action, Event,
    PhaseAggregator, Traversal,
};
use feed_query::types::{Address, PhaseRecord, Uint256};

fn word(value: u128) -> Vec<u8> {
    let mut out = vec![0u8; 16];
    out.extend_from_slice(&value.to_be_bytes());
    out
}

fn envelope(results: &[(bool, Vec<u8>)]) -> Vec<u8> {
    let mut parts: Vec<Vec<u8>> = Vec::new();
    for (success, raw) in results {
        let mut part = word(*success as u128);
        part.extend(word(64));
        part.extend(word(raw.len() as u128));
        part.extend_from_slice(raw);
        while part.len() % 32 != 0 {
            part.push(0);
        }
        parts.push(part);
    }
    let mut out = word(32);
    out.extend(word(parts.len() as u128));
    let mut offset = 32 * parts.len();
    for part in &parts {
        out.extend(word(offset as u128));
        offset += part.len();
    }
    for part in &parts {
        out.extend_from_slice(part);
    }
    out
}

fn address(byte: u8) -> Address {
    Address { bytes: [byte; 20] }
}

fn address_word(byte: u8) -> Vec<u8> {
    let mut out = vec![0u8; 12];
    out.extend_from_slice(&[byte; 20]);
    out
}

fn settings() -> Settings {
    Settings { multicall: address(0xcc) }
}

#[test]
fn phase_five_asks_for_phases_one_to_four_once() {
    let proxy = address(0x10);
    let batch = phase_batch(proxy, 5);
    assert_eq!(batch.len(), 4);
    for (i, call) in batch.calls.iter().enumerate() {
        let phase = i as u16 + 1;
        assert_eq!(call, &FeedCall::PhaseAggregators(phase).entry(proxy));
        assert!(call.allow_failure);
        assert_eq!(batch.queries[i].context, QueryContext::Phase { proxy, phase });
        assert_eq!(batch.queries[i].schema, Schema::Address);
    }
}

#[test]
fn phases_zero_and_one_have_no_earlier_phase() {
    assert_eq!(phase_batch(address(1), 0).len(), 0);
    assert_eq!(phase_batch(address(1), 1).len(), 0);
    assert_eq!(phase_batch(address(1), 2).len(), 1);
    assert_eq!(phase_batch(address(1), u16::MAX).len(), 65534);
}

#[test]
fn walk_through_five_phases() {
    let proxy = address(0x10);
    let settings = settings();

    let (state, action) = step(&settings, Traversal::Start { proxy }, Event::Begin);
    assert_eq!(state, Traversal::AwaitPhase { proxy });
    assert_eq!(
        action,
        Action::Send(Request { target: proxy, payload: vec![0x58, 0x30, 0x3b, 0x10] })
    );

    let (state, action) = step(&settings, state, Event::Returned(word(5)));
    assert_eq!(state, Traversal::AwaitAggregators { proxy, phase_id: 5 });
    assert_eq!(action, Action::Send(phase_batch(proxy, 5).request(&settings).unwrap()));

    let returned = envelope(&[
        (true, address_word(0xa1)),
        (false, vec![]),
        (true, address_word(0xa3)),
        (true, address_word(0xa4)),
    ]);
    let (state, action) = step(&settings, state, Event::Returned(returned));
    let found = vec![
        PhaseAggregator { phase_id: 1, aggregator: address(0xa1) },
        PhaseAggregator { phase_id: 3, aggregator: address(0xa3) },
        PhaseAggregator { phase_id: 4, aggregator: address(0xa4) },
    ];
    assert_eq!(state, Traversal::AwaitVersions { found: found.clone() });
    let versions = version_batch(&vec![address(0xa1), address(0xa3), address(0xa4)]);
    assert_eq!(action, Action::Send(versions.request(&settings).unwrap()));

    let returned = envelope(&[(true, word(2)), (false, vec![]), (true, word(4))]);
    let (state, action) = step(&settings, state, Event::Returned(returned));
    assert_eq!(action, Action::Stop);
    assert_eq!(
        state,
        Traversal::Done {
            records: vec![
                PhaseRecord {
                    phase_id: 1,
                    aggregator_address: address(0xa1),
                    version: Uint256::from_u128(2),
                },
                PhaseRecord {
                    phase_id: 4,
                    aggregator_address: address(0xa4),
                    version: Uint256::from_u128(4),
                },
            ],
            unversioned: vec![found[1]],
        }
    );

    let (again, action) = step(&settings, state.clone(), Event::Returned(word(1)));
    assert_eq!(again, state);
    assert_eq!(action, Action::Stop);
}

#[test]
fn a_proxy_in_its_first_phase_ends_the_walk() {
    let proxy = address(1);
    let done = Traversal::Done { records: Vec::new(), unversioned: Vec::new() };
    assert_eq!(on_phase(&settings(), proxy, &word(1)), (done.clone(), Action::Stop));
    assert_eq!(on_phase(&settings(), proxy, &word(0)), (done, Action::Stop));
}

#[test]
fn no_aggregator_found_ends_the_walk() {
    let state = Traversal::AwaitAggregators { proxy: address(1), phase_id: 3 };
    let returned = envelope(&[(false, vec![]), (true, vec![1, 2, 3])]);
    let (state, action) = step(&settings(), state, Event::Returned(returned));
    assert_eq!(state, Traversal::Done { records: Vec::new(), unversioned: Vec::new() });
    assert_eq!(action, Action::Stop);
}

#[test]
fn transport_failure_ends_the_walk_at_every_stage() {
    let failed = (Traversal::Failed { error: FeedError::Transport }, Action::Stop);
    let proxy = address(1);
    let waiting = vec![
        Traversal::AwaitPhase { proxy },
        Traversal::AwaitAggregators { proxy, phase_id: 4 },
        Traversal::AwaitVersions {
            found: vec![PhaseAggregator { phase_id: 1, aggregator: address(2) }],
        },
    ];
    for state in waiting {
        assert_eq!(step(&settings(), state, Event::TransportFailed), failed);
    }
}

#[test]
fn unreadable_answers_end_the_walk_in_a_decode_failure() {
    let failed = (Traversal::Failed { error: FeedError::Decode }, Action::Stop);
    let proxy = address(1);
    assert_eq!(
        step(&settings(), Traversal::AwaitPhase { proxy }, Event::Returned(vec![1, 2, 3])),
        failed
    );
    assert_eq!(
        step(&settings(), Traversal::AwaitPhase { proxy }, Event::Returned(word(65536))),
        failed
    );
    assert_eq!(
        step(
            &settings(),
            Traversal::AwaitAggregators { proxy, phase_id: 4 },
            Event::Returned(envelope(&[(true, address_word(1))])),
        ),
        failed
    );
    assert_eq!(
        step(
            &settings(),
            Traversal::AwaitVersions {
                found: vec![PhaseAggregator { phase_id: 1, aggregator: address(2) }],
            },
            Event::Returned(vec![]),
        ),
        failed
    );
}

#[test]
fn events_out_of_turn_end_the_walk() {
    let failed = (Traversal::Failed { error: FeedError::Correlation }, Action::Stop);
    let proxy = address(1);
    assert_eq!(step(&settings(), Traversal::Start { proxy }, Event::Returned(word(1))), failed);
    assert_eq!(step(&settings(), Traversal::Start { proxy }, Event::TransportFailed), failed);
    assert_eq!(step(&settings(), Traversal::AwaitPhase { proxy }, Event::Begin), failed);
    assert_eq!(
        step(&settings(), Traversal::AwaitAggregators { proxy, phase_id: 2 }, Event::Begin),
        failed
    );
    assert_eq!(
        step(&settings(), Traversal::AwaitVersions { found: Vec::new() }, Event::Begin),
        failed
    );
}

#[test]
fn a_failed_walk_stays_failed() {
    let state = Traversal::Failed { error: FeedError::Transport };
    assert_eq!(step(&settings(), state.clone(), Event::Begin), (state, Action::Stop));
}

#[test]
fn found_aggregators_skips_what_is_no_address() {
    let proxy = address(1);
    let entries = vec![
        Correlated {
            context: QueryContext::Phase { proxy, phase: 1 },
            outcome: Outcome::Decoded(Decoded::Address(address(0xa1))),
        },
        Correlated {
            context: QueryContext::Phase { proxy, phase: 2 },
            outcome: Outcome::DecodeFailed,
        },
        Correlated {
            context: QueryContext::Aggregator { aggregator: proxy },
            outcome: Outcome::Decoded(Decoded::Address(address(0xa3))),
        },
        Correlated {
            context: QueryContext::Phase { proxy, phase: 4 },
            outcome: Outcome::Decoded(Decoded::Uint(Uint256::from_u128(1))),
        },
        Correlated {
            context: QueryContext::Phase { proxy, phase: 5 },
            outcome: Outcome::Decoded(Decoded::Address(address(0xa5))),
        },
    ];
    let found = found_aggregators(&entries);
    assert_eq!(
        found,
        vec![
            PhaseAggregator { phase_id: 1, aggregator: address(0xa1) },
            PhaseAggregator { phase_id: 5, aggregator: address(0xa5) },
        ]
    );
    assert_eq!(aggregator_addresses(&found), vec![address(0xa1), address(0xa5)]);
}

#[test]
fn classify_wants_one_entry_per_aggregator() {
    let found = vec![PhaseAggregator { phase_id: 1, aggregator: address(2) }];
    assert_eq!(classify(&found, &Vec::new()), None);
    assert_eq!(classify(&Vec::new(), &Vec::new()), Some((Vec::new(), Vec::new())));
}
