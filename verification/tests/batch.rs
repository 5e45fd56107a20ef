use feed_query::array::{push_array_encoding, read_array_encoding, split_array};
use feed_query::batch::Batch;
use feed_query::calls::FeedCall;
use feed_query::config::Settings;
use feed_query::correlate::{
    correlate, outcome_of, single_outcome, Correlated, Outcome, Query, QueryContext,
};
use feed_query::error::FeedError;
use feed_query::feeds::{
    decoded_addresses, decoded_rounds, decoded_uints, latest_answer_batch, latest_round_batch,
    round_data_batch, round_options, single_request, version_batch, PairFeed,
};
use feed_query::multicall::{
    aggregate_results, decode_aggregate3, encode_aggregate3, encode_call, read_result, Call,
    CallResult,
};
use feed_query::schema::{encode_round_data, Decoded, Schema};
use feed_query::types::{Address, Int256, OracleDescriptor, RoundData, RoundId, Uint256};

fn word(value: u128) -> Vec<u8> {
    let mut out = vec![0u8; 16];
    out.extend_from_slice(&value.to_be_bytes());
    out
}

fn padded(bytes: &[u8]) -> Vec<u8> {
    let mut out = word(bytes.len() as u128);
    out.extend_from_slice(bytes);
    while out.len() % 32 != 0 {
        out.push(0);
    }
    out
}

fn result_part(success: bool, raw: &[u8]) -> Vec<u8> {
    let mut out = word(success as u128);
    out.extend(word(64));
    out.extend(padded(raw));
    out
}

fn envelope(results: &[(bool, Vec<u8>)]) -> Vec<u8> {
    let parts: Vec<Vec<u8>> = results.iter().map(|(s, r)| result_part(*s, r)).collect();
    let mut out = word(32);
    out.extend(word(parts.len() as u128));
    let mut offset = 32 * parts.len();
    for part in &parts {
        out.extend(word(offset as u128));
        offset += part.len();
    }
    for part in &parts {
        out.extend_from_slice(part);
    }
    out
}

fn address(byte: u8) -> Address {
    Address { bytes: [byte; 20] }
}

fn sample_round(local: u64) -> RoundData {
    RoundData {
        round_id: RoundId { phase: 2, local },
        answer: Int256 { bytes: Uint256::from_u128(1_234_500_000).bytes },
        started_at: Uint256::from_u128(1_700_000_000),
        updated_at: Uint256::from_u128(1_700_000_060),
        answered_in_round: RoundId { phase: 2, local },
    }
}

#[test]
fn a_call_is_encoded_as_target_flag_offset_payload() {
    let call = Call { target: address(0x22), allow_failure: true, payload: vec![1, 2, 3, 4] };
    let mut expected = vec![0u8; 12];
    expected.extend_from_slice(&[0x22; 20]);
    expected.extend(word(1));
    expected.extend(word(96));
    expected.extend(padded(&[1, 2, 3, 4]));
    assert_eq!(encode_call(&call), expected);
}

#[test]
fn aggregate3_payload_holds_the_calls_in_order() {
    let calls = vec![
        Call { target: address(1), allow_failure: true, payload: vec![0xaa; 4] },
        Call { target: address(2), allow_failure: false, payload: vec![0xbb; 36] },
    ];
    let first = encode_call(&calls[0]);
    let second = encode_call(&calls[1]);
    let mut expected = vec![0x82, 0xad, 0x56, 0xcb];
    expected.extend(word(32));
    expected.extend(word(2));
    expected.extend(word(64));
    expected.extend(word(64 + first.len() as u128));
    expected.extend_from_slice(&first);
    expected.extend_from_slice(&second);
    assert_eq!(encode_aggregate3(&calls), Some(expected));
}

#[test]
fn an_empty_batch_is_not_sent() {
    assert_eq!(encode_aggregate3(&Vec::new()), None);
    assert_eq!(Batch::new().request(&Settings::standard()), None);
    assert_eq!(Batch::new().len(), 0);
}

#[test]
fn array_encoding_round_trip() {
    let parts = vec![vec![1u8; 32], vec![], vec![2u8; 64]];
    let mut data = Vec::new();
    push_array_encoding(&mut data, &parts);
    let mut expected = word(3);
    expected.extend(word(96));
    expected.extend(word(128));
    expected.extend(word(128));
    expected.extend_from_slice(&[1u8; 32]);
    expected.extend_from_slice(&[2u8; 64]);
    assert_eq!(data, expected);
    assert_eq!(read_array_encoding(&data), Some(parts.clone()));
    assert_eq!(split_array(&data), Some(parts));
}

#[test]
fn empty_array_is_one_word() {
    let mut data = Vec::new();
    push_array_encoding(&mut data, &Vec::new());
    assert_eq!(data, word(0));
    assert_eq!(read_array_encoding(&data), Some(Vec::new()));
    let mut longer = data.clone();
    longer.extend(word(0));
    assert_eq!(read_array_encoding(&longer), None);
}

#[test]
fn arrays_with_bad_offsets_are_refused() {
    let parts = vec![vec![1u8; 32], vec![2u8; 32]];
    let mut good = Vec::new();
    push_array_encoding(&mut good, &parts);
    assert_eq!(read_array_encoding(&good), Some(parts));

    let mut first_off = good.clone();
    first_off[32..64].copy_from_slice(&word(65));
    assert_eq!(read_array_encoding(&first_off), None);

    let mut backwards = good.clone();
    backwards[64..96].copy_from_slice(&word(32));
    assert_eq!(read_array_encoding(&backwards), None);

    let mut beyond = good.clone();
    beyond[64..96].copy_from_slice(&word(4096));
    assert_eq!(read_array_encoding(&beyond), None);

    let mut huge = good.clone();
    huge[64..96].copy_from_slice(&[0xff; 32]);
    assert_eq!(read_array_encoding(&huge), None);

    let mut count = good.clone();
    count[..32].copy_from_slice(&[0xff; 32]);
    assert_eq!(read_array_encoding(&count), None);

    let mut many = good.clone();
    many[..32].copy_from_slice(&word(u64::MAX as u128));
    assert_eq!(read_array_encoding(&many), None);

    assert_eq!(read_array_encoding(&good[..31]), None);
    assert_eq!(read_array_encoding(&good[..64]), None);
    assert_eq!(read_array_encoding(&[]), None);
}

#[test]
fn a_result_is_read_from_its_element() {
    let part = result_part(true, &[9, 9, 9]);
    assert_eq!(read_result(&part), Some(CallResult { success: true, raw_return: vec![9, 9, 9] }));
    let failed = result_part(false, &[]);
    assert_eq!(read_result(&failed), Some(CallResult { success: false, raw_return: vec![] }));

    let mut flag = part.clone();
    flag[31] = 2;
    assert_eq!(read_result(&flag), None);
    let mut offset = part.clone();
    offset[63] = 96;
    assert_eq!(read_result(&offset), None);
    assert_eq!(read_result(&part[..63]), None);
    assert_eq!(read_result(&part[..64]), None);
}

#[test]
fn envelope_keeps_count_and_order() {
    let sent = vec![
        (true, word(1)),
        (false, vec![]),
        (true, word(3)),
        (true, vec![0xab; 5]),
    ];
    let results = decode_aggregate3(&envelope(&sent)).unwrap();
    assert_eq!(results.len(), sent.len());
    for (result, (success, raw)) in results.iter().zip(sent.iter()) {
        assert_eq!(result.success, *success);
        assert_eq!(&result.raw_return, raw);
    }
}

#[test]
fn envelope_order_follows_every_permutation() {
    let items = [(true, word(10)), (false, vec![]), (true, word(30))];
    let orders = [[0, 1, 2], [0, 2, 1], [1, 0, 2], [1, 2, 0], [2, 0, 1], [2, 1, 0]];
    for order in orders {
        let sent: Vec<(bool, Vec<u8>)> = order.iter().map(|i| items[*i].clone()).collect();
        let results = decode_aggregate3(&envelope(&sent)).unwrap();
        let got: Vec<(bool, Vec<u8>)> =
            results.into_iter().map(|r| (r.success, r.raw_return)).collect();
        assert_eq!(got, sent);
    }
}

#[test]
fn envelope_where_every_call_failed_keeps_its_count() {
    let sent = vec![(false, vec![]), (false, vec![]), (false, vec![])];
    let results = decode_aggregate3(&envelope(&sent)).unwrap();
    assert_eq!(results.len(), 3);
    assert!(results.iter().all(|r| !r.success && r.raw_return.is_empty()));
}

#[test]
fn malformed_envelopes_are_refused() {
    let good = envelope(&[(true, word(1)), (true, word(2))]);
    assert!(decode_aggregate3(&good).is_ok());
    assert_eq!(decode_aggregate3(&good[..good.len() - 1]), Err(FeedError::Decode));
    assert_eq!(decode_aggregate3(&good[..40]), Err(FeedError::Decode));
    assert_eq!(decode_aggregate3(&[]), Err(FeedError::Decode));
    let mut offset = good.clone();
    offset[31] = 64;
    assert_eq!(decode_aggregate3(&offset), Err(FeedError::Decode));
    let mut trailing = good.clone();
    trailing.extend(word(0));
    assert_eq!(decode_aggregate3(&trailing), Err(FeedError::Decode));
    let mut flag = good.clone();
    flag[32 + 32 + 64 + 31] = 7;
    assert_eq!(decode_aggregate3(&flag), Err(FeedError::Decode));
    let mut length = good.clone();
    length[32 + 32 + 64 + 64..32 + 32 + 64 + 96].copy_from_slice(&[0xff; 32]);
    assert_eq!(decode_aggregate3(&length), Err(FeedError::Decode));
}

#[test]
fn batch_results_must_match_the_number_of_calls() {
    let batch = version_batch(&vec![address(1), address(2)]);
    let two = envelope(&[(true, word(4)), (true, word(5))]);
    let three = envelope(&[(true, word(4)), (true, word(5)), (true, word(6))]);
    let none = envelope(&[]);
    assert_eq!(batch.results(&two).unwrap().len(), 2);
    assert_eq!(batch.results(&three), Err(FeedError::Decode));
    assert_eq!(batch.results(&none), Err(FeedError::Decode));
    assert_eq!(batch.outcomes(&three), Err(FeedError::Decode));
}

#[test]
fn aggregate_results_counts_the_results() {
    let two = envelope(&[(true, word(4)), (false, vec![])]);
    assert_eq!(
        aggregate_results(2, &two),
        Ok(vec![
            CallResult { success: true, raw_return: word(4) },
            CallResult { success: false, raw_return: vec![] },
        ])
    );
    assert_eq!(aggregate_results(1, &two), Err(FeedError::Decode));
    assert_eq!(aggregate_results(3, &two), Err(FeedError::Decode));
    assert_eq!(aggregate_results(0, &envelope(&[])), Ok(Vec::new()));
    assert_eq!(aggregate_results(0, &[]), Err(FeedError::Decode));
}

#[test]
fn correlate_refuses_a_count_mismatch() {
    let queries = vec![Query {
        context: QueryContext::Aggregator { aggregator: address(1) },
        schema: Schema::Uint,
    }];
    assert_eq!(correlate(&queries, &Vec::new()), Err(FeedError::Correlation));
    let two = vec![
        CallResult { success: true, raw_return: word(1) },
        CallResult { success: true, raw_return: word(2) },
    ];
    assert_eq!(correlate(&queries, &two), Err(FeedError::Correlation));
    assert_eq!(correlate(&Vec::new(), &Vec::new()), Ok(Vec::new()));
}

#[test]
fn a_batch_with_uneven_lists_is_refused() {
    let mut batch = version_batch(&vec![address(1)]);
    batch.queries.clear();
    assert_eq!(batch.outcomes(&envelope(&[(true, word(4))])), Err(FeedError::Correlation));
}

#[test]
fn outcome_of_each_kind() {
    let ok = CallResult { success: true, raw_return: word(7) };
    let reverted = CallResult { success: false, raw_return: word(7) };
    let garbled = CallResult { success: true, raw_return: vec![1, 2, 3] };
    assert_eq!(
        outcome_of(Schema::Uint, &ok),
        Outcome::Decoded(Decoded::Uint(Uint256::from_u128(7)))
    );
    assert_eq!(outcome_of(Schema::Uint, &reverted), Outcome::CallFailed);
    assert_eq!(outcome_of(Schema::Uint, &garbled), Outcome::DecodeFailed);
    assert_eq!(outcome_of(Schema::Round, &ok), Outcome::DecodeFailed);
}

#[test]
fn partial_failure_leaves_the_other_entries_standing() {
    let oracle = address(0x77);
    let ids = vec![
        RoundId { phase: 2, local: 1 },
        RoundId { phase: 2, local: 2 },
        RoundId { phase: 2, local: 3 },
    ];
    let batch = round_data_batch(oracle, &ids);
    assert!(batch.calls.iter().all(|c| c.allow_failure && c.target == oracle));
    let returned = envelope(&[
        (true, encode_round_data(&sample_round(1))),
        (false, vec![]),
        (true, encode_round_data(&sample_round(3))),
    ]);
    let entries = batch.outcomes(&returned).unwrap();
    assert_eq!(
        entries,
        vec![
            Correlated {
                context: QueryContext::Round { oracle, round_id: ids[0] },
                outcome: Outcome::Decoded(Decoded::Round(sample_round(1))),
            },
            Correlated {
                context: QueryContext::Round { oracle, round_id: ids[1] },
                outcome: Outcome::CallFailed,
            },
            Correlated {
                context: QueryContext::Round { oracle, round_id: ids[2] },
                outcome: Outcome::Decoded(Decoded::Round(sample_round(3))),
            },
        ]
    );
    assert_eq!(decoded_rounds(&entries), vec![sample_round(1), sample_round(3)]);
    assert_eq!(
        round_options(&entries),
        vec![Some(sample_round(1)), None, Some(sample_round(3))]
    );
}

#[test]
fn an_undecodable_entry_does_not_stop_the_batch() {
    let batch = version_batch(&vec![address(1), address(2), address(3)]);
    let returned = envelope(&[(true, vec![1, 2, 3]), (true, word(4)), (false, vec![])]);
    let entries = batch.outcomes(&returned).unwrap();
    assert_eq!(entries[0].outcome, Outcome::DecodeFailed);
    assert_eq!(entries[1].outcome, Outcome::Decoded(Decoded::Uint(Uint256::from_u128(4))));
    assert_eq!(entries[2].outcome, Outcome::CallFailed);
    assert_eq!(decoded_uints(&entries), vec![Uint256::from_u128(4)]);
    assert_eq!(decoded_addresses(&entries), Vec::new());
}

#[test]
fn single_and_batch_of_one_decode_alike() {
    let returned = word(2_000_000_000);
    let single = single_outcome(Schema::Uint, &returned).unwrap();
    let pair = PairFeed {
        token: String::from("ETH"),
        base: String::from("USD"),
        oracle: OracleDescriptor { proxy_address: address(9), decimals: 8 },
    };
    let batch = latest_answer_batch(&vec![pair]);
    let entries = batch.outcomes(&envelope(&[(true, returned.clone())])).unwrap();
    assert_eq!(entries.len(), 1);
    assert_eq!(entries[0].outcome, Outcome::Decoded(single.clone()));
    assert_eq!(single, Decoded::Uint(Uint256::from_u128(2_000_000_000)));

    let garbled = vec![0u8; 31];
    assert_eq!(single_outcome(Schema::Uint, &garbled), Err(FeedError::Decode));
    let broken = batch.outcomes(&envelope(&[(true, garbled)])).unwrap();
    assert_eq!(broken[0].outcome, Outcome::DecodeFailed);
}

#[test]
fn latest_answer_batch_keeps_pairs_and_targets() {
    let pairs = vec![
        PairFeed {
            token: String::from("ETH"),
            base: String::from("USD"),
            oracle: OracleDescriptor { proxy_address: address(1), decimals: 8 },
        },
        PairFeed {
            token: String::from("LINK"),
            base: String::from("ETH"),
            oracle: OracleDescriptor { proxy_address: address(2), decimals: 18 },
        },
    ];
    let batch = latest_answer_batch(&pairs);
    assert_eq!(batch.len(), 2);
    assert_eq!(batch.calls[0].target, address(1));
    assert_eq!(batch.calls[1].target, address(2));
    assert_eq!(batch.calls[0].payload, FeedCall::LatestAnswer.encode());
    assert_eq!(
        batch.queries[1],
        Query {
            context: QueryContext::Pair { token: String::from("LINK"), base: String::from("ETH") },
            schema: Schema::Uint,
        }
    );
}

#[test]
fn latest_round_batch_asks_each_aggregator() {
    let batch = latest_round_batch(&vec![address(4), address(5)]);
    assert_eq!(batch.len(), 2);
    assert_eq!(batch.calls[1].target, address(5));
    assert_eq!(batch.calls[1].payload, FeedCall::LatestRoundData.encode());
    assert_eq!(batch.queries[0].schema, Schema::Round);
    assert_eq!(
        batch.queries[0].context,
        QueryContext::Aggregator { aggregator: address(4) }
    );
}

#[test]
fn batch_request_goes_to_the_batch_contract() {
    let batch = version_batch(&vec![address(1)]);
    let standard = batch.request(&Settings::standard()).unwrap();
    assert_eq!(
        standard.target.bytes,
        [
            0xca, 0x11, 0xbd, 0xe0, 0x59, 0x77, 0xb3, 0x63, 0x11, 0x67, 0x02, 0x88, 0x62, 0xbe,
            0x2a, 0x17, 0x39, 0x76, 0xca, 0x11
        ]
    );
    assert_eq!(Some(standard.payload), encode_aggregate3(&batch.calls));
    let own = batch.request(&Settings { multicall: address(0x42) }).unwrap();
    assert_eq!(own.target, address(0x42));
}

#[test]
fn single_request_is_the_call_alone() {
    let request = single_request(address(3), FeedCall::Description);
    assert_eq!(request.target, address(3));
    assert_eq!(request.payload, vec![0x72, 0x84, 0xe4, 0x16]);
}

#[test]
fn pushing_an_entry_adds_call_and_query() {
    let mut batch = Batch::new();
    batch.push(
        address(8),
        FeedCall::PhaseAggregators(2),
        QueryContext::Phase { proxy: address(8), phase: 2 },
    );
    assert_eq!(batch.len(), 1);
    assert_eq!(batch.calls[0], FeedCall::PhaseAggregators(2).entry(address(8)));
    assert_eq!(batch.queries[0].schema, Schema::Address);
    let context = QueryContext::Pair { token: String::from("A"), base: String::from("B") };
    assert_eq!(context.duplicate(), context);
}
