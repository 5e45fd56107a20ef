use alloy_primitives::{I256, U256};
use alloy_sol_types::{sol_data, SolType};
use feed_query::calls::FeedCall;
use feed_query::error::FeedError;
use feed_query::feeds::{description, latest_answer, phase_id, round_data};
use feed_query::multicall::{decode_aggregate3, encode_aggregate3, Call, CallResult};
use feed_query::schema::{decode, encode_round_data, Decoded, Schema};
use feed_query::selector::selector;
use feed_query::types::{Address, Int256, RoundData, RoundId, Uint256};

type Results = sol_data::Array<(sol_data::Bool, sol_data::Bytes)>;
type Calls = (sol_data::Array<(sol_data::Address, sol_data::Bool, sol_data::Bytes)>,);
type Round = (
    sol_data::Uint<80>,
    sol_data::Int<256>,
    sol_data::Uint<256>,
    sol_data::Uint<256>,
    sol_data::Uint<80>,
);

fn sample_results() -> Vec<(bool, Vec<u8>)> {
    vec![
        (true, vec![0x11; 32]),
        (false, Vec::new()),
        (true, vec![1, 2, 3, 4, 5]),
        (true, vec![0x22; 160]),
        (false, vec![0x08, 0xc3, 0x79, 0xa0]),
    ]
}

#[test]
fn envelope_written_by_alloy_is_read_alike() {
    let sent = sample_results();
    let data = Results::abi_encode(&sent);
    let expected: Vec<CallResult> = sent
        .iter()
        .map(|(success, raw)| CallResult { success: *success, raw_return: raw.clone() })
        .collect();
    assert_eq!(decode_aggregate3(&data), Ok(expected));
    let theirs = Results::abi_decode(&data, true).unwrap();
    assert_eq!(theirs.len(), sent.len());
}

#[test]
fn empty_envelope_written_by_alloy_is_read_alike() {
    let data = Results::abi_encode(&Vec::<(bool, Vec<u8>)>::new());
    assert_eq!(decode_aggregate3(&data), Ok(Vec::new()));
}

#[test]
fn envelope_refused_here_is_refused_by_alloy_when_validating() {
    let good = Results::abi_encode(&sample_results());
    let mut trailing = good.clone();
    trailing.extend_from_slice(&[0u8; 32]);
    let mut flag = good.clone();
    let first_element = 32 + 32 + 32 * 5;
    flag[first_element + 30] = 1;
    let truncated = good[..good.len() - 32].to_vec();
    for data in [trailing, flag, truncated] {
        assert_eq!(decode_aggregate3(&data), Err(FeedError::Decode));
        assert!(Results::abi_decode(&data, true).is_err());
    }
}

#[test]
fn aggregate3_payload_matches_alloy() {
    let calls = vec![
        Call {
            target: Address { bytes: [0xaa; 20] },
            allow_failure: true,
            payload: FeedCall::LatestAnswer.encode(),
        },
        Call {
            target: Address { bytes: [0xbb; 20] },
            allow_failure: false,
            payload: FeedCall::GetRoundData(RoundId { phase: 3, local: 99 }).encode(),
        },
        Call { target: Address { bytes: [0xcc; 20] }, allow_failure: true, payload: Vec::new() },
    ];
    let theirs: Vec<(alloy_primitives::Address, bool, Vec<u8>)> = calls
        .iter()
        .map(|c| (alloy_primitives::Address::from(c.target.bytes), c.allow_failure, c.payload.clone()))
        .collect();
    let mut expected = selector("aggregate3((address,bool,bytes)[])").to_vec();
    expected.extend(Calls::abi_encode_params(&(theirs,)));
    assert_eq!(encode_aggregate3(&calls), Some(expected));
}

#[test]
fn selector_is_the_head_of_the_keccak_digest() {
    let digest = alloy_primitives::keccak256("version()".as_bytes());
    assert_eq!(selector("version()").to_vec(), digest.0[..4].to_vec());
    assert_eq!(selector("").to_vec(), vec![0xc5, 0xd2, 0x46, 0x01]);
}

#[test]
fn round_data_written_by_alloy_is_read_alike() {
    let id: u128 = (7u128 << 64) + 1234;
    let answer = I256::try_from(-42_000_000i64).unwrap();
    let started = U256::from(1_700_000_000u64);
    let updated = U256::from(1_700_000_100u64);
    let data = Round::abi_encode(&(id, answer, started, updated, id));
    let expected = RoundData {
        round_id: RoundId { phase: 7, local: 1234 },
        answer: Int256 { bytes: answer.to_be_bytes::<32>() },
        started_at: Uint256 { bytes: started.to_be_bytes::<32>() },
        updated_at: Uint256 { bytes: updated.to_be_bytes::<32>() },
        answered_in_round: RoundId { phase: 7, local: 1234 },
    };
    assert_eq!(round_data(&data), Ok(expected));
    assert!(expected.answer.is_negative());
    assert_eq!(encode_round_data(&expected), data);
    assert_eq!(decode(Schema::Round, &data), Ok(Decoded::Round(expected)));
}

#[test]
fn round_data_refused_here_is_refused_by_alloy_when_validating() {
    let id: u128 = 5;
    let data = Round::abi_encode(&(id, I256::ZERO, U256::ZERO, U256::ZERO, id));
    let mut wide = data.clone();
    wide[0] = 1;
    let mut long = data.clone();
    long.extend_from_slice(&[0u8; 32]);
    let short = data[..128].to_vec();
    for payload in [wide, long, short] {
        assert_eq!(round_data(&payload), Err(FeedError::Decode));
        assert!(Round::abi_decode(&payload, true).is_err());
    }
}

#[test]
fn uint_written_by_alloy_is_read_alike() {
    let value = U256::from(123_456_789_000u64);
    let data = sol_data::Uint::<256>::abi_encode(&value);
    assert_eq!(latest_answer(&data), Ok(Uint256::from_u128(123_456_789_000)));
    assert_eq!(latest_answer(&data).unwrap().bytes, value.to_be_bytes::<32>());
}

#[test]
fn phase_written_by_alloy_is_read_alike() {
    let data = sol_data::Uint::<16>::abi_encode(&513u16);
    assert_eq!(phase_id(&data), Ok(513));
}

#[test]
fn address_written_by_alloy_is_read_alike() {
    let theirs = alloy_primitives::Address::from([0x5a; 20]);
    let data = sol_data::Address::abi_encode(&theirs);
    assert_eq!(
        decode(Schema::Address, &data),
        Ok(Decoded::Address(Address { bytes: [0x5a; 20] }))
    );
}

#[test]
fn text_written_by_alloy_is_read_alike() {
    for text in ["", "ETH / USD", "a text of exactly thirty-two byt", "çé — ✓ longer than one word, with more than ascii"] {
        let data = sol_data::String::abi_encode(text);
        assert_eq!(description(&data), Ok(String::from(text)));
    }
}
