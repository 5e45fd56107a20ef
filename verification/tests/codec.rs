use feed_query::calls::FeedCall;
use feed_query::codec::{push_bytes_encoding, read_bool, read_bytes_encoding, read_phase, read_size};
use feed_query::error::FeedError;
use feed_query::feeds::{description, latest_answer, phase_id, round_data};
use feed_query::schema::{decode, encode_round_data, Decoded, Schema};
use feed_query::selector::{encode_call_payload, selector};
use feed_query::types::{Address, Int256, RoundData, RoundId, Uint256};
use feed_query::word::{push_be, read_be, read_uint};

fn word(value: u128) -> Vec<u8> {
    let mut out = vec![0u8; 16];
    out.extend_from_slice(&value.to_be_bytes());
    out
}

fn sample_round() -> RoundData {
    RoundData {
        round_id: RoundId { phase: 5, local: 7 },
        answer: Int256 { bytes: Uint256::from_u128(200_000_000_000).bytes },
        started_at: Uint256::from_u128(1_700_000_000),
        updated_at: Uint256::from_u128(1_700_000_012),
        answered_in_round: RoundId { phase: 5, local: 7 },
    }
}

fn sample_round_payload() -> Vec<u8> {
    let mut data = Vec::new();
    data.extend(word((5u128 << 64) + 7));
    data.extend(word(200_000_000_000));
    data.extend(word(1_700_000_000));
    data.extend(word(1_700_000_012));
    data.extend(word((5u128 << 64) + 7));
    data
}

#[test]
fn selector_of_latest_answer() {
    assert_eq!(selector("latestAnswer()"), [0x50, 0xd2, 0x5b, 0xcd]);
}

#[test]
fn call_payload_is_selector_then_arguments() {
    assert_eq!(
        encode_call_payload("latestAnswer()", &[1, 2, 3]),
        vec![0x50, 0xd2, 0x5b, 0xcd, 1, 2, 3]
    );
    assert_eq!(encode_call_payload("version()", &[]), vec![0x54, 0xfd, 0x4d, 0x50]);
}

#[test]
fn selectors_of_the_feed_functions() {
    assert_eq!(FeedCall::LatestAnswer.encode(), vec![0x50, 0xd2, 0x5b, 0xcd]);
    assert_eq!(FeedCall::LatestRoundData.encode(), vec![0xfe, 0xaf, 0x96, 0x8c]);
    assert_eq!(FeedCall::Description.encode(), vec![0x72, 0x84, 0xe4, 0x16]);
    assert_eq!(FeedCall::Version.encode(), vec![0x54, 0xfd, 0x4d, 0x50]);
    assert_eq!(FeedCall::PhaseId.encode(), vec![0x58, 0x30, 0x3b, 0x10]);
}

#[test]
fn get_round_data_call_carries_the_round_id() {
    let payload = FeedCall::GetRoundData(RoundId { phase: 1, local: 2 }).encode();
    let mut expected = vec![0x9a, 0x6f, 0xc8, 0xf5];
    expected.extend(word((1u128 << 64) + 2));
    assert_eq!(payload, expected);
}

#[test]
fn phase_aggregators_call_carries_the_phase() {
    let payload = FeedCall::PhaseAggregators(3).encode();
    let mut expected = vec![0xc1, 0x59, 0x73, 0x04];
    expected.extend(word(3));
    assert_eq!(payload, expected);
}

#[test]
fn each_call_expects_its_schema() {
    assert_eq!(FeedCall::LatestAnswer.expected(), Schema::Uint);
    assert_eq!(FeedCall::Version.expected(), Schema::Uint);
    assert_eq!(FeedCall::GetRoundData(RoundId { phase: 0, local: 1 }).expected(), Schema::Round);
    assert_eq!(FeedCall::LatestRoundData.expected(), Schema::Round);
    assert_eq!(FeedCall::Description.expected(), Schema::Text);
    assert_eq!(FeedCall::PhaseId.expected(), Schema::Phase);
    assert_eq!(FeedCall::PhaseAggregators(1).expected(), Schema::Address);
}

#[test]
fn big_endian_digits_round_trip() {
    let mut out = Vec::new();
    push_be(&mut out, 0x0102_03, 4);
    assert_eq!(out, vec![0, 1, 2, 3]);
    assert_eq!(read_be(&out, 1, 3), 0x0102_03);
    assert_eq!(read_be(&out, 0, 0), 0);

    let mut wide = Vec::new();
    push_be(&mut wide, u128::MAX, 40);
    assert_eq!(wide.len(), 40);
    assert_eq!(&wide[..24], &[0u8; 24]);
    assert_eq!(&wide[24..], &[0xffu8; 16]);
    assert_eq!(read_be(&wide, 24, 16), u128::MAX);

    let mut none = Vec::new();
    push_be(&mut none, 7, 0);
    assert!(none.is_empty());
}

#[test]
fn read_uint_refuses_numbers_that_do_not_fit() {
    let small = word(0xffff);
    assert_eq!(read_uint(&small, 2), Some(0xffff));
    assert_eq!(read_uint(&small, 1), None);
    let mut large = word(1);
    large[0] = 1;
    assert_eq!(read_uint(&large, 16), None);
}

#[test]
fn uint256_from_u128_is_big_endian() {
    let n = Uint256::from_u128(0x0102);
    let mut expected = [0u8; 32];
    expected[30] = 1;
    expected[31] = 2;
    assert_eq!(n.bytes, expected);
    assert_eq!(n.to_u128(), Some(0x0102));
    assert!(n.exceeds(0x0101));
    assert!(!n.exceeds(0x0102));
}

#[test]
fn uint256_above_u128_has_no_u128() {
    let mut bytes = [0u8; 32];
    bytes[15] = 1;
    let n = Uint256 { bytes };
    assert_eq!(n.to_u128(), None);
    assert!(n.exceeds(u128::MAX));
}

#[test]
fn int256_sign_is_the_top_bit() {
    assert!(Int256 { bytes: [0xff; 32] }.is_negative());
    assert!(!Int256 { bytes: [0x7f; 32] }.is_negative());
    assert!(!Int256 { bytes: [0; 32] }.is_negative());
}

#[test]
fn round_id_splits_into_phase_and_local() {
    let id = RoundId::from_u128((5u128 << 64) + 7).unwrap();
    assert_eq!(id, RoundId { phase: 5, local: 7 });
    assert_eq!(id.to_u128(), 92233720368547758087);
    assert_eq!(RoundId::from_u128(1u128 << 80), None);
    assert_eq!(
        RoundId::from_u128((1u128 << 80) - 1),
        Some(RoundId { phase: u16::MAX, local: u64::MAX })
    );
}

#[test]
fn round_id_word_round_trip() {
    let id = RoundId { phase: 0x0102, local: 0x0304050607080910 };
    let mut out = Vec::new();
    id.push_word(&mut out);
    assert_eq!(out, word(0x0102_0304050607080910));
    assert_eq!(RoundId::from_word(&out), Some(id));
    let mut wide = out.clone();
    wide[21] = 1;
    assert_eq!(RoundId::from_word(&wide), None);
}

#[test]
fn address_word_round_trip() {
    let address = Address { bytes: [0x11; 20] };
    let mut out = Vec::new();
    address.push_word(&mut out);
    assert_eq!(out.len(), 32);
    assert_eq!(&out[..12], &[0u8; 12]);
    assert_eq!(&out[12..], &[0x11u8; 20]);
    assert_eq!(Address::from_word(&out), Some(address));
    out[11] = 1;
    assert_eq!(Address::from_word(&out), None);
}

#[test]
fn flags_are_zero_or_one() {
    assert_eq!(read_bool(&word(0)), Some(false));
    assert_eq!(read_bool(&word(1)), Some(true));
    assert_eq!(read_bool(&word(2)), None);
    assert_eq!(read_bool(&word(256)), None);
}

#[test]
fn phase_words_hold_sixteen_bits() {
    assert_eq!(read_phase(&word(5)), Some(5));
    assert_eq!(read_phase(&word(0xffff)), Some(0xffff));
    assert_eq!(read_phase(&word(0x1_0000)), None);
}

#[test]
fn size_words_hold_a_usize() {
    assert_eq!(read_size(&word(96)), Some(96));
    assert_eq!(read_size(&word(1u128 << 64)), None);
}

#[test]
fn byte_strings_are_padded_to_words() {
    let mut out = Vec::new();
    push_bytes_encoding(&mut out, &[1, 2, 3]);
    let mut expected = word(3);
    expected.extend_from_slice(&[1, 2, 3]);
    expected.extend_from_slice(&[0u8; 29]);
    assert_eq!(out, expected);
    assert_eq!(read_bytes_encoding(&out), Some(vec![1, 2, 3]));

    let mut empty = Vec::new();
    push_bytes_encoding(&mut empty, &[]);
    assert_eq!(empty, word(0));
    assert_eq!(read_bytes_encoding(&empty), Some(vec![]));

    let mut full = Vec::new();
    push_bytes_encoding(&mut full, &[7u8; 32]);
    assert_eq!(full.len(), 64);
    assert_eq!(read_bytes_encoding(&full), Some(vec![7u8; 32]));
}

#[test]
fn byte_strings_with_a_flaw_are_refused() {
    let mut good = Vec::new();
    push_bytes_encoding(&mut good, &[1, 2, 3]);
    assert_eq!(read_bytes_encoding(&good[..20]), None);
    assert_eq!(read_bytes_encoding(&good[..40]), None);
    let mut long = good.clone();
    long.extend_from_slice(&[0u8; 32]);
    assert_eq!(read_bytes_encoding(&long), None);
    let mut dirty = good.clone();
    dirty[63] = 1;
    assert_eq!(read_bytes_encoding(&dirty), None);
    let mut huge = good.clone();
    huge[..32].copy_from_slice(&[0xff; 32]);
    assert_eq!(read_bytes_encoding(&huge), None);
    let mut near_max = good.clone();
    near_max[..32].copy_from_slice(&word(u64::MAX as u128 - 8));
    assert_eq!(read_bytes_encoding(&near_max), None);
}

#[test]
fn round_data_decodes_from_its_five_words() {
    let payload = sample_round_payload();
    assert_eq!(round_data(&payload), Ok(sample_round()));
    assert_eq!(decode(Schema::Round, &payload), Ok(Decoded::Round(sample_round())));
    assert_eq!(encode_round_data(&sample_round()), payload);
}

#[test]
fn round_data_keeps_a_negative_answer() {
    let mut payload = sample_round_payload();
    for byte in payload[32..64].iter_mut() {
        *byte = 0xff;
    }
    let round = round_data(&payload).unwrap();
    assert!(round.answer.is_negative());
    assert_eq!(round.answer.bytes, [0xff; 32]);
    assert_eq!(encode_round_data(&round), payload);
}

#[test]
fn truncated_round_data_is_refused() {
    let payload = sample_round_payload();
    assert_eq!(round_data(&payload[..128]), Err(FeedError::Decode));
    assert_eq!(round_data(&payload[..159]), Err(FeedError::Decode));
    assert_eq!(round_data(&[]), Err(FeedError::Decode));
}

#[test]
fn round_data_of_six_words_is_refused() {
    let mut payload = sample_round_payload();
    payload.extend(word(0));
    assert_eq!(round_data(&payload), Err(FeedError::Decode));
}

#[test]
fn round_data_with_a_wide_round_id_is_refused() {
    let mut payload = sample_round_payload();
    payload[0] = 1;
    assert_eq!(round_data(&payload), Err(FeedError::Decode));
    let mut other = sample_round_payload();
    other[128 + 21] = 1;
    assert_eq!(round_data(&other), Err(FeedError::Decode));
}

#[test]
fn latest_answer_is_one_word() {
    assert_eq!(latest_answer(&word(42)), Ok(Uint256::from_u128(42)));
    assert_eq!(latest_answer(&word(42)[..31]), Err(FeedError::Decode));
    let mut two = word(42);
    two.extend(word(0));
    assert_eq!(latest_answer(&two), Err(FeedError::Decode));
    assert_eq!(latest_answer(&[]), Err(FeedError::Decode));
}

#[test]
fn phase_id_is_a_sixteen_bit_word() {
    assert_eq!(phase_id(&word(5)), Ok(5));
    assert_eq!(phase_id(&word(70_000)), Err(FeedError::Decode));
    assert_eq!(phase_id(&word(5)[..16]), Err(FeedError::Decode));
}

#[test]
fn description_decodes_a_text() {
    let mut payload = word(32);
    payload.extend(word(9));
    payload.extend_from_slice(b"ETH / USD");
    payload.extend_from_slice(&[0u8; 23]);
    assert_eq!(description(&payload), Ok(String::from("ETH / USD")));
    assert_eq!(decode(Schema::Text, &payload), Ok(Decoded::Text(String::from("ETH / USD"))));
}

#[test]
fn description_refuses_what_is_no_text() {
    let mut payload = word(32);
    payload.extend(word(2));
    payload.extend_from_slice(&[0xc3, 0x28]);
    payload.extend_from_slice(&[0u8; 30]);
    assert_eq!(description(&payload), Err(FeedError::Decode));

    let mut shifted = word(64);
    shifted.extend(word(0));
    assert_eq!(description(&shifted), Err(FeedError::Decode));
    assert_eq!(description(&word(32)), Err(FeedError::Decode));
    assert_eq!(description(&[]), Err(FeedError::Decode));
}

#[test]
fn address_schema_wants_twelve_zero_bytes() {
    let mut payload = vec![0u8; 12];
    payload.extend_from_slice(&[0xab; 20]);
    assert_eq!(
        decode(Schema::Address, &payload),
        Ok(Decoded::Address(Address { bytes: [0xab; 20] }))
    );
    payload[0] = 1;
    assert_eq!(decode(Schema::Address, &payload), Err(FeedError::Decode));
}

#[test]
fn every_schema_refuses_the_empty_payload() {
    for schema in [Schema::Uint, Schema::Round, Schema::Address, Schema::Phase, Schema::Text] {
        assert_eq!(decode(schema, &[]), Err(FeedError::Decode));
    }
}
