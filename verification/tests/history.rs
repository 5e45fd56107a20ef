use feed_query::history::{
    latest_qualifying, qualifying, recent_round_ids, round_id_offset,
};
use feed_query::types::{Address, PhaseRecord, RoundId, Uint256};

fn record(phase_id: u16, version: u128) -> PhaseRecord {
    PhaseRecord {
        phase_id,
        aggregator_address: Address { bytes: [phase_id as u8; 20] },
        version: Uint256::from_u128(version),
    }
}

#[test]
fn offset_of_500_and_120_is_380() {
    assert_eq!(round_id_offset(500, 120), Some(380));
    assert_eq!(round_id_offset(120, 120), Some(0));
    assert_eq!(round_id_offset(119, 120), None);
}

#[test]
fn last_ten_ids_run_from_491_to_500() {
    let ids = recent_round_ids(
        RoundId { phase: 0, local: 500 },
        RoundId { phase: 0, local: 120 },
        10,
    )
    .unwrap();
    let numbers: Vec<u128> = ids.iter().map(|id| id.to_u128()).collect();
    assert_eq!(numbers, (491..=500).collect::<Vec<u128>>());
}

#[test]
fn recent_ids_stop_at_the_aggregators_first_round() {
    let ids = recent_round_ids(
        RoundId { phase: 0, local: 500 },
        RoundId { phase: 0, local: 3 },
        10,
    )
    .unwrap();
    let numbers: Vec<u128> = ids.iter().map(|id| id.to_u128()).collect();
    assert_eq!(numbers, vec![498, 499, 500]);
}

#[test]
fn recent_ids_keep_the_phase_of_the_proxy() {
    let ids = recent_round_ids(
        RoundId { phase: 4, local: 2 },
        RoundId { phase: 0, local: 2 },
        5,
    )
    .unwrap();
    assert_eq!(ids, vec![RoundId { phase: 4, local: 1 }, RoundId { phase: 4, local: 2 }]);
}

#[test]
fn recent_ids_of_nothing_are_none() {
    let latest = RoundId { phase: 1, local: 9 };
    assert_eq!(recent_round_ids(latest, RoundId { phase: 0, local: 9 }, 0), Some(Vec::new()));
    assert_eq!(recent_round_ids(latest, RoundId { phase: 0, local: 0 }, 4), Some(Vec::new()));
    assert_eq!(recent_round_ids(latest, RoundId { phase: 2, local: 0 }, 4), None);
}

#[test]
fn versions_of_two_and_below_are_left_out() {
    let records = vec![record(1, 1), record(2, 2), record(3, 3), record(4, 0), record(5, 4)];
    assert_eq!(qualifying(&records), vec![record(3, 3), record(5, 4)]);
    assert_eq!(latest_qualifying(&records), Some(record(5, 4)));
}

#[test]
fn a_huge_version_qualifies() {
    let mut huge = record(1, 0);
    huge.version = Uint256 { bytes: [0xff; 32] };
    assert_eq!(qualifying(&vec![huge]), vec![huge]);
}

#[test]
fn no_record_qualifies_among_old_versions() {
    let records = vec![record(1, 2), record(2, 1)];
    assert_eq!(qualifying(&records), Vec::new());
    assert_eq!(latest_qualifying(&records), None);
    assert_eq!(latest_qualifying(&Vec::new()), None);
}
