//! From the generations of a feed to the round identifiers of its recent
//! history: which aggregators can be built on, how far proxy identifiers and
//! aggregator identifiers lie apart, and which identifiers to ask the proxy
//! for.

use crate::types::{PhaseRecord, RoundId, ROUND_ID_LIMIT};
use vstd::prelude::*;

verus! {

/// The highest aggregator version whose round identifiers are laid out in a
/// way that this library does not read.
pub const LAST_UNSUPPORTED_VERSION: u128 = 2;

/// Whether the aggregator of a record reports a version above 2.
pub open spec fn qualifies(record: PhaseRecord) -> bool {
    record.version.value() > LAST_UNSUPPORTED_VERSION
}

/// The records whose aggregator reports a version above 2, in order.
pub open spec fn qualifying_of(records: Seq<PhaseRecord>) -> Seq<PhaseRecord>
    decreases records.len(),
{
    if records.len() == 0 {
        Seq::empty()
    } else if qualifies(records.last()) {
        qualifying_of(records.drop_last()).push(records.last())
    } else {
        qualifying_of(records.drop_last())
    }
}

/// The records whose aggregator reports a version above 2, in the order of
/// `records`. An aggregator of version 2 or below is left out, whatever else
/// is known of it.
pub fn qualifying(records: &Vec<PhaseRecord>) -> (kept: Vec<PhaseRecord>)
    ensures
        kept@ == qualifying_of(records@),
{
    let mut kept: Vec<PhaseRecord> = Vec::new();
    let mut i: usize = 0;
    assert(records@.take(0) =~= Seq::<PhaseRecord>::empty());
    while i < records.len()
        invariant
            i <= records.len(),
            kept@ == qualifying_of(records@.take(i as int)),
        decreases records.len() - i,
    {
        proof {
            assert(records@.take(i + 1).drop_last() =~= records@.take(i as int));
            assert(records@.take(i + 1).last() == records@[i as int]);
        }
        if records[i].version.exceeds(LAST_UNSUPPORTED_VERSION) {
            kept.push(records[i]);
        }
        i = i + 1;
    }
    assert(records@.take(i as int) =~= records@);
    kept
}

/// A record is among the qualifying ones exactly when it is among the records
/// and its version is above 2.
pub proof fn lemma_qualifying_members(records: Seq<PhaseRecord>, record: PhaseRecord)
    ensures
        qualifying_of(records).contains(record) <==> records.contains(record) && qualifies(record),
    decreases records.len(),
{
    if records.len() == 0 {
    } else {
        let init = records.drop_last();
        let last = records.last();
        lemma_qualifying_members(init, record);
        if records.contains(record) {
            let i = choose|i: int| 0 <= i < records.len() && records[i] == record;
            if i < init.len() {
                assert(init[i] == record);
            }
        }
        if init.contains(record) {
            let i = choose|i: int| 0 <= i < init.len() && init[i] == record;
            assert(records[i] == record);
        }
        assert(records[records.len() - 1] == last);
        if qualifies(last) {
            let kept = qualifying_of(init);
            if kept.push(last).contains(record) {
                let i = choose|i: int| 0 <= i < kept.push(last).len() && kept.push(last)[i] == record;
                if i < kept.len() {
                    assert(kept[i] == record);
                }
            }
            if kept.contains(record) {
                let i = choose|i: int| 0 <= i < kept.len() && kept[i] == record;
                assert(kept.push(last)[i] == record);
            }
            assert(kept.push(last)[kept.len() as int] == last);
        }
    }
}

/// The last of the records whose aggregator reports a version above 2: the
/// most recent generation that the history can be built on.
pub fn latest_qualifying(records: &Vec<PhaseRecord>) -> (latest: Option<PhaseRecord>)
    ensures
        match latest {
            Some(record) => qualifying_of(records@).len() > 0 && record == qualifying_of(
                records@,
            ).last(),
            None => qualifying_of(records@).len() == 0,
        },
{
    let kept = qualifying(records);
    if kept.len() == 0 {
        None
    } else {
        Some(kept[kept.len() - 1])
    }
}

/// The distance between a proxy's round identifier and the round number of
/// the aggregator behind it: `proxy_round_id - aggregator_round_id`. There is
/// none when the aggregator's number is the greater.
pub fn round_id_offset(proxy_round_id: u128, aggregator_round_id: u128) -> (offset: Option<u128>)
    ensures
        match offset {
            Some(o) => o == proxy_round_id - aggregator_round_id,
            None => aggregator_round_id > proxy_round_id,
        },
{
    if aggregator_round_id > proxy_round_id {
        None
    } else {
        Some(proxy_round_id - aggregator_round_id)
    }
}

/// How many rounds a request for the last `count` rounds yields, when the
/// aggregator has `aggregator_latest` rounds: no more than it has.
pub open spec fn recent_count(aggregator_latest: nat, count: nat) -> nat {
    if count <= aggregator_latest {
        count
    } else {
        aggregator_latest
    }
}

/// The composite numbers of the last `count` rounds of the current
/// aggregator, in rising order and ending with the proxy's latest.
pub open spec fn recent_ids(proxy_latest: nat, aggregator_latest: nat, count: nat) -> Seq<nat> {
    Seq::new(
        recent_count(aggregator_latest, count),
        |i: int| (proxy_latest - recent_count(aggregator_latest, count) + 1 + i) as nat,
    )
}

/// The composite numbers of the identifiers, in order.
pub open spec fn composites(ids: Seq<RoundId>) -> Seq<nat> {
    Seq::new(ids.len(), |i: int| ids[i].composite())
}

/// The identifiers of the last `count` rounds of the current aggregator, in
/// the proxy's numbering.
pub open spec fn recent_run(proxy_latest: RoundId, aggregator_latest: RoundId, count: nat) -> Seq<
    RoundId,
> {
    Seq::new(
        recent_count(aggregator_latest.composite(), count),
        |i: int|
            RoundId::of_composite(
                (proxy_latest.composite() - recent_count(aggregator_latest.composite(), count) + 1
                    + i) as nat,
            ),
    )
}

/// The run of recent identifiers has the composite numbers of `recent_ids`:
/// consecutive, rising, and ending with the proxy's latest.
pub proof fn lemma_recent_run_composites(
    proxy_latest: RoundId,
    aggregator_latest: RoundId,
    count: nat,
)
    requires
        aggregator_latest.composite() <= proxy_latest.composite(),
    ensures
        composites(recent_run(proxy_latest, aggregator_latest, count)) == recent_ids(
            proxy_latest.composite(),
            aggregator_latest.composite(),
            count,
        ),
{
    let run = recent_run(proxy_latest, aggregator_latest, count);
    let numbers = recent_ids(proxy_latest.composite(), aggregator_latest.composite(), count);
    assert forall|i: int| 0 <= i < run.len() implies run[i].composite() == numbers[i] by {
        let n = numbers[i];
        assert(n <= proxy_latest.composite());
        assert(n < 0x1_0000_0000_0000_0000_0000);
        assert(n / 0x1_0000_0000_0000_0000 < 0x1_0000);
        assert(n == (n / 0x1_0000_0000_0000_0000) * 0x1_0000_0000_0000_0000 + n
            % 0x1_0000_0000_0000_0000);
    }
    assert(composites(run) =~= numbers);
}

/// The identifiers, in the proxy's numbering, of the last `count` rounds of
/// the current aggregator: a run of consecutive identifiers in rising order
/// that ends with `proxy_latest`. It is as long as `count`, but no longer
/// than the aggregator's own number of rounds, `aggregator_latest`. There is
/// no run when the aggregator's number is greater than the proxy's, for then
/// the two have no offset.
pub fn recent_round_ids(proxy_latest: RoundId, aggregator_latest: RoundId, count: usize) -> (ids:
    Option<Vec<RoundId>>)
    ensures
        match ids {
            Some(run) => aggregator_latest.composite() <= proxy_latest.composite() && run@
                == recent_run(proxy_latest, aggregator_latest, count as nat),
            None => aggregator_latest.composite() > proxy_latest.composite(),
        },
{
    let last: u128 = proxy_latest.to_u128();
    let rounds: u128 = aggregator_latest.to_u128();
    if round_id_offset(last, rounds).is_none() {
        return None;
    }
    let length: usize = if (count as u128) <= rounds {
        count
    } else {
        rounds as usize
    };
    let first: u128 = last - (length as u128) + 1;
    let mut run: Vec<RoundId> = Vec::new();
    let mut i: usize = 0;
    while i < length
        invariant
            i <= length,
            length == recent_count(rounds as nat, count as nat),
            length <= rounds <= last < ROUND_ID_LIMIT,
            first == last - length + 1,
            run@.len() == i,
            forall|j: int|
                0 <= j < i ==> (#[trigger] run@[j]) == RoundId::of_composite((first + j) as nat),
        decreases length - i,
    {
        match RoundId::from_u128(first + i as u128) {
            Some(id) => {
                run.push(id);
            },
            None => {
                assert(false);
            },
        }
        i = i + 1;
    }
    assert(run@ =~= recent_run(proxy_latest, aggregator_latest, count as nat));
    Some(run)
}

} // verus!
