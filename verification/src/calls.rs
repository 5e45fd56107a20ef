//! The read-only functions of a price feed, and the payload of a call to each:
//! the selector of the function, then its arguments, one word each.

use crate::codec::phase_word;
use crate::multicall::Call;
use crate::schema::Schema;
use crate::selector::{call_payload, encode_call_payload};
use crate::types::{Address, RoundId};
use crate::word::push_word;
use vstd::prelude::*;

verus! {

/// A call to one of the functions of a feed, with its arguments.
#[derive(Clone, Copy, Debug, PartialEq, Eq)]
pub enum FeedCall {
    /// `latestAnswer()`: the latest answer of the feed.
    LatestAnswer,
    /// `getRoundData(uint80)`: the round with the identifier given.
    GetRoundData(RoundId),
    /// `latestRoundData()`: the latest round.
    LatestRoundData,
    /// `description()`: what the feed describes, as a text.
    Description,
    /// `version()`: the version of the aggregator.
    Version,
    /// `phaseId()`: the current phase of a proxy.
    PhaseId,
    /// `phaseAggregators(uint16)`: the aggregator that served a phase.
    PhaseAggregators(u16),
}

impl FeedCall {
    /// The canonical signature of the function called.
    pub open spec fn signature(self) -> Seq<char> {
        match self {
            FeedCall::LatestAnswer => "latestAnswer()"@,
            FeedCall::GetRoundData(_) => "getRoundData(uint80)"@,
            FeedCall::LatestRoundData => "latestRoundData()"@,
            FeedCall::Description => "description()"@,
            FeedCall::Version => "version()"@,
            FeedCall::PhaseId => "phaseId()"@,
            FeedCall::PhaseAggregators(_) => "phaseAggregators(uint16)"@,
        }
    }

    /// The encoded arguments of the call.
    pub open spec fn arguments(self) -> Seq<u8> {
        match self {
            FeedCall::GetRoundData(round_id) => round_id.word(),
            FeedCall::PhaseAggregators(phase) => phase_word(phase),
            _ => Seq::empty(),
        }
    }

    /// The payload of the call.
    pub open spec fn payload(self) -> Seq<u8> {
        call_payload(self.signature(), self.arguments())
    }

    /// The type that the function returns.
    pub open spec fn schema(self) -> Schema {
        match self {
            FeedCall::LatestAnswer => Schema::Uint,
            FeedCall::GetRoundData(_) => Schema::Round,
            FeedCall::LatestRoundData => Schema::Round,
            FeedCall::Description => Schema::Text,
            FeedCall::Version => Schema::Uint,
            FeedCall::PhaseId => Schema::Phase,
            FeedCall::PhaseAggregators(_) => Schema::Address,
        }
    }

    /// The canonical signature of the function called.
    pub fn signature_text(&self) -> (text: &'static str)
        ensures
            text@ == self.signature(),
    {
        match self {
            FeedCall::LatestAnswer => "latestAnswer()",
            FeedCall::GetRoundData(_) => "getRoundData(uint80)",
            FeedCall::LatestRoundData => "latestRoundData()",
            FeedCall::Description => "description()",
            FeedCall::Version => "version()",
            FeedCall::PhaseId => "phaseId()",
            FeedCall::PhaseAggregators(_) => "phaseAggregators(uint16)",
        }
    }

    /// The schema under which the return payload of the call is decoded.
    pub fn expected(&self) -> (schema: Schema)
        ensures
            schema == self.schema(),
    {
        match self {
            FeedCall::LatestAnswer => Schema::Uint,
            FeedCall::GetRoundData(_) => Schema::Round,
            FeedCall::LatestRoundData => Schema::Round,
            FeedCall::Description => Schema::Text,
            FeedCall::Version => Schema::Uint,
            FeedCall::PhaseId => Schema::Phase,
            FeedCall::PhaseAggregators(_) => Schema::Address,
        }
    }

    /// Encodes the call.
    pub fn encode(&self) -> (payload: Vec<u8>)
        ensures
            payload@ == self.payload(),
    {
        let mut arguments: Vec<u8> = Vec::new();
        match self {
            FeedCall::GetRoundData(round_id) => {
                round_id.push_word(&mut arguments);
            },
            FeedCall::PhaseAggregators(phase) => {
                push_word(&mut arguments, *phase as u128);
            },
            _ => {},
        }
        assert(arguments@ =~= self.arguments());
        encode_call_payload(self.signature_text(), arguments.as_slice())
    }

    /// The call as an entry of a batch, addressed to `target`. Every entry
    /// allows failure, so that one reverting call leaves the others standing.
    pub fn entry(&self, target: Address) -> (call: Call)
        ensures
            call@.target == target,
            call@.allow_failure,
            call@.payload == self.payload(),
    {
        Call { target, allow_failure: true, payload: self.encode() }
    }
}

} // verus!
