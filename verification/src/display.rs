//! Answers as text: a raw answer scaled by the decimal count of its feed.

use crate::types::{OracleDescriptor, Uint256};
use vstd::prelude::*;

verus! {

/// The largest decimal count that an answer can be scaled by.
pub const MAX_DECIMALS: u8 = 77;

/// The text of `amount`, read as a big-endian number, with the decimal point
/// set `decimals` places from the right.
pub uninterp spec fn units_text(amount: Seq<u8>, decimals: u8) -> Seq<char>;

/// Calls `alloy_primitives::utils::format_units` on the number and the
/// decimal count. As its source shows, the call fails exactly on a count
/// above 77; of the text it returns, the contract only gives it a name.
#[verifier::external_body]
fn format_units(amount: &Uint256, decimals: u8) -> (text: Option<String>)
    ensures
        text is Some <==> decimals <= MAX_DECIMALS,
        text matches Some(t) ==> t@ == units_text(amount.bytes@, decimals),
{
    let number = alloy_primitives::U256::from_be_bytes(amount.bytes);
    alloy_primitives::utils::format_units(number, decimals).ok()
}

/// The answer of a feed as text, scaled by the decimal count that the
/// registry gives for the feed. There is no text exactly when that count is
/// above 77.
pub fn scaled_answer(answer: &Uint256, oracle: &OracleDescriptor) -> (text: Option<String>)
    ensures
        match text {
            Some(t) => oracle.decimals <= MAX_DECIMALS && t@ == units_text(
                answer.bytes@,
                oracle.decimals,
            ),
            None => oracle.decimals > MAX_DECIMALS,
        },
{
    if oracle.decimals > MAX_DECIMALS {
        None
    } else {
        format_units(answer, oracle.decimals)
    }
}

} // verus!
