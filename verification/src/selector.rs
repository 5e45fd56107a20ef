//! Function selectors: the four bytes by which a contract tells its functions
//! apart.

use vstd::prelude::*;

verus! {

/// Number of bytes in a function selector.
pub const SELECTOR_BYTES: usize = 4;

/// The Keccak-256 digest of `data`.
pub uninterp spec fn keccak256_digest(data: Seq<u8>) -> Seq<u8>;

/// Calls `alloy_primitives::keccak256` and hands back the 32 bytes of the
/// digest. Nothing is proved of the hash function: the contract only gives its
/// result a name.
#[verifier::external_body]
fn keccak256(data: &[u8]) -> (digest: [u8; 32])
    ensures
        digest@ == keccak256_digest(data@),
{
    alloy_primitives::keccak256(data).0
}

/// The selector of the function with the canonical signature `signature`:
/// the first four bytes of the Keccak-256 digest of its UTF-8 text.
pub open spec fn selector_of(signature: Seq<char>) -> Seq<u8> {
    keccak256_digest(vstd::utf8::encode_utf8(signature)).subrange(0, SELECTOR_BYTES as int)
}

/// Computes the selector of a canonical function signature, such as
/// `latestAnswer()`.
pub fn selector(signature: &str) -> (bytes: [u8; 4])
    ensures
        bytes@ == selector_of(signature@),
{
    let digest = keccak256(signature.as_bytes());
    let bytes: [u8; 4] = [digest[0], digest[1], digest[2], digest[3]];
    assert(bytes@ =~= selector_of(signature@));
    bytes
}

/// The payload of a call: the selector of the function, then its encoded
/// arguments.
pub open spec fn call_payload(signature: Seq<char>, arguments: Seq<u8>) -> Seq<u8> {
    selector_of(signature) + arguments
}

/// Encodes a call to the function with the canonical signature `signature`,
/// whose arguments are already encoded as `arguments`.
pub fn encode_call_payload(signature: &str, arguments: &[u8]) -> (payload: Vec<u8>)
    ensures
        payload@ == call_payload(signature@, arguments@),
{
    let mut payload: Vec<u8> = Vec::new();
    let head = selector(signature);
    crate::word::push_bytes(&mut payload, head.as_slice());
    crate::word::push_bytes(&mut payload, arguments);
    assert(payload@ =~= call_payload(signature@, arguments@));
    payload
}

} // verus!
