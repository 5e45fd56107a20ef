//! Batched queries against on-chain price oracles: call encoding, strict
//! decoding of return payloads, correlation of batch results with the
//! caller's contexts, and reconstruction of a feed's round history across
//! aggregator generations.
//!
//! The crate performs no I/O. A caller sends the payloads built here over its
//! own transport and hands the returned bytes back.
//!
//! - [`word`], [`types`], [`codec`], [`array`]: the binary layout, from single
//!   words up to arrays of elements without a fixed size.
//! - [`selector`], [`calls`]: the functions of a feed and the payloads of
//!   calls to them.
//! - [`schema`]: the return types, with one strict decoder each.
//! - [`multicall`], [`batch`], [`correlate`]: the batched call, its envelope,
//!   and the pairing of results with contexts.
//! - [`feeds`]: the queries of a feed, single and batched.
//! - [`traversal`], [`history`], [`assembly`]: the walk through the
//!   generations of a feed and the reconstruction of its recent rounds.
//! - [`config`], [`display`], [`error`]: endpoints and addresses, answers as
//!   text, and failures.

pub mod array;
pub mod assembly;
pub mod batch;
pub mod calls;
pub mod codec;
pub mod config;
pub mod correlate;
pub mod display;
pub mod error;
pub mod feeds;
pub mod history;
pub mod multicall;
pub mod schema;
pub mod selector;
pub mod traversal;
pub mod types;
pub mod word;
