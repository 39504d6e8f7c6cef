//! Core logic of a durable message-to-file pipeline.
//!
//! Producers hand encoded records to a bounded channel; a file sink bundles
//! them into time- and size-bounded, length-framed files and promotes each
//! finished file to a target directory for an uploader.  A packet verifier
//! consumes packet reports, deduplicates them, charges data credits against
//! per-payer balances, classifies each report as valid or invalid, and keeps
//! an edge-triggered view of which organizations are enabled.
//!
//! Everything here is deterministic logic over plain values: timestamps come
//! in as milliseconds, file contents are modelled as the sequence of framed
//! payloads, and the durable stores are modelled as maps.  The asynchronous
//! shell that owns sockets, the filesystem and the clock drives these types
//! and performs the actions they decide on.

use vstd::prelude::*;

pub mod burner;
pub mod channel;
pub mod codec;
pub mod kv;
pub mod org;
pub mod packets;
pub mod sign;
pub mod sink;

verus! {

} // verus!
