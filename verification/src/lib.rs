//! A multi-room peer-to-peer chat core: room sessions keyed by their
//! percent-encoded rendezvous URL, each with a deduplicated member roster and
//! an append-only message log, fed by peer events and inbound packets from a
//! transport and fanning locally authored messages out to connected peers.

use vstd::prelude::*;

pub mod laws;
pub mod registry;
pub mod room;
pub mod trusted;

verus! {

/// The reserved greeting payload, sent once to each newly connected peer as a
/// liveness probe; it is never appended to any message log.
pub open spec fn sentinel() -> Seq<char> {
    "hello friend!"@
}

/// Exec twin of [`sentinel`]: the greeting text as a `String`.
pub fn sentinel_text() -> (r: String)
    ensures
        r@ == sentinel(),
{
    "hello friend!".to_owned()
}

} // verus!
