use vstd::prelude::*;

/// Names of the 256-bit name space and XOR distance.
pub mod name;
/// Bit-string prefixes of the name space.
pub mod prefix;
/// Storage levels reported by adults.
pub mod capacity;
/// Choosing the names closest to a target.
pub mod closest;
/// Chunk accounts: who holds each chunk, and replication on failure and churn.
pub mod placement;
/// The elders of a section at one version.
pub mod elders;
/// Our section and the neighbouring sections we know of.
pub mod sections;
/// The signed history of a section's keys.
pub mod section_chain;
/// The members of our section and the choice of elders among them.
pub mod members;
/// The membership state machine: votes, churn, relocation, elder changes and splits.
pub mod chain;
/// Choosing the peers a message is sent to.
pub mod router;
/// Register addresses.
pub mod register;
/// Data replicated among adults, and content names.
pub mod replicated;
/// Changes in the adults of our section.
pub mod events;
/// Dispatch of requests at the elders responsible for data.
pub mod destination;
/// Holders of stored data and copies to the close group.
pub mod data_manager;

verus! {

/// Number of peers that a message for a group of `n` is delivered to: the smallest
/// integer that is at least `n / 3`.
pub fn delivery_group_size(n: usize) -> (r: usize)
    ensures
        r == (n as int + 2) / 3,
{
    n / 3 + if n % 3 == 0 { 0 } else { 1 }
}

} // verus!
