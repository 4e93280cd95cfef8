//! The start-up decisions of the key-value service.

use vstd::prelude::*;

verus! {

/// The command line: this node's id and the ids of the network's nodes.
#[derive(Clone, Debug, PartialEq, Eq)]
pub struct Args {
    pub network: Vec<u64>,
    pub id: u64,
}

/// For each node of `network`, in order, its id and whether it is this node
/// (`self_id`), which is not connected to as a peer.
pub fn peer_plan(self_id: u64, network: &Vec<u64>) -> (plan: Vec<(u64, bool)>)
    ensures
        plan@.len() == network@.len(),
        forall|i: int|
            0 <= i < network@.len() ==> #[trigger] plan@[i] == (network@[i], network@[i]
                == self_id),
{
    let mut plan: Vec<(u64, bool)> = Vec::new();
    let mut i: usize = 0;
    while i < network.len()
        invariant
            i <= network@.len(),
            plan@.len() == i,
            forall|j: int|
                0 <= j < i ==> #[trigger] plan@[j] == (network@[j], network@[j] == self_id),
        decreases network@.len() - i,
    {
        let id = network[i];
        plan.push((id, id == self_id));
        i = i + 1;
    }
    plan
}

} // verus!
