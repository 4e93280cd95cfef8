//! The decisions of a node that serves elections over plain connections: a
//! follower waits for requests, a candidate gathers votes, a leader sends
//! heartbeats.

use vstd::prelude::*;

use crate::raft_node::{
    has_majority, ids_of, NodeModel, NodeState, RaftNode, MAX_ELECTION_DURATION, MIN_ELECTION_DURATION,
};
use crate::storage::Storage;

verus! {

/// What the service does next.
#[derive(Debug, PartialEq, Eq)]
pub enum ServiceAction {
    /// Wait for a request, at most `timeout_ms` milliseconds.
    AwaitRequest { timeout_ms: u64 },
    /// Ask `peers` for their votes and wait at most `timeout_ms`
    /// milliseconds for the answers.
    RequestVotes { peers: Vec<u64>, timeout_ms: u64 },
    /// Send a heartbeat to each of `peers`.
    SendHeartbeats { peers: Vec<u64> },
    /// The node has just become leader.
    Elected,
}

/// A node served under the id `id`.
pub struct RaftService<T: Storage> {
    pub node: RaftNode<T>,
    pub id: u64,
}

/// Whether `peers` holds each node of `network` other than `id` once.
pub open spec fn lists_peers(peers: Seq<u64>, network: Set<u64>, id: u64) -> bool {
    peers.no_duplicates() && peers.to_set() == network.remove(id)
}

/// The node with a fresh randomized timeout (any value of
/// `MIN_ELECTION_DURATION..MAX_ELECTION_DURATION`).
pub open spec fn with_new_timeout<T>(n: NodeModel<T>, next: NodeModel<T>) -> bool {
    &&& MIN_ELECTION_DURATION <= next.randomized_timeout < MAX_ELECTION_DURATION
    &&& next == (NodeModel { randomized_timeout: next.randomized_timeout, ..n })
}

impl<T: Storage> RaftService<T> {
    pub fn new(id: u64, node: RaftNode<T>) -> (s: Self)
        ensures
            s.id == id,
            s.node@ == node@,
    {
        RaftService { node, id }
    }

    pub fn add_network(&mut self, id: u64)
        ensures
            final(self).id == old(self).id,
            final(self).node@ == (NodeModel {
                network: old(self).node@.network.insert(id),
                ..old(self).node@
            }),
    {
        self.node.add_to_network(id);
    }

    /// The nodes of the network other than this one.
    fn peers(&self) -> (peers: Vec<u64>)
        ensures
            lists_peers(peers@, self.node@.network, self.id),
    {
        let all = ids_of(&self.node.network);
        let mut peers: Vec<u64> = Vec::new();
        let mut i: usize = 0;
        while i < all.len()
            invariant
                i <= all@.len(),
                all@.no_duplicates(),
                all@.to_set() == self.node@.network,
                peers@.no_duplicates(),
                peers@.to_set() == all@.take(i as int).to_set().remove(self.id),
            decreases all@.len() - i,
        {
            let node = all[i];
            proof {
                broadcast use vstd::seq_lib::group_seq_properties;

                assert(all@.take(i as int + 1) =~= all@.take(i as int).push(node));
                assert(!all@.take(i as int).contains(node));
                if peers@.contains(node) {
                    assert(peers@.to_set().contains(node));
                }
            }
            let ghost before = peers@;
            if node != self.id {
                peers.push(node);
                proof {
                    broadcast use vstd::seq_lib::group_seq_properties;

                    assert(peers@.to_set() =~= before.to_set().insert(node));
                }
            }
            proof {
                broadcast use vstd::seq_lib::group_seq_properties;

                assert(peers@.to_set() =~= all@.take(i as int + 1).to_set().remove(self.id));
            }
            i = i + 1;
        }
        proof {
            assert(all@.take(all@.len() as int) =~= all@);
        }
        peers
    }

    /// The next thing to do, by role: a follower waits for a request during
    /// its randomized timeout; a candidate with a majority becomes leader,
    /// and one without asks the other nodes for votes, waiting as long; a
    /// leader sends the other nodes heartbeats.
    pub fn plan(&mut self) -> (a: ServiceAction)
        ensures
            final(self).id == old(self).id,
            old(self).node@.state == NodeState::Follower ==> final(self).node@ == old(self).node@
                && a == (ServiceAction::AwaitRequest {
                timeout_ms: old(self).node@.randomized_timeout as u64,
            }),
            old(self).node@.state == NodeState::Candidate ==> {
                let n = old(self).node@;
                if has_majority(n.vote_state, n.network) {
                    a == ServiceAction::Elected && final(self).node@ == (NodeModel {
                        vote_state: Set::empty(),
                        state: NodeState::Leader,
                        ..n
                    })
                } else {
                    final(self).node@ == n && match a {
                        ServiceAction::RequestVotes { peers, timeout_ms } => timeout_ms
                            == n.randomized_timeout as u64 && lists_peers(peers@, n.network, old(self).id),
                        _ => false,
                    }
                }
            },
            old(self).node@.state == NodeState::Leader ==> final(self).node@ == old(self).node@
                && match a {
                ServiceAction::SendHeartbeats { peers } => lists_peers(
                    peers@,
                    old(self).node@.network,
                    old(self).id,
                ),
                _ => false,
            },
    {
        match self.node.state {
            NodeState::Follower => {
                ServiceAction::AwaitRequest { timeout_ms: self.node.get_timeout() as u64 }
            },
            NodeState::Candidate => {
                if self.node.check_majority() {
                    self.node.become_leader();
                    ServiceAction::Elected
                } else {
                    ServiceAction::RequestVotes {
                        peers: self.peers(),
                        timeout_ms: self.node.get_timeout() as u64,
                    }
                }
            },
            NodeState::Leader => ServiceAction::SendHeartbeats { peers: self.peers() },
        }
    }

    /// A follower heard nothing within its timeout: it starts an election
    /// under a fresh randomized timeout.
    pub fn on_request_timeout(&mut self)
        requires
            old(self).node@.term < u64::MAX,
        ensures
            final(self).id == old(self).id,
            with_new_timeout(
                NodeModel {
                    vote_state: set![old(self).node@.id],
                    term: (old(self).node@.term + 1) as u64,
                    state: NodeState::Candidate,
                    ..old(self).node@
                },
                final(self).node@,
            ),
    {
        self.node.become_candidate();
        self.node.reset_timeout();
    }

    /// The votes were gathered (`timed_out` false) or the wait ran out: with
    /// a majority the node becomes leader; otherwise it moves to the next
    /// term under a fresh randomized timeout.
    pub fn on_votes(&mut self, timed_out: bool)
        requires
            old(self).node@.term < u64::MAX,
        ensures
            final(self).id == old(self).id,
            ({
                let n = old(self).node@;
                if !timed_out && has_majority(n.vote_state, n.network) {
                    final(self).node@ == (NodeModel {
                        vote_state: Set::empty(),
                        state: NodeState::Leader,
                        ..n
                    })
                } else {
                    with_new_timeout(
                        NodeModel { term: (n.term + 1) as u64, ..n },
                        final(self).node@,
                    )
                }
            }),
    {
        if timed_out {
            self.node.increment_term();
            self.node.reset_timeout();
            return;
        }
        if self.node.check_majority() {
            self.node.become_leader();
        } else {
            self.node.increment_term();
            self.node.reset_timeout();
        }
    }
}

} // verus!
