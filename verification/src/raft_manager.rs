//! A node together with what it last reported: the manager hands out, in a
//! `Ready`, the state changes and messages that the node has produced.

use vstd::prelude::*;

use crate::error::RaftResult;
use crate::raft_node::{
    fresh_node, hard_state_of, heartbeat_ticked, soft_state_of, NodeModel, NodeState, RaftConfig,
    RaftNode, SoftState, MAX_ELECTION_DURATION, MIN_ELECTION_DURATION,
};
use crate::raft_rpc::{copy_entries, Entry, HardState, MessageModel, RaftMessage};
use crate::storage::Storage;

verus! {

/// A pending read request (none are tracked yet).
#[derive(Debug, PartialEq, Eq)]
pub struct ReadState {}

/// What a node has to act on: changed soft and hard state, its log, and the
/// messages it wants sent.
#[derive(Debug, PartialEq, Eq)]
pub struct Ready {
    pub number: u64,
    pub soft_state: Option<SoftState>,
    pub hard_state: Option<HardState>,
    pub read_states: Vec<ReadState>,
    pub entries: Vec<Entry>,
    pub must_sync: bool,
    pub commit_index: Option<u64>,
    pub committed_entries: Vec<Entry>,
    pub messages: Vec<RaftMessage>,
}

/// The mathematical value of a `RaftManager`.
pub struct ManagerModel<T> {
    pub raft: NodeModel<T>,
    pub prev_ss: SoftState,
    pub prev_hs: HardState,
    pub max_number: u64,
    pub commit_since_index: u64,
}

impl<T> ManagerModel<T> {
    /// The node's soft state, if it differs from the recorded one.
    pub open spec fn changed_soft_state(self) -> Option<SoftState> {
        if soft_state_of(self.raft) != self.prev_ss {
            Some(soft_state_of(self.raft))
        } else {
            None
        }
    }

    /// The node's hard state, if it differs from the recorded one.
    pub open spec fn changed_hard_state(self) -> Option<HardState> {
        if hard_state_of(self.raft) != self.prev_hs {
            Some(hard_state_of(self.raft))
        } else {
            None
        }
    }

    /// Whether the node's vote or term differs from the recorded hard state,
    /// so that the change must reach stable storage first.
    pub open spec fn must_sync(self) -> bool {
        hard_state_of(self.raft).vote != self.prev_hs.vote || hard_state_of(self.raft).term
            != self.prev_hs.term
    }

    /// The manager once it has handed out a `Ready`: the node's queue is
    /// empty and one more `Ready` has been numbered.
    pub open spec fn drained(self) -> ManagerModel<T> {
        ManagerModel {
            raft: NodeModel { msgs: Seq::empty(), ..self.raft },
            max_number: (self.max_number + 1) as u64,
            ..self
        }
    }

    /// Whether the node has something to report: queued messages, or a soft
    /// or hard state other than the one last recorded.
    pub open spec fn has_ready(self) -> bool {
        self.raft.msgs.len() > 0 || soft_state_of(self.raft) != self.prev_ss || hard_state_of(
            self.raft,
        ) != self.prev_hs
    }
}

/// A Raft node with the soft and hard state it had when it was built.
pub struct RaftManager<T: Storage> {
    pub raft: RaftNode<T>,
    prev_ss: SoftState,
    prev_hs: HardState,
    max_number: u64,
    commit_since_index: u64,
}

impl<T: Storage> View for RaftManager<T> {
    type V = ManagerModel<T>;

    closed spec fn view(&self) -> ManagerModel<T> {
        ManagerModel {
            raft: self.raft@,
            prev_ss: self.prev_ss,
            prev_hs: self.prev_hs,
            max_number: self.max_number,
            commit_since_index: self.commit_since_index,
        }
    }
}

impl<T: Storage> RaftManager<T> {
    /// A manager of a fresh node configured by `config`, whose randomized
    /// election timeout is drawn from
    /// `MIN_ELECTION_DURATION..MAX_ELECTION_DURATION`.
    pub fn new(config: RaftConfig, store: T) -> (rm: Self)
        requires
            config.id != 0,
        ensures
            MIN_ELECTION_DURATION <= rm@.raft.randomized_timeout < MAX_ELECTION_DURATION,
            rm@ == fresh_manager(config, store, rm@.raft.randomized_timeout),
    {
        let r = RaftNode::new(&config, store);
        Self::with_node(config, r)
    }

    /// A manager of `node`, recording its present soft and hard state.
    fn with_node(config: RaftConfig, node: RaftNode<T>) -> (rm: Self)
        ensures
            rm@ == (ManagerModel {
                raft: node@,
                prev_ss: soft_state_of(node@),
                prev_hs: hard_state_of(node@),
                max_number: 0,
                commit_since_index: config.last_applied,
            }),
    {
        let mut rm = RaftManager {
            raft: node,
            prev_hs: HardState::new(),
            prev_ss: SoftState::default(),
            max_number: 0,
            commit_since_index: config.last_applied,
        };
        rm.prev_hs = rm.raft.get_hardstate();
        rm.prev_ss = rm.raft.get_softstate();
        rm
    }

    /// A manager of a fresh node configured by `config`, with the
    /// randomized election timeout `timeout`.
    pub fn with_timeout(config: RaftConfig, store: T, timeout: usize) -> (rm: Self)
        requires
            config.id != 0,
        ensures
            rm@ == fresh_manager(config, store, timeout),
    {
        let r = RaftNode::with_timeout(&config, store, timeout);
        Self::with_node(config, r)
    }

    pub fn tick(&mut self) -> (ready: bool)
        requires
            old(self)@.raft.election_elapsed < usize::MAX,
            old(self)@.raft.heartbeat_elapsed < usize::MAX,
        ensures
            final(self)@ == (ManagerModel { raft: final(self)@.raft, ..old(self)@ }),
            old(self)@.raft.state != NodeState::Leader ==> (final(self)@.raft, ready) == old(
                self,
            )@.raft.election_tick(),
            old(self)@.raft.state == NodeState::Leader ==> heartbeat_ticked(
                old(self)@.raft,
                final(self)@.raft,
                ready,
            ),
    {
        self.raft.tick()
    }

    pub fn step(&mut self, m: RaftMessage) -> (r: RaftResult<()>)
        ensures
            r is Ok,
            final(self)@ == (ManagerModel { raft: final(self)@.raft, ..old(self)@ }),
            old(self)@.raft.steps_to(m@, final(self)@.raft),
    {
        self.raft.step(m)
    }

    /// Hands out what the node has to act on, numbered, and empties the
    /// node's message queue.
    pub fn ready(&mut self) -> (rd: Ready)
        requires
            old(self)@.max_number < u64::MAX,
        ensures
            final(self)@ == old(self)@.drained(),
            rd.number == old(self)@.max_number + 1,
            rd.soft_state == old(self)@.changed_soft_state(),
            rd.hard_state == old(self)@.changed_hard_state(),
            rd.must_sync == old(self)@.must_sync(),
            rd.entries@ == old(self)@.raft.log,
            rd.messages@.map_values(|m: RaftMessage| m@) == old(self)@.raft.msgs,
            rd.read_states@.len() == 0,
            rd.commit_index is None,
            rd.committed_entries@.len() == 0,
    {
        self.max_number = self.max_number + 1;
        let mut rd = Ready {
            number: self.max_number,
            soft_state: None,
            hard_state: None,
            read_states: Vec::new(),
            entries: Vec::new(),
            must_sync: false,
            commit_index: None,
            committed_entries: Vec::new(),
            messages: Vec::new(),
        };
        let ss = self.raft.get_softstate();
        if ss != self.prev_ss {
            rd.soft_state = Some(ss);
        }
        let hs = self.raft.get_hardstate();
        if hs != self.prev_hs {
            if hs.vote != self.prev_hs.vote || hs.term != self.prev_hs.term {
                // A new term or a new vote must reach stable storage first.
                rd.must_sync = true;
            }
            rd.hard_state = Some(hs);
        }
        rd.entries = copy_entries(&self.raft.log);
        if self.raft.msgs.len() > 0 {
            let mut taken: Vec<RaftMessage> = Vec::new();
            std::mem::swap(&mut taken, &mut self.raft.msgs);
            rd.messages = taken;
        }
        proof {
            assert(self@.raft.msgs =~= Seq::<MessageModel>::empty());
        }
        rd
    }

    /// The managed node.
    pub fn raft_node(&self) -> (n: &RaftNode<T>)
        ensures
            n@ == self@.raft,
    {
        &self.raft
    }

    /// How many `Ready`s have been handed out.
    pub fn max_number(&self) -> (n: u64)
        ensures
            n == self@.max_number,
    {
        self.max_number
    }

    /// Whether the node has something to report, as `has_ready` says.
    pub fn has_ready(&self) -> (b: bool)
        ensures
            b == self@.has_ready(),
    {
        if self.raft.msgs.len() > 0 {
            return true;
        }
        if self.raft.get_softstate() != self.prev_ss {
            return true;
        }
        if self.raft.get_hardstate() != self.prev_hs {
            return true;
        }
        false
    }

    pub fn become_leader(&mut self)
        ensures
            final(self)@ == (ManagerModel {
                raft: NodeModel {
                    vote_state: Set::empty(),
                    state: NodeState::Leader,
                    ..old(self)@.raft
                },
                ..old(self)@
            }),
    {
        self.raft.become_leader();
    }

    pub fn add_network(&mut self, id: u64)
        ensures
            final(self)@ == (ManagerModel {
                raft: NodeModel { network: old(self)@.raft.network.insert(id), ..old(self)@.raft },
                ..old(self)@
            }),
    {
        self.raft.add_to_network(id);
    }
}

/// The model of a manager of a fresh node.
pub open spec fn fresh_manager<T>(config: RaftConfig, store: T, timeout: usize) -> ManagerModel<T> {
    let n = fresh_node(config, store, timeout);
    ManagerModel {
        raft: n,
        prev_ss: soft_state_of(n),
        prev_hs: hard_state_of(n),
        max_number: 0,
        commit_since_index: config.last_applied,
    }
}

/// `has_ready` announces exactly a `Ready` with something in it: a changed
/// soft state, a changed hard state or a message.
pub proof fn law_has_ready_iff_ready_is_not_empty<T>(m: ManagerModel<T>)
    ensures
        m.has_ready() <==> (m.changed_soft_state() is Some || m.changed_hard_state() is Some
            || m.raft.msgs.len() > 0),
        m.must_sync() ==> m.changed_hard_state() is Some,
{
}

/// Handing out a `Ready` empties the queue and keeps the recorded soft and
/// hard state, so the node still has something to report exactly when its
/// state differs from the record.
pub proof fn law_ready_clears_queue<T>(m: ManagerModel<T>)
    ensures
        m.drained().raft.msgs.len() == 0,
        m.drained().prev_ss == m.prev_ss,
        m.drained().prev_hs == m.prev_hs,
        m.drained().has_ready() == (soft_state_of(m.raft) != m.prev_ss || hard_state_of(m.raft)
            != m.prev_hs),
{
}

} // verus!
