//! The Raft state machine of one node: its terms, votes, timers and the
//! messages it emits.

use std::collections::{HashMap, HashSet};
use vstd::prelude::*;
use vstd::std_specs::iter::IteratorSpec;

use crate::error::RaftResult;
use crate::raft_rpc::{copy_entries, Entry, HardState, MessageModel, MessageType, RaftMessage};
use crate::storage::Storage;

verus! {

broadcast use vstd::std_specs::hash::group_hash_axioms;

/// Shortest randomized election timeout, in ticks.
pub const MIN_ELECTION_DURATION: usize = 150;

/// Bound (excluded) of the randomized election timeout, in ticks.
pub const MAX_ELECTION_DURATION: usize = 300;

/// The id that names no node.
pub const INVALID_ID: u64 = 0;

/// The role a node plays.
#[derive(Clone, Copy, Debug, PartialEq, Eq, Structural)]
pub enum NodeState {
    Follower,
    Candidate,
    Leader,
}

impl Default for NodeState {
    fn default() -> (s: NodeState)
        ensures
            s == NodeState::Follower,
    {
        NodeState::Follower
    }
}

/// How a node is configured.
#[derive(Debug)]
pub struct RaftConfig {
    pub id: u64,
    pub election_tick: usize,
    pub heartbeat_tick: usize,
    pub last_applied: u64,
}

impl Default for RaftConfig {
    fn default() -> (c: RaftConfig)
        ensures
            c.id == 0,
            c.election_tick == 0,
            c.heartbeat_tick == 0,
            c.last_applied == 0,
    {
        RaftConfig { id: 0, election_tick: 0, heartbeat_tick: 0, last_applied: 0 }
    }
}

/// The part of a node's state that need not be persisted: who leads, and
/// the role of the node.
#[derive(Clone, Copy, Debug, PartialEq, Eq, Structural)]
pub struct SoftState {
    pub leader_id: u64,
    pub raft_state: NodeState,
}

impl Default for SoftState {
    fn default() -> (s: SoftState)
        ensures
            s == (SoftState { leader_id: 0, raft_state: NodeState::Follower }),
    {
        SoftState { leader_id: 0, raft_state: NodeState::Follower }
    }
}

/// Calls `rand::random_range` on `low..high`. rand's `Rng::random_range`
/// asserts that the range is not empty and samples one of its values, so the
/// result lies in `low..high`; which value comes out is left open.
#[verifier::external_body]
pub(crate) fn random_in(low: usize, high: usize) -> (r: usize)
    requires
        low < high,
    ensures
        low <= r < high,
{
    rand::random_range(low..high)
}

/// The members of a set of node ids, each once, in the order the set hands
/// them out.
pub fn ids_of(s: &HashSet<u64>) -> (v: Vec<u64>)
    ensures
        v@.to_set() == s@,
        v@.no_duplicates(),
        v@.len() == s@.len(),
{
    let mut v: Vec<u64> = Vec::new();
    let ghost keys = vstd::std_specs::hash::spec_hash_keys_iter(s).remaining();
    proof {
        vstd::std_specs::hash::axiom_spec_hash_keys_iter(s);
    }
    for x in it: s.iter()
        invariant
            it.seq() == keys,
            v@ == keys.unref().take(it.index() as int),
    {
        v.push(*x);
        proof {
            assert(v@ =~= keys.unref().take(it.index() as int + 1));
        }
    }
    proof {
        assert(v@ =~= keys.unref());
    }
    v
}


/// The mathematical value of a node.
pub struct NodeModel<T> {
    pub id: u64,
    pub term: u64,
    pub voted_for: Option<u64>,
    pub leader_id: u64,
    pub log: Seq<Entry>,
    pub commit_index: u64,
    pub last_applied: u64,
    pub heartbeat_timeout: usize,
    pub election_timeout: usize,
    pub randomized_timeout: usize,
    pub election_elapsed: usize,
    pub heartbeat_elapsed: usize,
    pub next_index: Map<u64, u64>,
    pub match_index: Map<u64, u64>,
    pub state: NodeState,
    pub vote_state: Set<u64>,
    pub network: Set<u64>,
    pub store: T,
    pub msgs: Seq<MessageModel>,
}

/// A message of type `mtype` from `from` (or from no one) to `to`, with every
/// other field empty.
pub open spec fn blank_message(mtype: MessageType, from: Option<u64>, to: u64) -> MessageModel {
    MessageModel {
        msg_type: mtype,
        log_term: 0,
        index: 0,
        entries: Seq::empty(),
        from: match from {
            Some(t) => t,
            None => 0,
        },
        to,
        commit_index: None,
        commit_term: None,
        reject: false,
    }
}

/// Whether the type belongs to an election.
pub open spec fn is_vote_type(t: MessageType) -> bool {
    t == MessageType::RequestVote || t == MessageType::RequestVoteResponse
}

/// What `send` queues for `m` at term `term`: election messages go out only
/// with a term set; the others only without one, and then (but for proposals
/// and read requests) carrying `term`.
pub open spec fn outgoing(term: u64, m: MessageModel) -> Option<MessageModel> {
    if is_vote_type(m.msg_type) {
        if m.log_term == 0 {
            None
        } else {
            Some(m)
        }
    } else if m.log_term != 0 {
        None
    } else if m.msg_type != MessageType::Propose && m.msg_type != MessageType::ReadIndex {
        Some(MessageModel { log_term: term, ..m })
    } else {
        Some(m)
    }
}

/// Whether `other` is at least as up to date as `ours`: `ours` is empty, or
/// `other` ends in a later term, or in the same term at an index no smaller.
pub open spec fn log_up_to_date_spec(ours: Seq<Entry>, other: Seq<Entry>) -> bool {
    ours.len() == 0 || (other.len() > 0 && (other.last().term > ours.last().term || (
    other.last().term == ours.last().term && other.last().commit_index
        >= ours.last().commit_index)))
}

/// Whether the votes received from members of `network` are more than half
/// of the network.
pub open spec fn has_majority(votes: Set<u64>, network: Set<u64>) -> bool {
    2 * votes.intersect(network).len() > network.len()
}

/// The copies of `m` that a leader broadcasts, one to each node of `order`.
pub open spec fn fanout(term: u64, m: MessageModel, order: Seq<u64>) -> Seq<MessageModel> {
    order.map_values(|node: u64| MessageModel { to: node, log_term: term, ..m })
}

/// The reply that turns down a message of an older term.
pub open spec fn rejection(to: u64) -> MessageModel {
    MessageModel { reject: true, ..blank_message(MessageType::AppendResponse, None, to) }
}

impl<T> NodeModel<T> {
    /// The node after `send(m)`.
    pub open spec fn sent(self, m: MessageModel) -> NodeModel<T> {
        match outgoing(self.term, m) {
            Some(x) => NodeModel { msgs: self.msgs.push(x), ..self },
            None => self,
        }
    }

    /// Each other node of the network once, in some order.
    pub open spec fn is_peer_order(self, order: Seq<u64>) -> bool {
        order.no_duplicates() && order.to_set() == self.network.remove(self.id)
    }

    /// A leader's answer to a message other than a vote request: a `Beat`
    /// goes to every other node; the rest is ignored.
    pub open spec fn leader_step(self, m: MessageModel, order: Seq<u64>) -> NodeModel<T> {
        if m.msg_type == MessageType::Beat && m.log_term == 0 {
            NodeModel { msgs: self.msgs + fanout(self.term, m, order), ..self }
        } else {
            self
        }
    }

    /// A candidate steps down on an append, or on a heartbeat of its own term.
    pub open spec fn candidate_step(self, m: MessageModel) -> NodeModel<T> {
        if (m.msg_type == MessageType::Heartbeat && self.term == m.log_term) || m.msg_type
            == MessageType::Append {
            NodeModel { state: NodeState::Follower, ..self }
        } else {
            self
        }
    }

    /// A follower restarts its election timer on a heartbeat or an append; a
    /// heartbeat also names the leader and is answered.
    pub open spec fn follower_step(self, m: MessageModel) -> NodeModel<T> {
        if m.msg_type == MessageType::Heartbeat {
            NodeModel { election_elapsed: 0, leader_id: m.from, ..self }.sent(
                blank_message(MessageType::HeartbeatResponse, Some(self.id), m.from),
            )
        } else if m.msg_type == MessageType::Append {
            NodeModel { election_elapsed: 0, ..self }
        } else {
            self
        }
    }

    /// Whether the node ignores a vote request of a newer term: it has voted
    /// and its election timer has not run out.
    pub open spec fn ignores(self, m: MessageModel) -> bool {
        &&& self.term < m.log_term
        &&& m.msg_type == MessageType::RequestVote
        &&& self.voted_for is Some
        &&& self.election_elapsed < self.election_timeout
    }

    /// The node after the term check of `step` on a message that is not of
    /// an older term: a newer term makes it a follower.
    pub open spec fn term_checked(self, m: MessageModel) -> NodeModel<T> {
        if self.term < m.log_term {
            NodeModel { state: NodeState::Follower, ..self }
        } else {
            self
        }
    }

    /// Whether the node grants the vote that `m` requests: it has not voted
    /// for another node, and the candidate's log is at least as up to date.
    pub open spec fn grants(self, m: MessageModel) -> bool {
        (self.voted_for is None || self.voted_for == Some(m.from)) && log_up_to_date_spec(
            self.log,
            m.entries,
        )
    }

    /// The answer to the vote request `m`: to the candidate, with the
    /// request's term, rejecting unless `granted`.
    pub open spec fn vote_reply(m: MessageModel, granted: bool) -> MessageModel {
        MessageModel {
            reject: !granted,
            log_term: m.log_term,
            ..blank_message(MessageType::RequestVoteResponse, Some(m.to), m.from)
        }
    }

    /// The node after `step(m)`, where a leader broadcasts to the nodes of
    /// `order`: a message of an older term is answered with a rejection and
    /// otherwise ignored.
    pub open spec fn step_spec(self, m: MessageModel, order: Seq<u64>) -> NodeModel<T> {
        if self.ignores(m) {
            self
        } else if self.term > m.log_term {
            self.sent(rejection(m.from))
        } else {
            let n1 = self.term_checked(m);
            if m.msg_type == MessageType::RequestVote {
                let granted = n1.grants(m);
                let n2 = if granted {
                    NodeModel { election_elapsed: 0, voted_for: Some(m.from), ..n1 }
                } else {
                    n1
                };
                n2.sent(Self::vote_reply(m, granted))
            } else if n1.state == NodeState::Leader {
                n1.leader_step(m, order)
            } else if n1.state == NodeState::Candidate {
                n1.candidate_step(m)
            } else {
                n1.follower_step(m)
            }
        }
    }

    /// Whether `step(m)` has a leader broadcast `m`.
    pub open spec fn broadcasts(self, m: MessageModel) -> bool {
        m.msg_type == MessageType::Beat && self.term <= m.log_term && self.term_checked(m).state
            == NodeState::Leader
    }

    /// Whether `next` is what `step(m)` makes of `self`: where the node
    /// broadcasts, for some order of the other nodes.
    pub open spec fn steps_to(self, m: MessageModel, next: NodeModel<T>) -> bool {
        if self.broadcasts(m) {
            exists|order: Seq<u64>| #[trigger]
                self.is_peer_order(order) && next == self.step_spec(m, order)
        } else {
            next == self.step_spec(m, Seq::empty())
        }
    }

    /// A follower's or candidate's election tick: the timer advances; once
    /// it reaches the randomized timeout it restarts and the tick reports
    /// `true`, otherwise the tick reports `false`.
    pub open spec fn election_tick(self) -> (NodeModel<T>, bool) {
        if self.election_elapsed + 1 >= self.randomized_timeout {
            (NodeModel { election_elapsed: 0, ..self }, true)
        } else {
            (NodeModel { election_elapsed: (self.election_elapsed + 1) as usize, ..self }, false)
        }
    }

    /// A leader's tick before any heartbeat: both timers advance; the
    /// election timer restarts (and the tick reports `true`) once it reaches
    /// the election timeout.
    pub open spec fn timers_ticked(self) -> (NodeModel<T>, bool) {
        let n1 = NodeModel {
            election_elapsed: (self.election_elapsed + 1) as usize,
            heartbeat_elapsed: (self.heartbeat_elapsed + 1) as usize,
            ..self
        };
        if n1.election_elapsed >= n1.election_timeout {
            (NodeModel { election_elapsed: 0, ..n1 }, true)
        } else {
            (n1, false)
        }
    }

    /// Whether a leader whose timers stand as in `self` sends a heartbeat.
    pub open spec fn heartbeat_due(self) -> bool {
        self.state == NodeState::Leader && self.heartbeat_elapsed >= self.heartbeat_timeout
    }

    /// The heartbeat a leader sends itself.
    pub open spec fn self_heartbeat(self) -> MessageModel {
        blank_message(MessageType::Heartbeat, Some(self.id), INVALID_ID)
    }
}

/// One Raft node over the storage `T`.
pub struct RaftNode<T: Storage> {
    pub id: u64,
    pub term: u64,
    pub voted_for: Option<u64>,
    pub leader_id: u64,
    pub log: Vec<Entry>,
    pub commit_index: u64,
    pub last_applied: u64,
    pub heartbeat_timeout: usize,
    pub election_timeout: usize,
    pub randomized_timeout: usize,
    pub election_elapsed: usize,
    pub heartbeat_elapsed: usize,
    pub next_index: HashMap<u64, u64>,
    pub match_index: HashMap<u64, u64>,
    pub state: NodeState,
    pub vote_state: HashSet<u64>,
    pub network: HashSet<u64>,
    pub store: T,
    pub msgs: Vec<RaftMessage>,
}

impl<T: Storage> View for RaftNode<T> {
    type V = NodeModel<T>;

    open spec fn view(&self) -> NodeModel<T> {
        NodeModel {
            id: self.id,
            term: self.term,
            voted_for: self.voted_for,
            leader_id: self.leader_id,
            log: self.log@,
            commit_index: self.commit_index,
            last_applied: self.last_applied,
            heartbeat_timeout: self.heartbeat_timeout,
            election_timeout: self.election_timeout,
            randomized_timeout: self.randomized_timeout,
            election_elapsed: self.election_elapsed,
            heartbeat_elapsed: self.heartbeat_elapsed,
            next_index: self.next_index@,
            match_index: self.match_index@,
            state: self.state,
            vote_state: self.vote_state@,
            network: self.network@,
            store: self.store,
            msgs: self.msgs@.map_values(|m: RaftMessage| m@),
        }
    }
}

/// The model of a freshly built node.
pub open spec fn fresh_node<T>(config: RaftConfig, store: T, timeout: usize) -> NodeModel<T> {
    NodeModel {
        id: config.id,
        term: 0,
        voted_for: None,
        leader_id: 0,
        log: Seq::empty(),
        commit_index: 0,
        last_applied: 0,
        heartbeat_timeout: config.heartbeat_tick,
        election_timeout: config.election_tick,
        randomized_timeout: timeout,
        election_elapsed: 0,
        heartbeat_elapsed: 0,
        next_index: Map::empty(),
        match_index: Map::empty(),
        state: NodeState::Follower,
        vote_state: Set::empty(),
        network: Set::empty(),
        store,
        msgs: Seq::empty(),
    }
}

impl<T: Storage> RaftNode<T> {
    /// A follower at term 0 with an empty log, configured by `config`, whose
    /// randomized election timeout is drawn from
    /// `MIN_ELECTION_DURATION..MAX_ELECTION_DURATION`.
    pub fn new(config: &RaftConfig, store: T) -> (node: Self)
        ensures
            MIN_ELECTION_DURATION <= node@.randomized_timeout < MAX_ELECTION_DURATION,
            node@ == fresh_node(*config, store, node@.randomized_timeout),
    {
        let timeout = random_in(MIN_ELECTION_DURATION, MAX_ELECTION_DURATION);
        Self::with_timeout(config, store, timeout)
    }

    /// A follower at term 0 with an empty log, configured by `config`, with
    /// the randomized election timeout `timeout`.
    pub fn with_timeout(config: &RaftConfig, store: T, timeout: usize) -> (node: Self)
        ensures
            node@ == fresh_node(*config, store, timeout),
    {
        let node = RaftNode {
            id: config.id,
            term: 0,
            voted_for: None,
            leader_id: 0,
            log: Vec::new(),
            commit_index: 0,
            last_applied: 0,
            next_index: HashMap::new(),
            match_index: HashMap::new(),
            state: NodeState::Follower,
            randomized_timeout: timeout,
            vote_state: HashSet::new(),
            network: HashSet::new(),
            election_elapsed: 0,
            heartbeat_elapsed: 0,
            heartbeat_timeout: config.heartbeat_tick,
            election_timeout: config.election_tick,
            store: store,
            msgs: Vec::new(),
        };
        proof {
            assert(node@.msgs =~= Seq::<MessageModel>::empty());
            assert(node@.next_index =~= Map::<u64, u64>::empty());
            assert(node@.match_index =~= Map::<u64, u64>::empty());
        }
        node
    }

    /// Advances the timer that fits the node's role.
    pub fn tick(&mut self) -> (ready: bool)
        requires
            old(self)@.election_elapsed < usize::MAX,
            old(self)@.heartbeat_elapsed < usize::MAX,
        ensures
            old(self)@.state != NodeState::Leader ==> (final(self)@, ready)
                == old(self)@.election_tick(),
            old(self)@.state == NodeState::Leader ==> heartbeat_ticked(
                old(self)@,
                final(self)@,
                ready,
            ),
    {
        match self.state {
            NodeState::Candidate | NodeState::Follower => self.tick_election(),
            NodeState::Leader => self.tick_heartbeat(),
        }
    }

    /// The election timer of a follower or candidate.
    pub fn tick_election(&mut self) -> (ready: bool)
        requires
            old(self)@.election_elapsed < usize::MAX,
        ensures
            (final(self)@, ready) == old(self)@.election_tick(),
    {
        self.election_elapsed = self.election_elapsed + 1;
        if self.election_elapsed < self.randomized_timeout {
            return false;
        }
        self.election_elapsed = 0;
        true
    }

    /// The timers of a leader; when the heartbeat is due, the node steps the
    /// heartbeat it sends itself.
    pub fn tick_heartbeat(&mut self) -> (ready: bool)
        requires
            old(self)@.election_elapsed < usize::MAX,
            old(self)@.heartbeat_elapsed < usize::MAX,
        ensures
            heartbeat_ticked(old(self)@, final(self)@, ready),
    {
        self.election_elapsed = self.election_elapsed + 1;
        self.heartbeat_elapsed = self.heartbeat_elapsed + 1;
        let mut ready = false;
        if self.election_elapsed >= self.election_timeout {
            self.election_elapsed = 0;
            ready = true;
        }
        if self.state != NodeState::Leader {
            return ready;
        }
        if self.heartbeat_elapsed >= self.heartbeat_timeout {
            self.heartbeat_elapsed = 0;
            let m = Self::new_message(MessageType::Heartbeat, Some(self.id), INVALID_ID);
            let _ = self.step(m);
            ready = true;
        }
        ready
    }

    /// Queues `m` for sending, as `outgoing` says.
    pub fn send(&mut self, m: RaftMessage)
        ensures
            final(self)@ == old(self)@.sent(m@),
    {
        let mut m = m;
        if m.msg_type == MessageType::RequestVote || m.msg_type == MessageType::RequestVoteResponse {
            if m.log_term == 0 {
                return;
            }
        } else {
            if m.log_term != 0 {
                return;
            }
            if m.msg_type != MessageType::Propose && m.msg_type != MessageType::ReadIndex {
                m.log_term = self.term;
            }
        }
        self.msgs.push(m);
        proof {
            assert(self@.msgs =~= old(self)@.msgs.push(m@));
        }
    }

    /// A message of type `mtype` from `from` (or from no one) to `to`.
    pub fn new_message(mtype: MessageType, from: Option<u64>, to: u64) -> (m: RaftMessage)
        ensures
            m@ == blank_message(mtype, from, to),
    {
        RaftMessage {
            msg_type: mtype,
            log_term: 0,
            index: 0,
            entries: Vec::new(),
            from: match from {
                Some(t) => t,
                None => 0,
            },
            to: to,
            commit_index: None,
            commit_term: None,
            reject: false,
        }
    }
    /// Whether `other_log` is at least as up to date as this node's log, as
    /// `log_up_to_date_spec` says.
    pub fn log_up_to_date(&self, other_log: Vec<Entry>) -> (b: bool)
        ensures
            b == log_up_to_date_spec(self@.log, other_log@),
    {
        if self.log.len() == 0 {
            return true;
        }
        if other_log.len() == 0 {
            return false;
        }
        let log_last = self.log[self.log.len() - 1];
        let other_last = other_log[other_log.len() - 1];
        other_last.term > log_last.term || (other_last.term == log_last.term
            && other_last.commit_index >= log_last.commit_index)
    }

    /// A leader's handling of a message other than a vote request.
    fn step_leader(&mut self, m: RaftMessage) -> (r: RaftResult<()>)
        ensures
            r is Ok,
            m.msg_type == MessageType::Beat ==> exists|order: Seq<u64>| #[trigger]
                old(self)@.is_peer_order(order) && final(self)@ == old(self)@.leader_step(
                    m@,
                    order,
                ),
            m.msg_type != MessageType::Beat ==> final(self)@ == old(self)@,
    {
        let ghost pre = self@;
        let ghost mut order: Seq<u64> = Seq::empty();
        if m.msg_type == MessageType::Beat {
            let lst = ids_of(&self.network);
            let mut i: usize = 0;
            while i < lst.len()
                invariant
                    i <= lst@.len(),
                    lst@.to_set() == pre.network,
                    lst@.no_duplicates(),
                    m.msg_type == MessageType::Beat,
                    order.no_duplicates(),
                    order.to_set() == lst@.take(i as int).to_set().remove(pre.id),
                    self@ == (NodeModel {
                        msgs: if m.log_term == 0 {
                            pre.msgs + fanout(pre.term, m@, order)
                        } else {
                            pre.msgs
                        },
                        ..pre
                    }),
                decreases lst@.len() - i,
            {
                let node = lst[i];
                proof {
                    broadcast use vstd::seq_lib::group_seq_properties;

                    assert(lst@.take(i as int + 1) =~= lst@.take(i as int).push(node));
                    assert(lst@.take(i as int + 1).to_set() =~= lst@.take(i as int).to_set().insert(
                        node,
                    ));
                    assert(!lst@.take(i as int).contains(node));
                }
                let ghost before = order;
                if node != self.id {
                    let mut msg = m.duplicate();
                    msg.to = node;
                    self.send(msg);
                    proof {
                        broadcast use vstd::seq_lib::group_seq_properties;

                        if before.contains(node) {
                            assert(before.to_set().contains(node));
                        }
                        order = before.push(node);
                        let x = MessageModel { to: node, log_term: pre.term, ..m@ };
                        assert(fanout(pre.term, m@, order) =~= fanout(pre.term, m@, before).push(
                            x,
                        ));
                        assert(pre.msgs + fanout(pre.term, m@, order) =~= (pre.msgs + fanout(
                            pre.term,
                            m@,
                            before,
                        )).push(x));
                        assert(order.to_set() =~= before.to_set().insert(node));
                    }
                }
                proof {
                    assert(order.to_set() =~= lst@.take(i as int + 1).to_set().remove(pre.id));
                }
                i = i + 1;
            }
            proof {
                assert(lst@.take(lst@.len() as int) =~= lst@);
            }
        }
        proof {
            if m.msg_type == MessageType::Beat {
                assert(pre.is_peer_order(order));
            }
        }
        Ok(())
    }

    fn step_candidate(&mut self, m: RaftMessage) -> (r: RaftResult<()>)
        ensures
            r is Ok,
            final(self)@ == old(self)@.candidate_step(m@),
    {
        if m.msg_type == MessageType::Propose {
            // No leader is known to take the proposal.
        } else if m.msg_type == MessageType::Heartbeat {
            if self.term == m.log_term {
                self.become_follower();
            }
        } else if m.msg_type == MessageType::Append {
            self.become_follower();
        }
        Ok(())
    }

    fn step_follower(&mut self, m: RaftMessage) -> (r: RaftResult<()>)
        ensures
            r is Ok,
            final(self)@ == old(self)@.follower_step(m@),
    {
        if m.msg_type == MessageType::Heartbeat {
            self.election_elapsed = 0;
            self.leader_id = m.from;
            let msg = Self::new_message(MessageType::HeartbeatResponse, Some(self.id), m.from);
            self.send(msg);
        } else if m.msg_type == MessageType::Append {
            self.election_elapsed = 0;
        }
        Ok(())
    }

    /// Handles one message, as `steps_to` says.
    pub fn step(&mut self, m: RaftMessage) -> (r: RaftResult<()>)
        ensures
            r is Ok,
            old(self)@.steps_to(m@, final(self)@),
    {
        let ghost pre = self@;
        if self.term < m.log_term {
            if m.msg_type == MessageType::RequestVote {
                let not_avail = self.voted_for.is_some() && self.election_elapsed
                    < self.election_timeout;
                if not_avail {
                    return Ok(());
                }
            }
            self.become_follower();
        } else if self.term > m.log_term {
            // A message of an older term is rejected and otherwise ignored.
            let mut reply = Self::new_message(MessageType::AppendResponse, None, m.from);
            reply.reject = true;
            self.send(reply);
            proof {
                assert(reply@ == rejection(m.from));
            }
            return Ok(());
        }
        assert(self@ == pre.term_checked(m@));
        if m.msg_type == MessageType::RequestVote {
            let vote = match self.voted_for {
                None => true,
                Some(v) => v == m.from,
            };
            let other_log = copy_entries(&m.entries);
            let log_up_to_date = self.log_up_to_date(other_log);
            let mut to_send = Self::new_message(
                MessageType::RequestVoteResponse,
                Some(m.to),
                m.from,
            );
            to_send.reject = true;
            to_send.log_term = m.log_term;
            assert(vote && log_up_to_date <==> pre.term_checked(m@).grants(m@));
            if vote && log_up_to_date {
                to_send.reject = false;
                self.election_elapsed = 0;
                self.voted_for = Some(m.from);
            }
            proof {
                assert(to_send@ == NodeModel::<T>::vote_reply(m@, vote && log_up_to_date));
            }
            self.send(to_send);
            Ok(())
        } else {
            let ghost mid = self@;
            let r = match self.state {
                NodeState::Leader => self.step_leader(m),
                NodeState::Candidate => self.step_candidate(m),
                NodeState::Follower => self.step_follower(m),
            };
            proof {
                if pre.broadcasts(m@) {
                    let order = choose|order: Seq<u64>|
                        #[trigger] mid.is_peer_order(order) && self@ == mid.leader_step(m@, order);
                    assert(pre.is_peer_order(order));
                    assert(self@ == pre.step_spec(m@, order));
                }
            }
            r
        }
    }

    /// Whether the votes received from members of the network are more than
    /// half of the network, as `has_majority` says.
    pub fn check_majority(&self) -> (b: bool)
        ensures
            b == has_majority(self@.vote_state, self@.network),
    {
        let votes = ids_of(&self.vote_state);
        let mut cnt: usize = 0;
        let mut i: usize = 0;
        let ghost net = self@.network;
        proof {
            assert(votes@.take(0).to_set().intersect(net) =~= Set::<u64>::empty());
        }
        while i < votes.len()
            invariant
                i <= votes@.len(),
                votes@.no_duplicates(),
                net == self@.network,
                cnt <= i,
                votes@.take(i as int).to_set().intersect(net).finite(),
                cnt == votes@.take(i as int).to_set().intersect(net).len(),
            decreases votes@.len() - i,
        {
            let x = votes[i];
            proof {
                broadcast use vstd::seq_lib::group_seq_properties;
                broadcast use vstd::set::group_set_axioms;

                let before = votes@.take(i as int).to_set().intersect(net);
                assert(votes@.take(i as int + 1) =~= votes@.take(i as int).push(x));
                assert(!votes@.take(i as int).contains(x));
                if net.contains(x) {
                    assert(votes@.take(i as int + 1).to_set().intersect(net) =~= before.insert(x));
                } else {
                    assert(votes@.take(i as int + 1).to_set().intersect(net) =~= before);
                }
            }
            if self.network.contains(&x) {
                cnt = cnt + 1;
            }
            i = i + 1;
        }
        proof {
            assert(votes@.take(votes@.len() as int) =~= votes@);
        }
        let n = self.network.len();
        cnt > n / 2
    }

    /// The last position at which both logs hold the same entry (same term
    /// and index), with that entry's term: the logs are scanned downwards
    /// from their last common position. A pair of logs that agree nowhere
    /// has no such position.
    pub fn log_reconcile(&self, other_log: Vec<Entry>) -> (r: (u64, u64))
        requires
            exists|i: int|
                0 <= i < self@.log.len() && i < other_log@.len() && #[trigger] self@.log[i]
                    == other_log@[i],
        ensures
            0 <= r.0 < self@.log.len(),
            r.0 < other_log@.len(),
            self@.log[r.0 as int] == other_log@[r.0 as int],
            forall|j: int|
                r.0 < j < self@.log.len() && j < other_log@.len() ==> #[trigger] self@.log[j]
                    != other_log@[j],
            r.1 == self@.log[r.0 as int].term,
    {
        let mut next_index = if self.log.len() < other_log.len() {
            self.log.len()
        } else {
            other_log.len()
        };
        while next_index > 0
            invariant
                next_index <= self@.log.len(),
                next_index <= other_log@.len(),
                forall|j: int|
                    next_index <= j < self@.log.len() && j < other_log@.len() ==> #[trigger] self@.log[j]
                        != other_log@[j],
                exists|i: int|
                    0 <= i < self@.log.len() && i < other_log@.len() && #[trigger] self@.log[i]
                        == other_log@[i],
            decreases next_index,
        {
            let entry = self.log[next_index - 1];
            let other_entry = other_log[next_index - 1];
            if entry.term == other_entry.term && entry.commit_index == other_entry.commit_index {
                return ((next_index - 1) as u64, entry.term);
            }
            next_index = next_index - 1;
        }
        proof {
            let i = choose|i: int|
                0 <= i < self@.log.len() && i < other_log@.len() && #[trigger] self@.log[i]
                    == other_log@[i];
            assert(self@.log[i] != other_log@[i]);
        }
        (0, self.term)
    }

    pub fn get_timeout(&self) -> (t: usize)
        ensures
            t == self@.randomized_timeout,
    {
        self.randomized_timeout
    }

    /// Draws a new randomized election timeout from
    /// `MIN_ELECTION_DURATION..MAX_ELECTION_DURATION`.
    pub fn reset_timeout(&mut self)
        ensures
            MIN_ELECTION_DURATION <= final(self)@.randomized_timeout < MAX_ELECTION_DURATION,
            final(self)@ == (NodeModel {
                randomized_timeout: final(self)@.randomized_timeout,
                ..old(self)@
            }),
    {
        self.randomized_timeout = random_in(MIN_ELECTION_DURATION, MAX_ELECTION_DURATION);
    }

    pub fn become_leader(&mut self)
        ensures
            final(self)@ == (NodeModel {
                vote_state: Set::empty(),
                state: NodeState::Leader,
                ..old(self)@
            }),
    {
        self.vote_state.clear();
        self.state = NodeState::Leader;
    }

    pub fn become_follower(&mut self)
        ensures
            final(self)@ == (NodeModel { state: NodeState::Follower, ..old(self)@ }),
    {
        self.state = NodeState::Follower;
    }

    /// Starts an election: a new term, in which the node votes for itself.
    pub fn become_candidate(&mut self)
        requires
            old(self)@.term < u64::MAX,
        ensures
            final(self)@ == (NodeModel {
                vote_state: set![old(self)@.id],
                term: (old(self)@.term + 1) as u64,
                state: NodeState::Candidate,
                ..old(self)@
            }),
    {
        self.vote_state.clear();
        self.increment_term();
        self.state = NodeState::Candidate;
        self.vote_state.insert(self.id);
        proof {
            assert(self@.vote_state =~= set![old(self)@.id]);
        }
    }

    pub fn set_term(&mut self, term: u64)
        ensures
            final(self)@ == (NodeModel { term, ..old(self)@ }),
    {
        self.term = term;
    }

    pub fn get_term(&self) -> (t: u64)
        ensures
            t == self@.term,
    {
        self.term
    }

    pub fn increment_term(&mut self)
        requires
            old(self)@.term < u64::MAX,
        ensures
            final(self)@ == (NodeModel { term: (old(self)@.term + 1) as u64, ..old(self)@ }),
    {
        self.term = self.term + 1;
    }

    pub fn is_leader(&self) -> (b: bool)
        ensures
            b == (self@.state == NodeState::Leader),
    {
        self.state == NodeState::Leader
    }

    pub fn is_follower(&self) -> (b: bool)
        ensures
            b == (self@.state == NodeState::Follower),
    {
        self.state == NodeState::Follower
    }

    pub fn is_candidate(&self) -> (b: bool)
        ensures
            b == (self@.state == NodeState::Candidate),
    {
        self.state == NodeState::Candidate
    }

    pub fn get_state(&self) -> (s: &NodeState)
        ensures
            *s == self@.state,
    {
        &self.state
    }

    /// The node this node voted for.
    pub fn get_leader(&self) -> (l: Option<u64>)
        ensures
            l == self@.voted_for,
    {
        self.voted_for
    }

    pub fn add_to_network(&mut self, node: u64)
        ensures
            final(self)@ == (NodeModel { network: old(self)@.network.insert(node), ..old(self)@ }),
    {
        self.network.insert(node);
    }

    pub fn get_network(&self) -> (n: &HashSet<u64>)
        ensures
            n@ == self@.network,
    {
        &self.network
    }

    /// The leader as this node knows it, and its role.
    pub fn get_softstate(&self) -> (ss: SoftState)
        ensures
            ss == soft_state_of(self@),
    {
        SoftState { leader_id: self.leader_id, raft_state: self.state }
    }

    /// The term, the vote (`INVALID_ID` for none) and the commit index.
    pub fn get_hardstate(&self) -> (hs: HardState)
        ensures
            hs == hard_state_of(self@),
    {
        HardState {
            term: self.term,
            vote: match self.voted_for {
                Some(v) => v,
                None => INVALID_ID,
            },
            commit_index: self.commit_index,
        }
    }
}

/// What a leader's tick makes of `old`, reporting `ready`: the timers
/// advance as `timers_ticked` says; a due heartbeat restarts the heartbeat
/// timer and is stepped, and then the tick reports `true`.
pub open spec fn heartbeat_ticked<T>(old: NodeModel<T>, new: NodeModel<T>, ready: bool) -> bool {
    let (n2, timed_out) = old.timers_ticked();
    if n2.heartbeat_due() {
        let n3 = NodeModel { heartbeat_elapsed: 0, ..n2 };
        ready && n3.steps_to(n3.self_heartbeat(), new)
    } else {
        ready == timed_out && new == n2
    }
}

/// The soft state of a node: the leader it knows and its role.
pub open spec fn soft_state_of<T>(n: NodeModel<T>) -> SoftState {
    SoftState { leader_id: n.leader_id, raft_state: n.state }
}

/// The hard state of a node: its term, its vote (`INVALID_ID` for none) and
/// its commit index.
pub open spec fn hard_state_of<T>(n: NodeModel<T>) -> HardState {
    HardState {
        term: n.term,
        vote: match n.voted_for {
            Some(v) => v,
            None => INVALID_ID,
        },
        commit_index: n.commit_index,
    }
}

/// Stepping a message keeps the node's identity, term, log, network, tally of
/// votes and storage, and only ever adds messages to its queue.
pub proof fn law_step_keeps_term_and_log<T>(n: NodeModel<T>, m: MessageModel, next: NodeModel<T>)
    requires
        n.steps_to(m, next),
    ensures
        next.id == n.id,
        next.term == n.term,
        next.log == n.log,
        next.network == n.network,
        next.vote_state == n.vote_state,
        next.store == n.store,
        next.msgs.len() >= n.msgs.len(),
        next.msgs.take(n.msgs.len() as int) == n.msgs,
{
    let order = if n.broadcasts(m) {
        choose|order: Seq<u64>| #[trigger] n.is_peer_order(order) && next == n.step_spec(m, order)
    } else {
        Seq::empty()
    };
    assert(next == n.step_spec(m, order));
    let n1 = n.term_checked(m);
    assert(n1.msgs.take(n.msgs.len() as int) =~= n.msgs);
    assert(next.msgs.take(n.msgs.len() as int) =~= n.msgs);
}

/// A node votes for at most one node: once it has voted, a step keeps its
/// vote; a vote it casts goes to the sender of a vote request.
pub proof fn law_single_vote<T>(n: NodeModel<T>, m: MessageModel, next: NodeModel<T>)
    requires
        n.steps_to(m, next),
    ensures
        n.voted_for is Some ==> next.voted_for == n.voted_for,
        next.voted_for != n.voted_for ==> m.msg_type == MessageType::RequestVote
            && next.voted_for == Some(m.from),
{
    let order = if n.broadcasts(m) {
        choose|order: Seq<u64>| #[trigger] n.is_peer_order(order) && next == n.step_spec(m, order)
    } else {
        Seq::empty()
    };
    assert(next == n.step_spec(m, order));
}

/// Whether a queued message carries a term as `send` demands: an election
/// message a non-zero one; any other, but proposals and read requests, the
/// term of the node that queued it.
pub open spec fn well_termed(term: u64, x: MessageModel) -> bool {
    &&& is_vote_type(x.msg_type) ==> x.log_term != 0
    &&& !is_vote_type(x.msg_type) && x.msg_type != MessageType::Propose && x.msg_type
        != MessageType::ReadIndex ==> x.log_term == term
}

/// Every message that a step queues is well termed.
pub proof fn law_step_queues_well_termed<T>(n: NodeModel<T>, m: MessageModel, next: NodeModel<T>)
    requires
        n.steps_to(m, next),
    ensures
        forall|i: int|
            n.msgs.len() <= i < next.msgs.len() ==> well_termed(n.term, #[trigger] next.msgs[i]),
{
    let order = if n.broadcasts(m) {
        choose|order: Seq<u64>| #[trigger] n.is_peer_order(order) && next == n.step_spec(m, order)
    } else {
        Seq::empty()
    };
    assert(next == n.step_spec(m, order));
    let n1 = n.term_checked(m);
    assert forall|i: int| n.msgs.len() <= i < n1.msgs.len() implies well_termed(
        n.term,
        #[trigger] n1.msgs[i],
    ) by {}
    if !n.ignores(m) && n.term <= m.log_term && m.msg_type != MessageType::RequestVote
        && n1.state == NodeState::Leader && m.msg_type == MessageType::Beat && m.log_term == 0 {
        assert forall|i: int| n.msgs.len() <= i < next.msgs.len() implies well_termed(
            n.term,
            #[trigger] next.msgs[i],
        ) by {
            if i >= n1.msgs.len() {
                assert(next.msgs[i] == fanout(n.term, m, order)[i - n1.msgs.len()]);
            }
        }
    }
}

/// A leader's broadcast of a `Beat` reaches each other node of the network
/// exactly once, and every copy carries the leader's term. The copies follow
/// what the term check queued (a rejection when the `Beat` is of an older
/// term).
pub proof fn law_beat_reaches_each_peer_once<T>(n: NodeModel<T>, m: MessageModel, next: NodeModel<T>)
    requires
        n.steps_to(m, next),
        n.broadcasts(m),
        m.log_term == 0,
    ensures
        ({
            let sent = next.msgs.skip(n.term_checked(m).msgs.len() as int);
            &&& sent.map_values(|x: MessageModel| x.to).no_duplicates()
            &&& sent.map_values(|x: MessageModel| x.to).to_set() == n.network.remove(n.id)
            &&& forall|i: int|
                0 <= i < sent.len() ==> (#[trigger] sent[i]).log_term == n.term && sent[i].msg_type
                    == MessageType::Beat
        }),
{
    let order = choose|order: Seq<u64>| #[trigger]
        n.is_peer_order(order) && next == n.step_spec(m, order);
    let sent = next.msgs.skip(n.term_checked(m).msgs.len() as int);
    assert(sent =~= fanout(n.term, m, order));
    assert(sent.map_values(|x: MessageModel| x.to) =~= order);
}

/// A leader's tick never demotes it nor changes its term.
pub proof fn law_leader_tick_keeps_leader<T>(n: NodeModel<T>, next: NodeModel<T>, ready: bool)
    requires
        n.state == NodeState::Leader,
        heartbeat_ticked(n, next, ready),
    ensures
        next.state == NodeState::Leader,
        next.term == n.term,
{
}

/// Two majorities of the same network share a member: no two candidates can
/// both hold a majority of one network's votes of a term if each member votes
/// once.
pub proof fn law_majorities_intersect(a: Set<u64>, b: Set<u64>, network: Set<u64>)
    requires
        network.finite(),
        has_majority(a, network),
        has_majority(b, network),
    ensures
        exists|x: u64| a.contains(x) && b.contains(x) && network.contains(x),
{
    let an = a.intersect(network);
    let bn = b.intersect(network);
    vstd::set_lib::lemma_len_subset(an, network);
    vstd::set_lib::lemma_len_subset(bn, network);
    vstd::set_lib::lemma_set_intersect_union_lens(an, bn);
    vstd::set_lib::lemma_len_subset(an.union(bn), network);
    if an.intersect(bn).len() == 0 {
        assert(an.intersect(bn).finite());
        assert(an.intersect(bn) =~= Set::empty()) by {
            if exists|x: u64| an.intersect(bn).contains(x) {
                let x = choose|x: u64| an.intersect(bn).contains(x);
                vstd::set_lib::lemma_set_empty_equivalency_len(an.intersect(bn));
            }
        }
        assert(false);
    }
    vstd::set_lib::lemma_set_empty_equivalency_len(an.intersect(bn));
    let x = an.intersect(bn).choose();
    assert(an.intersect(bn).contains(x));
}

/// Every log is as up to date as itself, and of any two logs one is at
/// least as up to date as the other.
pub proof fn law_up_to_date_is_total(a: Seq<Entry>, b: Seq<Entry>)
    ensures
        log_up_to_date_spec(a, a),
        log_up_to_date_spec(a, b) || log_up_to_date_spec(b, a),
{
}

/// Whether a candidate's log is at least as up to date as ours depends on
/// the last entries of the two logs alone: logs that end in the same entries
/// get the same answer, whatever comes before.
pub proof fn law_up_to_date_reads_last_entries(
    ours: Seq<Entry>,
    other: Seq<Entry>,
    ours2: Seq<Entry>,
    other2: Seq<Entry>,
)
    requires
        ours.len() > 0,
        other.len() > 0,
        ours2.len() > 0,
        other2.len() > 0,
        ours.last() == ours2.last(),
        other.last() == other2.last(),
    ensures
        log_up_to_date_spec(ours, other) == log_up_to_date_spec(ours2, other2),
{
}

/// Between non-empty logs, a candidate whose log ends in an older term is
/// never up to date, one whose log ends in a later term always is, and in
/// the same term the candidate's last index must be no smaller than ours.
pub proof fn law_up_to_date_by_last_term(ours: Seq<Entry>, other: Seq<Entry>)
    requires
        ours.len() > 0,
        other.len() > 0,
    ensures
        other.last().term < ours.last().term ==> !log_up_to_date_spec(ours, other),
        other.last().term > ours.last().term ==> log_up_to_date_spec(ours, other),
        other.last().term == ours.last().term ==> (log_up_to_date_spec(ours, other) <==> other.last().commit_index >= ours.last().commit_index),
{
}

/// A node that had not voted and votes in a step on a vote request votes for
/// a candidate whose log is at least as up to date as its own: its log is
/// empty, or the candidate's ends in a later term, or in the same term at an
/// index no smaller.
pub proof fn law_vote_needs_up_to_date_log<T>(n: NodeModel<T>, m: MessageModel, next: NodeModel<T>)
    requires
        n.steps_to(m, next),
        m.msg_type == MessageType::RequestVote,
        n.voted_for is None,
        next.voted_for is Some,
    ensures
        next.voted_for == Some(m.from),
        n.log.len() == 0 || (m.entries.len() > 0 && (m.entries.last().term > n.log.last().term || (
        m.entries.last().term == n.log.last().term && m.entries.last().commit_index
            >= n.log.last().commit_index))),
{
}

/// A candidate holds a majority exactly when more members of the network
/// voted for it than did not.
pub proof fn law_majority_is_more_voters_than_not(votes: Set<u64>, network: Set<u64>)
    requires
        network.finite(),
    ensures
        has_majority(votes, network) <==> votes.intersect(network).len() > network.difference(
            votes,
        ).len(),
{
    let a = votes.intersect(network);
    let b = network.difference(votes);
    vstd::set_lib::lemma_len_subset(a, network);
    vstd::set_lib::lemma_len_subset(b, network);
    assert(a + b =~= network);
    assert(a.disjoint(b));
    vstd::set_lib::lemma_set_disjoint_lens(a, b);
}

} // verus!
