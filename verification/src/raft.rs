//! The decisions of the loop that drives a node: when it ticks, what it
//! hands to the network, and how sending and connecting are retried.

use std::collections::HashSet;
use vstd::prelude::*;

use crate::error::RaftResult;
use crate::mem_storage::MemStorage;
use crate::raft_manager::{fresh_manager, ManagerModel, RaftManager, Ready};
use crate::raft_node::{
    heartbeat_ticked, NodeModel, NodeState, RaftConfig, MAX_ELECTION_DURATION,
    MIN_ELECTION_DURATION,
};
use crate::raft_rpc::{MessageModel, RaftMessage};
use crate::storage::Storage;

verus! {

broadcast use vstd::std_specs::hash::group_hash_axioms;

/// How long the loop waits for a message before it ticks, in milliseconds.
pub const HEARTBEAT_DURATION: u64 = 100;

/// How often a failed send is retried.
pub const MAX_RETRIES: usize = 5;

/// How long to wait before retrying a send, in milliseconds.
pub const MSG_RETRY_TIMEOUT: u64 = 25;

/// How often a failed connection to a peer is retried.
pub const MAX_RAFT_SERVICE_RETRIES: usize = 5;

/// How long to wait before retrying a connection, in milliseconds.
pub const RAFT_SERVICE_TIMEOUT: u64 = 1000;

/// The heartbeat period in nanoseconds.
pub fn heartbeat_nanos() -> (n: u128)
    ensures
        n == HEARTBEAT_DURATION * 1_000_000,
{
    HEARTBEAT_DURATION as u128 * 1_000_000
}

/// What follows an attempt to send a message to a peer.
#[derive(Clone, Copy, Debug, PartialEq, Eq, Structural)]
pub enum SendStep {
    /// The message was delivered.
    Delivered,
    /// Wait `wait_ms` milliseconds and try again; `retries` attempts have
    /// now failed.
    Retry { retries: usize, wait_ms: u64 },
    /// Stop trying.
    GiveUp,
}

/// What follows an attempt to connect to a peer.
#[derive(Clone, Copy, Debug, PartialEq, Eq, Structural)]
pub enum ConnectStep {
    /// The connection is up.
    Connected,
    /// Wait `wait_ms` milliseconds and try again; `retries` attempts have
    /// now failed.
    Retry { retries: usize, wait_ms: u64 },
    /// Stop trying: the peer cannot be reached.
    Fail,
}

/// What follows a send that did (`delivered`) or did not succeed, with
/// `retries` failed attempts before it: a failure is retried after
/// `MSG_RETRY_TIMEOUT` ms while fewer than `MAX_RETRIES` retries were made.
pub open spec fn send_step(delivered: bool, retries: usize) -> SendStep {
    if delivered {
        SendStep::Delivered
    } else if retries < MAX_RETRIES {
        SendStep::Retry { retries: (retries + 1) as usize, wait_ms: MSG_RETRY_TIMEOUT }
    } else {
        SendStep::GiveUp
    }
}

/// What follows a connection attempt that did (`connected`) or did not
/// succeed, with `retries` failed attempts before it: a failure is retried
/// after `RAFT_SERVICE_TIMEOUT` ms until more than `MAX_RAFT_SERVICE_RETRIES`
/// retries were made.
pub open spec fn connect_step(connected: bool, retries: usize) -> ConnectStep {
    if connected {
        ConnectStep::Connected
    } else if retries > MAX_RAFT_SERVICE_RETRIES {
        ConnectStep::Fail
    } else {
        ConnectStep::Retry { retries: (retries + 1) as usize, wait_ms: RAFT_SERVICE_TIMEOUT }
    }
}

/// Decides what follows a send attempt, as `send_step` says.
pub fn after_send_attempt(delivered: bool, retries: usize) -> (step: SendStep)
    ensures
        step == send_step(delivered, retries),
{
    if delivered {
        SendStep::Delivered
    } else if retries < MAX_RETRIES {
        SendStep::Retry { retries: retries + 1, wait_ms: MSG_RETRY_TIMEOUT }
    } else {
        SendStep::GiveUp
    }
}

/// Decides what follows a connection attempt, as `connect_step` says.
pub fn after_connect_attempt(connected: bool, retries: usize) -> (step: ConnectStep)
    ensures
        step == connect_step(connected, retries),
{
    if connected {
        ConnectStep::Connected
    } else if retries > MAX_RAFT_SERVICE_RETRIES {
        ConnectStep::Fail
    } else {
        ConnectStep::Retry { retries: retries + 1, wait_ms: RAFT_SERVICE_TIMEOUT }
    }
}

/// The messages of `msgs` addressed to members of `peers`, in order.
pub open spec fn addressed_to(msgs: Seq<MessageModel>, peers: Set<u64>) -> Seq<MessageModel> {
    msgs.filter(|m: MessageModel| peers.contains(m.to))
}

/// The messages of `msgs` addressed to no member of `peers`, in order.
pub open spec fn unaddressed(msgs: Seq<MessageModel>, peers: Set<u64>) -> Seq<MessageModel> {
    msgs.filter(|m: MessageModel| !peers.contains(m.to))
}

/// The models of a vector of messages.
pub open spec fn models(msgs: Seq<RaftMessage>) -> Seq<MessageModel> {
    msgs.map_values(|m: RaftMessage| m@)
}

/// Splits `msgs` into those addressed to a member of `peers` and the rest,
/// each in the order of `msgs`.
pub fn route(msgs: Vec<RaftMessage>, peers: &HashSet<u64>) -> (r: (Vec<RaftMessage>, Vec<RaftMessage>))
    ensures
        models(r.0@) == addressed_to(models(msgs@), peers@),
        models(r.1@) == unaddressed(models(msgs@), peers@),
{
    let mut known: Vec<RaftMessage> = Vec::new();
    let mut unknown: Vec<RaftMessage> = Vec::new();
    let mut msgs = msgs;
    let ghost all = models(msgs@);
    let mut i: usize = 0;
    let n = msgs.len();
    while i < n
        invariant
            n == msgs@.len(),
            i <= n,
            models(msgs@) == all,
            models(known@) == addressed_to(all.take(i as int), peers@),
            models(unknown@) == unaddressed(all.take(i as int), peers@),
        decreases n - i,
    {
        let m = msgs[i].duplicate();
        proof {
            reveal(Seq::filter);
            assert(all.take(i as int + 1).drop_last() =~= all.take(i as int));
            assert(all[i as int] == m@);
        }
        if peers.contains(&m.to) {
            known.push(m);
            proof {
                assert(models(known@) =~= models(known@).drop_last().push(m@));
            }
        } else {
            unknown.push(m);
            proof {
                assert(models(unknown@) =~= models(unknown@).drop_last().push(m@));
            }
        }
        i = i + 1;
    }
    proof {
        assert(all.take(n as int) =~= all);
    }
    (known, unknown)
}

/// The mathematical value of a `Raft`.
pub struct RaftModel<T> {
    pub node: ManagerModel<MemStorage>,
    pub network: Set<u64>,
    pub store: T,
    pub heartbeat: u128,
}

/// The node a service drives, with the ids of the peers it can reach, and
/// the time left until the next tick.
pub struct Raft<T: Storage> {
    node: RaftManager<MemStorage>,
    network: HashSet<u64>,
    store: T,
    heartbeat: u128,
}

impl<T: Storage> View for Raft<T> {
    type V = RaftModel<T>;

    closed spec fn view(&self) -> RaftModel<T> {
        RaftModel {
            node: self.node@,
            network: self.network@,
            store: self.store,
            heartbeat: self.heartbeat,
        }
    }
}

/// The configuration of the node a service drives.
pub open spec fn service_config(id: u64) -> RaftConfig {
    RaftConfig { id, election_tick: 10, heartbeat_tick: 3, last_applied: 0 }
}

impl<T: Storage> Raft<T> {
    /// A service for node `id` (election after 10 ticks, heartbeat every 3)
    /// that knows no peer yet.
    pub fn new(id: u64, store: T) -> (r: Self)
        requires
            id != 0,
        ensures
            MIN_ELECTION_DURATION <= r@.node.raft.randomized_timeout < MAX_ELECTION_DURATION,
            r@ == (RaftModel {
                node: fresh_manager(
                    service_config(id),
                    MemStorage {},
                    r@.node.raft.randomized_timeout,
                ),
                network: Set::empty(),
                store,
                heartbeat: (HEARTBEAT_DURATION * 1_000_000) as u128,
            }),
    {
        let config = RaftConfig { id, election_tick: 10, heartbeat_tick: 3, last_applied: 0 };
        let node = RaftManager::new(config, MemStorage {});
        Raft { node, network: HashSet::new(), store, heartbeat: heartbeat_nanos() }
    }

    /// The node's model.
    pub fn node(&self) -> (n: &RaftManager<MemStorage>)
        ensures
            n@ == self@.node,
    {
        &self.node
    }

    /// The time left until the next tick, in nanoseconds.
    pub fn heartbeat(&self) -> (h: u128)
        ensures
            h == self@.heartbeat,
    {
        self.heartbeat
    }

    /// Whether `iterate` may be called: no counter of the node is at its
    /// maximum.
    pub fn can_iterate(&self) -> (b: bool)
        ensures
            b == (self@.node.raft.election_elapsed < usize::MAX
                && self@.node.raft.heartbeat_elapsed < usize::MAX && self@.node.max_number
                < u64::MAX),
    {
        let n = self.node.raft_node();
        n.election_elapsed < usize::MAX && n.heartbeat_elapsed < usize::MAX
            && self.node.max_number() < u64::MAX
    }

    pub fn step(&mut self, m: RaftMessage) -> (r: RaftResult<()>)
        ensures
            r is Ok,
            final(self)@ == (RaftModel { node: final(self)@.node, ..old(self)@ }),
            final(self)@.node == (ManagerModel { raft: final(self)@.node.raft, ..old(self)@.node }),
            old(self)@.node.raft.steps_to(m@, final(self)@.node.raft),
    {
        self.node.step(m)
    }

    /// Records node `id` as a member of the network and, unless
    /// `exclude_peer`, as a peer that can be reached.
    pub fn add_node(&mut self, id: u64, exclude_peer: bool)
        ensures
            final(self)@ == (RaftModel {
                node: ManagerModel {
                    raft: NodeModel {
                        network: old(self)@.node.raft.network.insert(id),
                        ..old(self)@.node.raft
                    },
                    ..old(self)@.node
                },
                network: if exclude_peer {
                    old(self)@.network
                } else {
                    old(self)@.network.insert(id)
                },
                ..old(self)@
            }),
    {
        if !exclude_peer {
            self.network.insert(id);
        }
        self.node.add_network(id);
    }

    /// When the node has something to report, takes it and returns its
    /// messages: first those addressed to reachable peers, then the others.
    pub fn on_ready(&mut self) -> (out: (Vec<RaftMessage>, Vec<RaftMessage>))
        requires
            old(self)@.node.max_number < u64::MAX,
        ensures
            !old(self)@.node.has_ready() ==> final(self)@ == old(self)@ && out.0@.len() == 0
                && out.1@.len() == 0,
            old(self)@.node.has_ready() ==> {
                &&& final(self)@ == (RaftModel { node: old(self)@.node.drained(), ..old(self)@ })
                &&& models(out.0@) == addressed_to(old(self)@.node.raft.msgs, old(self)@.network)
                &&& models(out.1@) == unaddressed(old(self)@.node.raft.msgs, old(self)@.network)
            },
    {
        if !self.node.has_ready() {
            return (Vec::new(), Vec::new());
        }
        let ready: Ready = self.node.ready();
        proof {
            assert(models(ready.messages@) == old(self)@.node.raft.msgs);
        }
        route(ready.messages, &self.network)
    }

    /// One turn of the loop: steps the message received, if any; ticks the
    /// node when more time than was left has `elapsed` (in nanoseconds),
    /// restarting the heartbeat period, or else counts the time off; then
    /// hands out what the node has to report, as `on_ready` does.
    pub fn iterate(&mut self, received: Option<RaftMessage>, elapsed: u128) -> (out: (
        Vec<RaftMessage>,
        Vec<RaftMessage>,
    ))
        requires
            old(self)@.node.raft.election_elapsed < usize::MAX,
            old(self)@.node.raft.heartbeat_elapsed < usize::MAX,
            old(self)@.node.max_number < u64::MAX,
        ensures
            iterated(old(self)@, received, elapsed, final(self)@, out),
    {
        let ghost pre = self@;
        if let Some(m) = received {
            let _ = self.step(m);
            proof {
                lemma_step_keeps_timers(pre.node.raft, m@, self@.node.raft);
            }
        }
        let ghost mid = self@;
        let ghost ticked_now = elapsed > self.heartbeat;
        if elapsed > self.heartbeat {
            self.heartbeat = heartbeat_nanos();
            let _ = self.node.tick();
        } else {
            self.heartbeat = self.heartbeat - elapsed;
        }
        let ghost timed = self@;
        let out = self.on_ready();
        proof {
            assert(stepped(pre, received, mid));
            assert(timer_advanced(mid, elapsed, timed));
        }
        out
    }
}

/// Whether `mid` is `pre` after stepping the message `received`, if any.
pub open spec fn stepped<T>(pre: RaftModel<T>, received: Option<RaftMessage>, mid: RaftModel<T>) -> bool {
    match received {
        Some(m) => {
            &&& mid == (RaftModel { node: mid.node, ..pre })
            &&& mid.node == (ManagerModel { raft: mid.node.raft, ..pre.node })
            &&& pre.node.raft.steps_to(m@, mid.node.raft)
        },
        None => mid == pre,
    }
}

/// Whether `next` is `mid` after `elapsed` nanoseconds: past the time left,
/// the heartbeat period restarts and the node ticks; otherwise the time is
/// counted off.
pub open spec fn timer_advanced<T>(mid: RaftModel<T>, elapsed: u128, next: RaftModel<T>) -> bool {
    if elapsed > mid.heartbeat {
        &&& next == (RaftModel {
            node: next.node,
            heartbeat: (HEARTBEAT_DURATION * 1_000_000) as u128,
            ..mid
        })
        &&& next.node == (ManagerModel { raft: next.node.raft, ..mid.node })
        &&& mid.node.raft.state != NodeState::Leader ==> next.node.raft
            == mid.node.raft.election_tick().0
        &&& mid.node.raft.state == NodeState::Leader ==> (heartbeat_ticked(
            mid.node.raft,
            next.node.raft,
            true,
        ) || heartbeat_ticked(mid.node.raft, next.node.raft, false))
    } else {
        next == (RaftModel { heartbeat: (mid.heartbeat - elapsed) as u128, ..mid })
    }
}

/// Whether `next` and `out` are what `iterate(received, elapsed)` makes of
/// `pre`.
pub open spec fn iterated<T>(
    pre: RaftModel<T>,
    received: Option<RaftMessage>,
    elapsed: u128,
    next: RaftModel<T>,
    out: (Vec<RaftMessage>, Vec<RaftMessage>),
) -> bool {
    exists|mid: RaftModel<T>, timed: RaftModel<T>|
        #![trigger stepped(pre, received, mid), timer_advanced(mid, elapsed, timed)]
        {
            &&& stepped(pre, received, mid)
            &&& timer_advanced(mid, elapsed, timed)
            &&& !timed.node.has_ready() ==> next == timed && out.0@.len() == 0 && out.1@.len()
                == 0
            &&& timed.node.has_ready() ==> {
                &&& next == (RaftModel { node: timed.node.drained(), ..timed })
                &&& models(out.0@) == addressed_to(timed.node.raft.msgs, timed.network)
                &&& models(out.1@) == unaddressed(timed.node.raft.msgs, timed.network)
            }
        }
}

/// Stepping a message never advances a timer: the election timer stays or
/// restarts, the heartbeat timer stays.
pub proof fn lemma_step_keeps_timers<T>(n: NodeModel<T>, m: MessageModel, next: NodeModel<T>)
    requires
        n.steps_to(m, next),
    ensures
        next.election_elapsed == n.election_elapsed || next.election_elapsed == 0,
        next.heartbeat_elapsed == n.heartbeat_elapsed,
{
    if n.broadcasts(m) {
        let order = choose|order: Seq<u64>| #[trigger]
            n.is_peer_order(order) && next == n.step_spec(m, order);
    }
}

/// A message is sent at most `MAX_RETRIES + 1` times: every retry counts one
/// more failure, and a failure after `MAX_RETRIES` retries gives up.
pub proof fn law_sends_are_bounded(retries: usize)
    ensures
        match send_step(false, retries) {
            SendStep::Retry { retries: r, wait_ms } => r == retries + 1 && r <= MAX_RETRIES
                && wait_ms == MSG_RETRY_TIMEOUT,
            SendStep::GiveUp => retries >= MAX_RETRIES,
            SendStep::Delivered => false,
        },
{
}

/// A peer is tried at most `MAX_RAFT_SERVICE_RETRIES + 2` times before the
/// connection fails.
pub proof fn law_connects_are_bounded(retries: usize)
    ensures
        match connect_step(false, retries) {
            ConnectStep::Retry { retries: r, wait_ms } => r == retries + 1 && r
                <= MAX_RAFT_SERVICE_RETRIES + 1 && wait_ms == RAFT_SERVICE_TIMEOUT,
            ConnectStep::Fail => retries > MAX_RAFT_SERVICE_RETRIES,
            ConnectStep::Connected => false,
        },
{
}

/// Routing splits the messages without loss: each goes to exactly one of
/// the two parts, by whether its addressee is a reachable peer.
pub proof fn law_route_partitions(msgs: Seq<MessageModel>, peers: Set<u64>)
    ensures
        addressed_to(msgs, peers).len() + unaddressed(msgs, peers).len() == msgs.len(),
        forall|i: int|
            0 <= i < addressed_to(msgs, peers).len() ==> peers.contains(
                (#[trigger] addressed_to(msgs, peers)[i]).to,
            ),
        forall|i: int|
            0 <= i < unaddressed(msgs, peers).len() ==> !peers.contains(
                (#[trigger] unaddressed(msgs, peers)[i]).to,
            ),
    decreases msgs.len(),
{
    reveal(Seq::filter);
    if msgs.len() > 0 {
        law_route_partitions(msgs.drop_last(), peers);
    }
    let pred_in = |m: MessageModel| peers.contains(m.to);
    let pred_out = |m: MessageModel| !peers.contains(m.to);
    msgs.filter_lemma(pred_in);
    msgs.filter_lemma(pred_out);
}

} // verus!
