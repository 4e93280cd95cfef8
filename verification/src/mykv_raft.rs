//! A lighter Raft node over the same AppendEntries and RequestVote calls: it
//! accepts calls of any term not older than its own, and keeps per-peer
//! replication indices.

use vstd::prelude::*;

use crate::rpc_raft::{
    accept_entries, conflict_report, entries_start, extended_log, lemma_extended_len,
    lemma_extended_places, lemma_extended_replay, law_matching_entries_keep_log, raised_commit, refusal, AppendEntries, AppendEntriesResult, LogEntry,
    NodeState, RequestVote, RequestVoteResult,
};

verus! {

/// The mathematical value of a `RaftService`.
#[allow(non_snake_case)]
pub struct ServiceModel {
    pub currentTerm: u32,
    pub votedFor: Option<u32>,
    pub log: Seq<LogEntry>,
    pub commitIndex: u32,
    pub lastApplied: u32,
    pub nextIndex: Seq<u32>,
    pub matchIndex: Seq<u32>,
    pub state: NodeState,
}

/// One Raft node.
#[allow(non_snake_case)]
#[derive(Clone, Debug)]
pub struct RaftService {
    pub currentTerm: u32,
    pub votedFor: Option<u32>,
    pub log: Vec<LogEntry>,
    pub commitIndex: u32,
    pub lastApplied: u32,
    pub nextIndex: Vec<u32>,
    pub matchIndex: Vec<u32>,
    pub state: NodeState,
}

impl View for RaftService {
    type V = ServiceModel;

    open spec fn view(&self) -> ServiceModel {
        ServiceModel {
            currentTerm: self.currentTerm,
            votedFor: self.votedFor,
            log: self.log@,
            commitIndex: self.commitIndex,
            lastApplied: self.lastApplied,
            nextIndex: self.nextIndex@,
            matchIndex: self.matchIndex@,
            state: self.state,
        }
    }
}

/// What AppendEntries of term `term` does to a node in state `s`: a call of
/// an older term, or one whose `prev_index` is past the log, is refused;
/// otherwise the log is extended as `extended_log` says (with a conflict
/// reported as `conflict_report` says) and the commit index raised as
/// `raised_commit` says.
pub open spec fn answer_append(
    s: ServiceModel,
    term: u32,
    prev_index: u32,
    prev_term: u32,
    entries: Seq<LogEntry>,
    leader_commit: u32,
) -> (ServiceModel, AppendEntriesResult) {
    if s.currentTerm > term || prev_index - 1 >= s.log.len() {
        (s, refusal(s.currentTerm))
    } else {
        let new_log = extended_log(s.log, entries, prev_index, prev_term);
        let report = conflict_report(s.log, prev_index, prev_term);
        (
            ServiceModel {
                log: new_log,
                commitIndex: raised_commit(s.commitIndex, leader_commit, new_log.len() as int),
                ..s
            },
            AppendEntriesResult {
                term: s.currentTerm,
                success: true,
                conflictingEntryTerm: report.0,
                conflictingFirstIndex: report.1,
            },
        )
    }
}

/// Whether a node in state `s` grants the vote `args` requests: the request
/// is not of an older term, the node has not voted, and it holds an entry of
/// term `lastLogTerm` at `lastLogIndex`.
pub open spec fn grants_vote(s: ServiceModel, args: RequestVote) -> bool {
    &&& s.currentTerm <= args.term
    &&& s.votedFor is None
    &&& args.lastLogIndex - 1 < s.log.len()
    &&& s.log[args.lastLogIndex - 1].term == args.lastLogTerm
}

/// What a vote request does to a node in state `s`: a granted vote records
/// the candidate.
pub open spec fn answer_vote(s: ServiceModel, args: RequestVote) -> (
    ServiceModel,
    RequestVoteResult,
) {
    if grants_vote(s, args) {
        (
            ServiceModel { votedFor: Some(args.candidateId), ..s },
            RequestVoteResult { term: s.currentTerm, voteGranted: true },
        )
    } else {
        (s, RequestVoteResult { term: s.currentTerm, voteGranted: false })
    }
}

impl RaftService {
    /// Answers an AppendEntries call. A call of an older term, or one whose
    /// `prevLogIndex` is past the log, is refused; otherwise the log is
    /// repaired on a term mismatch (the entry at `prevLogIndex` and all after
    /// it deleted), extended by the entries not already in it, and the commit
    /// index raised towards the leader's.
    pub fn append_entries(&mut self, args: AppendEntries) -> (result: AppendEntriesResult)
        requires
            old(self)@.currentTerm <= args.term ==> args.prevLogIndex >= 1,
            old(self)@.log.len() + args.entries@.len() <= u32::MAX,
        ensures
            (final(self)@, result) == answer_append(
                old(self)@,
                args.term,
                args.prevLogIndex,
                args.prevLogTerm,
                args.entries@,
                args.leaderCommit,
            ),
    {
        let mut args = args;
        let mut result = AppendEntriesResult {
            term: self.currentTerm,
            success: false,
            conflictingEntryTerm: None,
            conflictingFirstIndex: None,
        };
        if self.currentTerm > args.term {
            return result;
        }
        let prev = (args.prevLogIndex - 1) as usize;
        if prev < self.log.len() {
            let mut entries: Vec<LogEntry> = Vec::new();
            std::mem::swap(&mut entries, &mut args.entries);
            proof {
                lemma_extended_len(self.log@, entries@, args.prevLogIndex, args.prevLogTerm);
            }
            let report = accept_entries(&mut self.log, entries, args.prevLogIndex, args.prevLogTerm);
            result.conflictingEntryTerm = report.0;
            result.conflictingFirstIndex = report.1;
            result.success = true;
        } else {
            return result;
        }
        if args.leaderCommit > self.commitIndex {
            let len = self.log.len() as u32;
            self.commitIndex = if args.leaderCommit <= len {
                args.leaderCommit
            } else {
                len
            };
        }
        result
    }

    /// Answers a vote request: a request of an older term is refused; the
    /// vote goes to the candidate when the node has not voted and holds an
    /// entry of term `lastLogTerm` at `lastLogIndex`.
    pub fn request_vote(&mut self, args: RequestVote) -> (result: RequestVoteResult)
        requires
            old(self)@.currentTerm <= args.term ==> args.lastLogIndex >= 1,
        ensures
            (final(self)@, result) == answer_vote(old(self)@, args),
    {
        let mut result = RequestVoteResult { term: self.currentTerm, voteGranted: false };
        if self.currentTerm > args.term {
            return result;
        }
        let last = (args.lastLogIndex - 1) as usize;
        if self.votedFor.is_none() && last < self.log.len() && self.log[last].term
            == args.lastLogTerm {
            result.voteGranted = true;
            self.votedFor = Some(args.candidateId);
        }
        result
    }
}

/// AppendEntries never changes a node's term, and a call it refuses leaves
/// the log and commit index as they were.
pub proof fn law_append_keeps_term_order(
    s: ServiceModel,
    term: u32,
    prev_index: u32,
    prev_term: u32,
    entries: Seq<LogEntry>,
    leader_commit: u32,
)
    ensures
        ({
            let (next, r) = answer_append(s, term, prev_index, prev_term, entries, leader_commit);
            &&& next.currentTerm == s.currentTerm
            &&& r.term == s.currentTerm
            &&& !r.success ==> next.log == s.log && next.commitIndex == s.commitIndex
        }),
{
}

/// An AppendEntries call that succeeds keeps the log before the place where
/// its entries go (right after `prevLogIndex`, or at it when that entry's
/// term differed), and puts there an entry of each new entry's term, in order.
pub proof fn law_accepted_entries_placed(
    s: ServiceModel,
    term: u32,
    prev_index: u32,
    prev_term: u32,
    entries: Seq<LogEntry>,
    leader_commit: u32,
)
    requires
        1 <= prev_index,
    ensures
        ({
            let (next, r) = answer_append(s, term, prev_index, prev_term, entries, leader_commit);
            let start = entries_start(s.log, prev_index, prev_term);
            r.success ==> {
                &&& next.log.len() >= start + entries.len()
                &&& next.log.take(start) == s.log.take(start)
                &&& forall|i: int|
                    0 <= i < entries.len() ==> (#[trigger] next.log[start + i]).term
                        == entries[i].term
            }
        }),
{
    let (next, r) = answer_append(s, term, prev_index, prev_term, entries, leader_commit);
    if r.success {
        lemma_extended_places(s.log, entries, prev_index, prev_term);
    }
}

/// Repeating an AppendEntries call that succeeded without a term mismatch
/// changes nothing more and gets the same answer: entries already in the log
/// are not added again.
pub proof fn law_append_replay(
    s: ServiceModel,
    term: u32,
    prev_index: u32,
    prev_term: u32,
    entries: Seq<LogEntry>,
    leader_commit: u32,
)
    requires
        1 <= prev_index,
        s.log.len() + entries.len() <= u32::MAX,
    ensures
        ({
            let (next, r) = answer_append(s, term, prev_index, prev_term, entries, leader_commit);
            r.success && r.conflictingEntryTerm is None ==> answer_append(
                next,
                term,
                prev_index,
                prev_term,
                entries,
                leader_commit,
            ) == (next, r)
        }),
{
    let (next, r) = answer_append(s, term, prev_index, prev_term, entries, leader_commit);
    if r.success && r.conflictingEntryTerm is None {
        lemma_extended_replay(s.log, entries, prev_index, prev_term);
        lemma_extended_len(s.log, entries, prev_index, prev_term);
    }
}

/// A node grants at most one vote: once it has voted, every request is
/// refused and changes nothing; a granted vote goes to the candidate that
/// asked.
pub proof fn law_single_vote(s: ServiceModel, args: RequestVote)
    ensures
        s.votedFor is Some ==> answer_vote(s, args) == (s, RequestVoteResult {
            term: s.currentTerm,
            voteGranted: false,
        }),
        answer_vote(s, args).1.voteGranted ==> answer_vote(s, args).0.votedFor == Some(
            args.candidateId,
        ),
        answer_vote(s, args).0.currentTerm == s.currentTerm,
{
}

/// An AppendEntries call of a term not older than the node's, after a
/// matching entry at `prevLogIndex`, with new entries that agree in term with
/// those already stored at their places, succeeds without a conflict and
/// keeps every entry of the log.
pub proof fn law_matching_append_keeps_log(
    s: ServiceModel,
    term: u32,
    prev_index: u32,
    prev_term: u32,
    entries: Seq<LogEntry>,
    leader_commit: u32,
)
    requires
        s.currentTerm <= term,
        1 <= prev_index <= s.log.len(),
        s.log[prev_index - 1].term == prev_term,
        forall|i: int|
            0 <= i < entries.len() && prev_index + i < s.log.len() ==> (#[trigger] s.log[prev_index
                + i]).term == entries[i].term,
    ensures
        ({
            let (next, r) = answer_append(s, term, prev_index, prev_term, entries, leader_commit);
            &&& r.success
            &&& r.conflictingEntryTerm is None
            &&& next.log.len() >= s.log.len()
            &&& next.log.take(s.log.len() as int) == s.log
        }),
{
    law_matching_entries_keep_log(s.log, entries, prev_index, prev_term);
    let (next, r) = answer_append(s, term, prev_index, prev_term, entries, leader_commit);
    assert(next.log.take(s.log.len() as int) =~= s.log);
}

/// A vote is granted only to a request of a term not older than the node's,
/// while the node has not voted, and when the node holds an entry of term
/// `lastLogTerm` at `lastLogIndex`; a request whose `lastLogIndex` is past
/// the log, or whose `lastLogTerm` differs from the term stored there, is
/// refused and changes nothing.
pub proof fn law_vote_needs_matching_entry(s: ServiceModel, args: RequestVote)
    requires
        args.lastLogIndex >= 1,
    ensures
        answer_vote(s, args).1.voteGranted ==> {
            &&& s.currentTerm <= args.term
            &&& s.votedFor is None
            &&& args.lastLogIndex <= s.log.len()
            &&& s.log[args.lastLogIndex - 1].term == args.lastLogTerm
        },
        (args.lastLogIndex > s.log.len() || s.log[args.lastLogIndex - 1].term != args.lastLogTerm)
            ==> !answer_vote(s, args).1.voteGranted && answer_vote(s, args).0 == s,
{
}

} // verus!
