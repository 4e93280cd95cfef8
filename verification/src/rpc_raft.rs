//! A Raft node driven by explicit AppendEntries and RequestVote calls, with a
//! log of key-value commands.

use vstd::prelude::*;

use crate::raft_node::random_in;

verus! {

/// The role a node plays.
#[derive(Clone, Copy, Debug, PartialEq, Eq, Structural)]
pub enum NodeState {
    Leader,
    Follower,
    Candidate,
}

/// A key-value command carried by a log entry.
#[derive(Clone, Debug, PartialEq, Eq)]
pub enum Command {
    Put { key: String, value: i32 },
    Get { key: String },
}

/// A command and the term in which the leader received it.
#[derive(Clone, Debug, PartialEq, Eq)]
pub struct LogEntry {
    pub command: Command,
    pub term: u32,
}

/// The arguments of a vote request.
#[allow(non_snake_case)]
#[derive(Clone, Copy, Debug, PartialEq, Eq)]
pub struct RequestVote {
    pub term: u32,
    pub candidateId: u32,
    pub lastLogIndex: u32,
    pub lastLogTerm: u32,
}

/// The answer to a vote request.
#[allow(non_snake_case)]
#[derive(Clone, Copy, Debug, PartialEq, Eq)]
pub struct RequestVoteResult {
    pub term: u32,
    pub voteGranted: bool,
}

/// The arguments of an AppendEntries call.
#[allow(non_snake_case)]
#[derive(Clone, Debug, PartialEq, Eq)]
pub struct AppendEntries {
    pub term: u32,
    pub leaderId: u32,
    pub prevLogIndex: u32,
    pub prevLogTerm: u32,
    pub entries: Vec<LogEntry>,
    pub leaderCommit: u32,
}

/// The answer to an AppendEntries call.
#[allow(non_snake_case)]
#[derive(Clone, Copy, Debug, PartialEq, Eq)]
pub struct AppendEntriesResult {
    pub term: u32,
    pub success: bool,
    pub conflictingEntryTerm: Option<u32>,
    pub conflictingFirstIndex: Option<u32>,
}

/// The arguments of an InstallSnapshot call (none are defined yet).
#[derive(Clone, Copy, Debug, PartialEq, Eq)]
pub struct InstallSnapshot {}

/// The answer to an InstallSnapshot call (none are defined yet).
#[derive(Clone, Copy, Debug, PartialEq, Eq)]
pub struct InstallSnapshotResult {}

/// The mathematical value of a `RaftService`.
#[allow(non_snake_case)]
pub struct ServiceModel {
    pub _id: u32,
    pub currentTerm: u32,
    pub votedFor: Option<u32>,
    pub log: Seq<LogEntry>,
    pub commitIndex: u32,
    pub lastApplied: u32,
    pub nextIndex: u32,
    pub matchIndex: u32,
    pub state: NodeState,
    pub timeout: u64,
}

/// One Raft node.
#[allow(non_snake_case)]
#[derive(Clone, Debug)]
pub struct RaftService {
    pub _id: u32,
    pub currentTerm: u32,
    pub votedFor: Option<u32>,
    pub log: Vec<LogEntry>,
    pub commitIndex: u32,
    pub lastApplied: u32,
    pub nextIndex: u32,
    pub matchIndex: u32,
    pub state: NodeState,
    pub timeout: u64,
}

impl View for RaftService {
    type V = ServiceModel;

    open spec fn view(&self) -> ServiceModel {
        ServiceModel {
            _id: self._id,
            currentTerm: self.currentTerm,
            votedFor: self.votedFor,
            log: self.log@,
            commitIndex: self.commitIndex,
            lastApplied: self.lastApplied,
            nextIndex: self.nextIndex,
            matchIndex: self.matchIndex,
            state: self.state,
            timeout: self.timeout,
        }
    }
}

/// The answer a node at term `term` gives when it accepts nothing.
pub open spec fn refusal(term: u32) -> AppendEntriesResult {
    AppendEntriesResult {
        term,
        success: false,
        conflictingEntryTerm: None,
        conflictingFirstIndex: None,
    }
}

/// The model of a fresh node with id `id` and election timeout `timeout`.
pub open spec fn fresh_service(id: u32, timeout: u64) -> ServiceModel {
    ServiceModel {
        _id: id,
        currentTerm: 1,
        votedFor: None,
        log: Seq::empty(),
        commitIndex: 0,
        lastApplied: 0,
        nextIndex: 1,
        matchIndex: 1,
        state: NodeState::Follower,
        timeout,
    }
}

/// The position of the first entry of `log` from `from` on whose term is
/// `term` (the log's length when there is none).
pub open spec fn first_of_term(log: Seq<LogEntry>, term: u32, from: int) -> int
    decreases log.len() - from,
{
    if from >= log.len() || from < 0 {
        log.len() as int
    } else if log[from].term == term {
        from
    } else {
        first_of_term(log, term, from + 1)
    }
}

/// `base` with `entries` placed from position `start` on: entries whose
/// position already holds an entry of the same term are kept as they are;
/// from the first position that is empty or holds another term, the stored
/// entries are dropped and the remaining new ones follow.
pub open spec fn merge_entries(base: Seq<LogEntry>, entries: Seq<LogEntry>, start: int) -> Seq<
    LogEntry,
>
    decreases entries.len(),
{
    if entries.len() == 0 {
        base
    } else if 0 <= start < base.len() && base[start].term == entries[0].term {
        merge_entries(base, entries.drop_first(), start + 1)
    } else {
        base.take(start) + entries
    }
}

/// Whether the entry at `prev_index` (counted from 1) has a term other than
/// `prev_term`.
pub open spec fn conflicts(log: Seq<LogEntry>, prev_index: u32, prev_term: u32) -> bool {
    log[prev_index - 1].term != prev_term
}

/// The log once entries are accepted after position `prev_index` (counted
/// from 1): on a term mismatch there, that entry and all after it are
/// deleted and the new entries follow; otherwise the new entries are placed
/// after it as `merge_entries` says, so that entries already in the log are
/// not added again.
pub open spec fn extended_log(
    log: Seq<LogEntry>,
    entries: Seq<LogEntry>,
    prev_index: u32,
    prev_term: u32,
) -> Seq<LogEntry> {
    let p = prev_index - 1;
    if conflicts(log, prev_index, prev_term) {
        merge_entries(log.take(p), entries, p)
    } else {
        merge_entries(log, entries, p + 1)
    }
}

/// On a term mismatch at `prev_index`: the conflicting entry's term, and the
/// first index (counted from 1) of the log that holds that term.
pub open spec fn conflict_report(log: Seq<LogEntry>, prev_index: u32, prev_term: u32) -> (
    Option<u32>,
    Option<u32>,
) {
    if conflicts(log, prev_index, prev_term) {
        let t = log[prev_index - 1].term;
        (Some(t), Some((first_of_term(log, t, 0) + 1) as u32))
    } else {
        (None, None)
    }
}

/// `first_of_term` from `from` finds a position at or before any position
/// that holds the term.
pub proof fn lemma_first_of_term_bound(log: Seq<LogEntry>, term: u32, from: int, at: int)
    requires
        0 <= from <= at < log.len(),
        log[at].term == term,
    ensures
        from <= first_of_term(log, term, from) <= at,
        log[first_of_term(log, term, from)].term == term,
    decreases at - from,
{
    if log[from].term != term {
        lemma_first_of_term_bound(log, term, from + 1, at);
    }
}

/// Placing entries from `start` on keeps everything before `start`, puts an
/// entry of each new entry's term at its position, and adds no more entries
/// than there are new ones.
pub proof fn lemma_merge_places(base: Seq<LogEntry>, entries: Seq<LogEntry>, start: int)
    requires
        0 <= start <= base.len(),
    ensures
        merge_entries(base, entries, start).len() >= start + entries.len(),
        merge_entries(base, entries, start).len() <= base.len() + entries.len(),
        merge_entries(base, entries, start).take(start) == base.take(start),
        forall|i: int|
            0 <= i < entries.len() ==> (#[trigger] merge_entries(base, entries, start)[start
                + i]).term == entries[i].term,
    decreases entries.len(),
{
    let m = merge_entries(base, entries, start);
    if entries.len() > 0 {
        if start < base.len() && base[start].term == entries[0].term {
            let rest = entries.drop_first();
            lemma_merge_places(base, rest, start + 1);
            assert(m.take(start) =~= base.take(start)) by {
                assert forall|k: int| 0 <= k < start implies m[k] == base[k] by {
                    assert(m.take(start + 1)[k] == base.take(start + 1)[k]);
                }
            }
            assert forall|i: int| 0 <= i < entries.len() implies (#[trigger] m[start + i]).term
                == entries[i].term by {
                if i == 0 {
                    assert(m.take(start + 1)[start] == base.take(start + 1)[start]);
                } else {
                    assert(m[start + 1 + (i - 1)].term == rest[i - 1].term);
                }
            }
        } else {
            assert(m.take(start) =~= base.take(start));
        }
    } else {
        assert(m.take(start) =~= base.take(start));
    }
}

/// Placing entries that the log already holds, each at its position with
/// its term, changes nothing.
pub proof fn lemma_merge_already_there(log: Seq<LogEntry>, entries: Seq<LogEntry>, start: int)
    requires
        0 <= start,
        start + entries.len() <= log.len(),
        forall|i: int| 0 <= i < entries.len() ==> (#[trigger] log[start + i]).term == entries[i].term,
    ensures
        merge_entries(log, entries, start) == log,
    decreases entries.len(),
{
    if entries.len() > 0 {
        assert(log[start + 0].term == entries[0].term);
        let rest = entries.drop_first();
        assert forall|i: int| 0 <= i < rest.len() implies (#[trigger] log[start + 1 + i]).term
            == rest[i].term by {
            assert(log[start + (i + 1)].term == entries[i + 1].term);
        }
        lemma_merge_already_there(log, rest, start + 1);
    }
}

/// Accepts `entries` after the entry at `prev_index` (counted from 1), as
/// `extended_log` says, and reports a conflict there as `conflict_report`
/// says.
pub fn accept_entries(
    log: &mut Vec<LogEntry>,
    entries: Vec<LogEntry>,
    prev_index: u32,
    prev_term: u32,
) -> (report: (Option<u32>, Option<u32>))
    requires
        1 <= prev_index,
        prev_index - 1 < old(log)@.len(),
        old(log)@.len() + entries@.len() <= u32::MAX,
    ensures
        final(log)@ == extended_log(old(log)@, entries@, prev_index, prev_term),
        report == conflict_report(old(log)@, prev_index, prev_term),
{
    let mut entries = entries;
    let p = (prev_index - 1) as usize;
    let ghost old_log = log@;
    let mut report: (Option<u32>, Option<u32>) = (None, None);
    let start: usize;
    if log[p].term != prev_term {
        let t = log[p].term;
        let mut j: usize = 0;
        while j < p && log[j].term != t
            invariant
                j <= p,
                p < log@.len(),
                log@ == old_log,
                log@[p as int].term == t,
                first_of_term(log@, t, 0) == first_of_term(log@, t, j as int),
            decreases p - j,
        {
            j = j + 1;
        }
        proof {
            lemma_first_of_term_bound(log@, t, j as int, p as int);
        }
        report = (Some(t), Some((j + 1) as u32));
        log.truncate(p);
        start = p;
    } else {
        start = p + 1;
    }
    let ghost base = log@;
    let ghost all = entries@;
    let len = log.len();
    let mut i: usize = 0;
    let mut stop = false;
    proof {
        assert(entries@.skip(0) =~= entries@);
    }
    while !stop && i < entries.len()
        invariant
            log@ == base,
            entries@ == all,
            len == base.len(),
            start <= base.len(),
            i <= entries@.len(),
            start + i <= base.len(),
            stop ==> i < entries@.len() && (start + i >= base.len() || base[start + i].term
                != entries@[i as int].term),
            merge_entries(base, entries@, start as int) == merge_entries(
                base,
                entries@.skip(i as int),
                start + i,
            ),
        decreases entries@.len() - i + (if stop { 0int } else { 1int }),
    {
        if start + i < len && log[start + i].term == entries[i].term {
            proof {
                assert(entries@.skip(i as int).drop_first() =~= entries@.skip(i as int + 1));
            }
            i = i + 1;
        } else {
            stop = true;
        }
    }
    if i < entries.len() {
        log.truncate(start + i);
        let mut rest = entries.split_off(i);
        log.append(&mut rest);
        proof {
            assert(log@ =~= base.take(start + i) + all.skip(i as int));
        }
    } else {
        proof {
            assert(entries@.skip(i as int) =~= Seq::<LogEntry>::empty());
        }
    }
    proof {
        assert(old_log == old(log)@);
    }
    report
}

/// The log that accepted entries leave is no longer than the old log and
/// the new entries together.
pub proof fn lemma_extended_len(log: Seq<LogEntry>, entries: Seq<LogEntry>, prev_index: u32, prev_term: u32)
    requires
        1 <= prev_index,
        prev_index - 1 < log.len(),
    ensures
        extended_log(log, entries, prev_index, prev_term).len() <= log.len() + entries.len(),
{
    let p = prev_index - 1;
    if conflicts(log, prev_index, prev_term) {
        lemma_merge_places(log.take(p), entries, p);
    } else {
        lemma_merge_places(log, entries, p + 1);
    }
}

/// Placing entries that agree in term with every entry the log holds at
/// their positions keeps the whole log and adds the entries past its end.
pub proof fn lemma_merge_matching(base: Seq<LogEntry>, entries: Seq<LogEntry>, start: int)
    requires
        0 <= start <= base.len(),
        forall|i: int|
            0 <= i < entries.len() && start + i < base.len() ==> (#[trigger] base[start + i]).term
                == entries[i].term,
    ensures
        merge_entries(base, entries, start) == if start + entries.len() <= base.len() {
            base
        } else {
            base + entries.skip(base.len() - start)
        },
    decreases entries.len(),
{
    if entries.len() > 0 {
        if start < base.len() {
            assert(base[start + 0].term == entries[0].term);
            let rest = entries.drop_first();
            assert forall|i: int| 0 <= i < rest.len() && start + 1 + i < base.len() implies (
            #[trigger] base[start + 1 + i]).term == rest[i].term by {
                assert(base[start + (i + 1)].term == entries[i + 1].term);
            }
            lemma_merge_matching(base, rest, start + 1);
            if start + entries.len() > base.len() {
                assert(rest.skip(base.len() - (start + 1)) =~= entries.skip(base.len() - start));
            }
        } else {
            assert(base.take(start) =~= base);
            assert(entries.skip(0) =~= entries);
        }
    }
}

/// Where accepted entries go: right after the entry at `prev_index`
/// (counted from 1), or at it when its term is not `prev_term`.
pub open spec fn entries_start(log: Seq<LogEntry>, prev_index: u32, prev_term: u32) -> int {
    if conflicts(log, prev_index, prev_term) {
        prev_index - 1
    } else {
        prev_index as int
    }
}

/// Accepted entries keep the log before `entries_start` and put an entry of
/// each new entry's term in its place.
pub proof fn lemma_extended_places(
    log: Seq<LogEntry>,
    entries: Seq<LogEntry>,
    prev_index: u32,
    prev_term: u32,
)
    requires
        1 <= prev_index,
        prev_index - 1 < log.len(),
    ensures
        ({
            let e = extended_log(log, entries, prev_index, prev_term);
            let start = entries_start(log, prev_index, prev_term);
            &&& e.len() >= start + entries.len()
            &&& e.take(start) == log.take(start)
            &&& forall|i: int|
                0 <= i < entries.len() ==> (#[trigger] e[start + i]).term == entries[i].term
        }),
{
    let p = prev_index - 1;
    let e = extended_log(log, entries, prev_index, prev_term);
    if conflicts(log, prev_index, prev_term) {
        lemma_merge_places(log.take(p), entries, p);
        assert(log.take(p).take(p) =~= log.take(p));
    } else {
        lemma_merge_places(log, entries, p + 1);
    }
    let start = entries_start(log, prev_index, prev_term);
    assert forall|i: int| 0 <= i < entries.len() implies (#[trigger] e[start + i]).term
        == entries[i].term by {
        if conflicts(log, prev_index, prev_term) {
            assert(merge_entries(log.take(p), entries, p)[p + i].term == entries[i].term);
        } else {
            assert(merge_entries(log, entries, p + 1)[p + 1 + i].term == entries[i].term);
        }
    }
}

/// Accepting again, into the log that accepting entries without a term
/// mismatch left, the same entries finds no mismatch and changes nothing.
pub proof fn lemma_extended_replay(
    log: Seq<LogEntry>,
    entries: Seq<LogEntry>,
    prev_index: u32,
    prev_term: u32,
)
    requires
        1 <= prev_index,
        prev_index - 1 < log.len(),
        !conflicts(log, prev_index, prev_term),
    ensures
        ({
            let e = extended_log(log, entries, prev_index, prev_term);
            &&& prev_index - 1 < e.len()
            &&& !conflicts(e, prev_index, prev_term)
            &&& extended_log(e, entries, prev_index, prev_term) == e
            &&& conflict_report(e, prev_index, prev_term) == conflict_report(
                log,
                prev_index,
                prev_term,
            )
        }),
{
    let p = prev_index - 1;
    let e = extended_log(log, entries, prev_index, prev_term);
    lemma_extended_places(log, entries, prev_index, prev_term);
    assert(e.take(p + 1)[p as int] == log.take(p + 1)[p as int]);
    assert forall|i: int| 0 <= i < entries.len() implies (#[trigger] e[p + 1 + i]).term
        == entries[i].term by {
        assert(e[(p + 1) + i].term == entries[i].term);
    }
    lemma_merge_already_there(e, entries, p + 1);
}

/// The commit index once the leader's is `leader_commit` and the log has
/// `log_len` entries: raised to the leader's, but not past the log.
pub open spec fn raised_commit(commit: u32, leader_commit: u32, log_len: int) -> u32 {
    if leader_commit > commit {
        if leader_commit <= log_len {
            leader_commit
        } else {
            log_len as u32
        }
    } else {
        commit
    }
}

/// The answer of a node in state `s` to the entries `entries` accepted after
/// position `prev_index`, of term `prev_term`, at a term it shares: success,
/// with a conflict reported as `conflict_report` says when the terms at
/// `prev_index` differ.
pub open spec fn accepted(
    s: ServiceModel,
    entries: Seq<LogEntry>,
    prev_index: u32,
    prev_term: u32,
    leader_commit: u32,
) -> (ServiceModel, AppendEntriesResult) {
    let new_log = extended_log(s.log, entries, prev_index, prev_term);
    let report = conflict_report(s.log, prev_index, prev_term);
    (
        ServiceModel {
            log: new_log,
            commitIndex: raised_commit(s.commitIndex, leader_commit, new_log.len() as int),
            ..s
        },
        AppendEntriesResult {
            term: s.currentTerm,
            success: true,
            conflictingEntryTerm: report.0,
            conflictingFirstIndex: report.1,
        },
    )
}

/// What AppendEntries of term `term` does to a node in state `s`: a call of
/// another term is refused, one of a newer term first making the node a
/// follower of that term; one whose `prev_index` is past the log is refused;
/// otherwise the entries are accepted.
pub open spec fn answer_append(
    s: ServiceModel,
    term: u32,
    prev_index: u32,
    prev_term: u32,
    entries: Seq<LogEntry>,
    leader_commit: u32,
) -> (ServiceModel, AppendEntriesResult) {
    if s.currentTerm != term {
        if s.currentTerm < term {
            (
                ServiceModel { state: NodeState::Follower, currentTerm: term, ..s },
                refusal(s.currentTerm),
            )
        } else {
            (s, refusal(s.currentTerm))
        }
    } else if prev_index - 1 >= s.log.len() {
        (s, refusal(s.currentTerm))
    } else {
        accepted(s, entries, prev_index, prev_term, leader_commit)
    }
}

/// Whether a node in state `s` grants the vote `args` requests: the request
/// is not of an older term, the node has not voted, and it holds an entry of
/// term `lastLogTerm` at `lastLogIndex`.
pub open spec fn grants_vote(s: ServiceModel, args: RequestVote) -> bool {
    &&& s.currentTerm <= args.term
    &&& s.votedFor is None
    &&& args.lastLogIndex - 1 < s.log.len()
    &&& s.log[args.lastLogIndex - 1].term == args.lastLogTerm
}

/// What a vote request does to a node in state `s`: a granted vote records
/// the candidate.
pub open spec fn answer_vote(s: ServiceModel, args: RequestVote) -> (ServiceModel, RequestVoteResult) {
    if grants_vote(s, args) {
        (
            ServiceModel { votedFor: Some(args.candidateId), ..s },
            RequestVoteResult { term: s.currentTerm, voteGranted: true },
        )
    } else {
        (s, RequestVoteResult { term: s.currentTerm, voteGranted: false })
    }
}

impl RaftService {
    /// A follower at term 1 with an empty log, whose election timeout is
    /// drawn from `150..300`.
    pub fn new(id: u32) -> (s: Self)
        ensures
            150 <= s@.timeout < 300,
            s@ == fresh_service(id, s@.timeout),
    {
        let t = random_in(150, 300) as u64;
        Self::with_timeout(id, t)
    }

    /// A follower at term 1 with an empty log and the election timeout
    /// `timeout`.
    pub fn with_timeout(id: u32, timeout: u64) -> (s: Self)
        ensures
            s@ == fresh_service(id, timeout),
    {
        RaftService {
            _id: id,
            currentTerm: 1,
            votedFor: None,
            log: Vec::new(),
            commitIndex: 0,
            lastApplied: 0,
            nextIndex: 1,
            matchIndex: 1,
            state: NodeState::Follower,
            timeout,
        }
    }

    /// Answers an AppendEntries call. A call of another term is refused (one
    /// of a newer term first makes the node a follower of that term); one
    /// whose `prevLogIndex` is past the log is refused; otherwise the log is
    /// repaired on a term mismatch (the entry at `prevLogIndex` and all after
    /// it deleted, the mismatching term and its first index reported),
    /// extended by the entries not already in it, and the commit index raised
    /// towards the leader's.
    pub fn append_entries(&mut self, args: AppendEntries) -> (result: AppendEntriesResult)
        requires
            old(self)@.currentTerm == args.term ==> args.prevLogIndex >= 1,
            old(self)@.log.len() + args.entries@.len() <= u32::MAX,
        ensures
            (final(self)@, result) == answer_append(
                old(self)@,
                args.term,
                args.prevLogIndex,
                args.prevLogTerm,
                args.entries@,
                args.leaderCommit,
            ),
    {
        let mut args = args;
        let mut result = AppendEntriesResult {
            term: self.currentTerm,
            success: false,
            conflictingEntryTerm: None,
            conflictingFirstIndex: None,
        };
        if self.currentTerm != args.term {
            if self.currentTerm < args.term {
                // A newer term: step down and follow it.
                self.state = NodeState::Follower;
                self.currentTerm = args.term;
            }
            return result;
        }
        let prev = (args.prevLogIndex - 1) as usize;
        if prev < self.log.len() {
            let mut entries: Vec<LogEntry> = Vec::new();
            std::mem::swap(&mut entries, &mut args.entries);
            proof {
                lemma_extended_len(self.log@, entries@, args.prevLogIndex, args.prevLogTerm);
            }
            let report = accept_entries(&mut self.log, entries, args.prevLogIndex, args.prevLogTerm);
            result.conflictingEntryTerm = report.0;
            result.conflictingFirstIndex = report.1;
            result.success = true;
        } else {
            return result;
        }
        if args.leaderCommit > self.commitIndex {
            let len = self.log.len() as u32;
            self.commitIndex = if args.leaderCommit <= len {
                args.leaderCommit
            } else {
                len
            };
        }
        result
    }

    /// Answers a vote request: a request of an older term is refused; the
    /// vote goes to the candidate when the node has not voted and holds an
    /// entry of term `lastLogTerm` at `lastLogIndex`.
    pub fn request_vote(&mut self, args: RequestVote) -> (result: RequestVoteResult)
        requires
            old(self)@.currentTerm <= args.term ==> args.lastLogIndex >= 1,
        ensures
            (final(self)@, result) == answer_vote(old(self)@, args),
    {
        let mut result = RequestVoteResult { term: self.currentTerm, voteGranted: false };
        if self.currentTerm > args.term {
            return result;
        }
        let last = (args.lastLogIndex - 1) as usize;
        if self.votedFor.is_none() && last < self.log.len() && self.log[last].term
            == args.lastLogTerm {
            result.voteGranted = true;
            self.votedFor = Some(args.candidateId);
        }
        result
    }

    #[allow(non_snake_case)]
    pub fn becomeLeader(&mut self)
        ensures
            final(self)@ == (ServiceModel { state: NodeState::Leader, ..old(self)@ }),
    {
        self.state = NodeState::Leader;
    }

    #[allow(non_snake_case)]
    pub fn becomeFollower(&mut self)
        ensures
            final(self)@ == (ServiceModel { state: NodeState::Follower, ..old(self)@ }),
    {
        self.state = NodeState::Follower;
    }

    #[allow(non_snake_case)]
    pub fn becomeCandidate(&mut self)
        ensures
            final(self)@ == (ServiceModel { state: NodeState::Candidate, ..old(self)@ }),
    {
        self.state = NodeState::Candidate;
    }
}

/// AppendEntries never lowers a node's term, and a call it refuses leaves the
/// log and commit index as they were.
pub proof fn law_append_keeps_term_order(
    s: ServiceModel,
    term: u32,
    prev_index: u32,
    prev_term: u32,
    entries: Seq<LogEntry>,
    leader_commit: u32,
)
    ensures
        ({
            let (next, r) = answer_append(s, term, prev_index, prev_term, entries, leader_commit);
            &&& next.currentTerm >= s.currentTerm
            &&& r.term == s.currentTerm
            &&& !r.success ==> next.log == s.log && next.commitIndex == s.commitIndex
        }),
{
}

/// An AppendEntries call that succeeds keeps the log before the place where
/// its entries go (right after `prevLogIndex`, or at it when that entry's
/// term differed), and puts there an entry of each new entry's term, in order.
pub proof fn law_accepted_entries_placed(
    s: ServiceModel,
    term: u32,
    prev_index: u32,
    prev_term: u32,
    entries: Seq<LogEntry>,
    leader_commit: u32,
)
    requires
        1 <= prev_index,
    ensures
        ({
            let (next, r) = answer_append(s, term, prev_index, prev_term, entries, leader_commit);
            let start = entries_start(s.log, prev_index, prev_term);
            r.success ==> {
                &&& next.log.len() >= start + entries.len()
                &&& next.log.take(start) == s.log.take(start)
                &&& forall|i: int|
                    0 <= i < entries.len() ==> (#[trigger] next.log[start + i]).term
                        == entries[i].term
            }
        }),
{
    let (next, r) = answer_append(s, term, prev_index, prev_term, entries, leader_commit);
    if r.success {
        lemma_extended_places(s.log, entries, prev_index, prev_term);
    }
}

/// Repeating an AppendEntries call that succeeded without a term mismatch
/// changes nothing more and gets the same answer: entries already in the log
/// are not added again.
pub proof fn law_append_replay(
    s: ServiceModel,
    term: u32,
    prev_index: u32,
    prev_term: u32,
    entries: Seq<LogEntry>,
    leader_commit: u32,
)
    requires
        1 <= prev_index,
        s.log.len() + entries.len() <= u32::MAX,
    ensures
        ({
            let (next, r) = answer_append(s, term, prev_index, prev_term, entries, leader_commit);
            r.success && r.conflictingEntryTerm is None ==> answer_append(
                next,
                term,
                prev_index,
                prev_term,
                entries,
                leader_commit,
            ) == (next, r)
        }),
{
    let (next, r) = answer_append(s, term, prev_index, prev_term, entries, leader_commit);
    if r.success && r.conflictingEntryTerm is None {
        lemma_extended_replay(s.log, entries, prev_index, prev_term);
        lemma_extended_len(s.log, entries, prev_index, prev_term);
    }
}

/// A node grants at most one vote: once it has voted, every request is
/// refused and changes nothing; a granted vote goes to the candidate that
/// asked.
pub proof fn law_single_vote(s: ServiceModel, args: RequestVote)
    ensures
        s.votedFor is Some ==> answer_vote(s, args) == (s, RequestVoteResult {
            term: s.currentTerm,
            voteGranted: false,
        }),
        answer_vote(s, args).1.voteGranted ==> answer_vote(s, args).0.votedFor == Some(
            args.candidateId,
        ),
        answer_vote(s, args).0.currentTerm == s.currentTerm,
{
}

/// Accepting entries after a matching entry at `prev_index`, where each new
/// entry agrees in term with the entry the log already holds at its place,
/// deletes nothing: every stored entry stays where it was, and only the new
/// entries past the end of the log are added.
pub proof fn law_matching_entries_keep_log(
    log: Seq<LogEntry>,
    entries: Seq<LogEntry>,
    prev_index: u32,
    prev_term: u32,
)
    requires
        1 <= prev_index <= log.len(),
        log[prev_index - 1].term == prev_term,
        forall|i: int|
            0 <= i < entries.len() && prev_index + i < log.len() ==> (#[trigger] log[prev_index
                + i]).term == entries[i].term,
    ensures
        ({
            let e = extended_log(log, entries, prev_index, prev_term);
            &&& e.len() == if prev_index + entries.len() > log.len() {
                prev_index + entries.len()
            } else {
                log.len() as int
            }
            &&& forall|j: int| 0 <= j < log.len() ==> #[trigger] e[j] == log[j]
            &&& forall|i: int|
                0 <= i < entries.len() && prev_index + i >= log.len() ==> #[trigger] e[prev_index
                    + i] == entries[i]
        }),
{
    let p = prev_index as int;
    assert forall|i: int| 0 <= i < entries.len() && p + i < log.len() implies (#[trigger] log[p
        + i]).term == entries[i].term by {
        assert(log[prev_index + i].term == entries[i].term);
    }
    lemma_merge_matching(log, entries, p);
    let e = extended_log(log, entries, prev_index, prev_term);
    if p + entries.len() > log.len() {
        assert forall|i: int| 0 <= i < entries.len() && prev_index + i >= log.len() implies #[trigger] e[prev_index
            + i] == entries[i] by {
            assert(e[prev_index + i] == entries.skip(log.len() - p)[p + i - log.len()]);
        }
    }
}

/// An AppendEntries call of the node's term, after a matching entry at
/// `prevLogIndex`, with new entries that agree in term with those already
/// stored at their places, succeeds without a conflict and keeps every entry
/// of the log.
pub proof fn law_matching_append_keeps_log(
    s: ServiceModel,
    prev_index: u32,
    prev_term: u32,
    entries: Seq<LogEntry>,
    leader_commit: u32,
)
    requires
        1 <= prev_index <= s.log.len(),
        s.log[prev_index - 1].term == prev_term,
        forall|i: int|
            0 <= i < entries.len() && prev_index + i < s.log.len() ==> (#[trigger] s.log[prev_index
                + i]).term == entries[i].term,
    ensures
        ({
            let (next, r) = answer_append(
                s,
                s.currentTerm,
                prev_index,
                prev_term,
                entries,
                leader_commit,
            );
            &&& r.success
            &&& r.conflictingEntryTerm is None
            &&& next.log.len() >= s.log.len()
            &&& next.log.take(s.log.len() as int) == s.log
        }),
{
    law_matching_entries_keep_log(s.log, entries, prev_index, prev_term);
    let (next, r) = answer_append(s, s.currentTerm, prev_index, prev_term, entries, leader_commit);
    assert(next.log.take(s.log.len() as int) =~= s.log);
}

/// A vote is granted only to a request of a term not older than the node's,
/// while the node has not voted, and when the node holds an entry of term
/// `lastLogTerm` at `lastLogIndex`; a request whose `lastLogIndex` is past
/// the log, or whose `lastLogTerm` differs from the term stored there, is
/// refused and changes nothing.
pub proof fn law_vote_needs_matching_entry(s: ServiceModel, args: RequestVote)
    requires
        args.lastLogIndex >= 1,
    ensures
        answer_vote(s, args).1.voteGranted ==> {
            &&& s.currentTerm <= args.term
            &&& s.votedFor is None
            &&& args.lastLogIndex <= s.log.len()
            &&& s.log[args.lastLogIndex - 1].term == args.lastLogTerm
        },
        (args.lastLogIndex > s.log.len() || s.log[args.lastLogIndex - 1].term != args.lastLogTerm)
            ==> !answer_vote(s, args).1.voteGranted && answer_vote(s, args).0 == s,
{
}

} // verus!
