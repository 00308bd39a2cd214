pub mod laws;
pub mod quorum;
pub mod types;

use rand::Rng;
use std::collections::HashMap;
use vstd::prelude::*;
use vstd::std_specs::iter::IteratorSpec;
use vstd::string::StringExecFns;

use crate::error::KvError;
use crate::storage::{apply_to, KvMap, Storage, StorageCommand};
use self::quorum::{lemma_map_values_same_multiset, lemma_same_elements_same_multiset, lemma_same_multiset_same_sort, majority_value, sorted_copy};
use self::types::{AppendEntriesRequest, AppendEntriesResponse, Config, LogEntry, LogIndex, NodeId, NodeState, RequestVoteRequest, RequestVoteResponse, Term};

verus! {

broadcast use vstd::std_specs::hash::group_hash_axioms;

/// What the leader knows of one follower's log: the next index to send it and
/// the highest index known to be replicated on it.
#[derive(Debug, Clone, Copy, PartialEq, Eq, Structural)]
pub struct FollowerState {
    pub next_index: LogIndex,
    pub match_index: LogIndex,
}

/// One node of the cluster: its Raft state, its log and the store that
/// committed entries are applied to.
pub struct RaftNode {
    pub id: NodeId,
    config: Config,
    state: NodeState,
    current_term: Term,
    voted_for: Option<NodeId>,
    log: Vec<LogEntry>,
    commit_index: LogIndex,
    last_applied: LogIndex,
    leader_id: Option<NodeId>,
    storage: Storage,
    election_timer: Option<u64>,
    follower_states: HashMap<NodeId, FollowerState>,
}

/// The abstract state of a node. `election_timer` is the time, in
/// milliseconds, at which the election timer was last reset.
#[verifier::ext_equal]
pub struct RaftNodeView {
    pub id: NodeId,
    pub config: Config,
    pub state: NodeState,
    pub current_term: Term,
    pub voted_for: Option<NodeId>,
    pub log: Seq<LogEntry>,
    pub commit_index: LogIndex,
    pub last_applied: LogIndex,
    pub leader_id: Option<NodeId>,
    pub store: KvMap,
    pub election_timer: Option<u64>,
    pub followers: Map<NodeId, FollowerState>,
}

impl View for RaftNode {
    type V = RaftNodeView;

    closed spec fn view(&self) -> RaftNodeView {
        RaftNodeView {
            id: self.id,
            config: self.config,
            state: self.state,
            current_term: self.current_term,
            voted_for: self.voted_for,
            log: self.log@,
            commit_index: self.commit_index,
            last_applied: self.last_applied,
            leader_id: self.leader_id,
            store: self.storage@,
            election_timer: self.election_timer,
            followers: self.follower_states@,
        }
    }
}

/// The term of the last entry of a log, 0 for an empty log.
pub open spec fn last_log_term(log: Seq<LogEntry>) -> Term {
    if log.len() == 0 {
        0
    } else {
        log.last().term
    }
}

/// A candidate's log is at least as up to date as `log`: its last term is
/// later, or the same with at least as many entries.
pub open spec fn candidate_log_up_to_date(req: RequestVoteRequest, log: Seq<LogEntry>) -> bool {
    ||| req.last_log_term > last_log_term(log)
    ||| (req.last_log_term == last_log_term(log) && req.last_log_index >= log.len())
}

/// How a node answers a vote request at time `now`.
pub open spec fn request_vote_step(s: RaftNodeView, req: RequestVoteRequest, now: u64) -> (RaftNodeView, RequestVoteResponse) {
    if req.term < s.current_term {
        (s, RequestVoteResponse { term: s.current_term, vote_granted: false })
    } else {
        let s1 = if req.term > s.current_term {
            RaftNodeView { current_term: req.term, voted_for: None, state: NodeState::Follower, leader_id: None, ..s }
        } else {
            s
        };
        let can_vote = match s1.voted_for {
            None => true,
            Some(n) => n == req.candidate_id,
        };
        if can_vote && candidate_log_up_to_date(req, s1.log) {
            (
                RaftNodeView { voted_for: Some(req.candidate_id), election_timer: Some(now), ..s1 },
                RequestVoteResponse { term: s1.current_term, vote_granted: true },
            )
        } else {
            (s1, RequestVoteResponse { term: s1.current_term, vote_granted: false })
        }
    }
}

/// How a node handles an append request at time `now`: a request of an older
/// term is refused; otherwise the sender is taken as leader, the log is checked
/// against the entry before the new ones (a mismatch cuts the log there), the
/// new entries replace whatever followed that point, and the commit index moves
/// up to the leader's, bounded by the log's length.
pub open spec fn append_entries_step(s: RaftNodeView, req: AppendEntriesRequest, now: u64) -> (RaftNodeView, AppendEntriesResponse) {
    if req.term < s.current_term {
        (s, AppendEntriesResponse { term: s.current_term, success: false })
    } else {
        let s1 = if req.term > s.current_term {
            RaftNodeView { current_term: req.term, voted_for: None, ..s }
        } else {
            s
        };
        let s2 = RaftNodeView {
            election_timer: Some(now),
            leader_id: Some(req.leader_id),
            state: NodeState::Follower,
            ..s1
        };
        let prev = req.prev_log_index;
        let refused = AppendEntriesResponse { term: s2.current_term, success: false };
        if prev > 0 && prev > s2.log.len() {
            (s2, refused)
        } else if prev > 0 && s2.log[prev - 1].term != req.prev_log_term {
            (RaftNodeView { log: s2.log.take(prev - 1), ..s2 }, refused)
        } else {
            let log = if req.entries@.len() > 0 {
                s2.log.take(prev as int) + req.entries@
            } else {
                s2.log
            };
            let commit = if req.leader_commit > s2.commit_index {
                if req.leader_commit <= log.len() {
                    req.leader_commit
                } else {
                    log.len() as u64
                }
            } else {
                s2.commit_index
            };
            (
                RaftNodeView { log, commit_index: commit, ..s2 },
                AppendEntriesResponse { term: s2.current_term, success: true },
            )
        }
    }
}

/// How a leader takes a follower's answer to `req`: a later term makes it step
/// down; a success records how far the follower's log matches; a refusal moves
/// the next index to send one back, not below 1.
pub open spec fn append_response_step(
    s: RaftNodeView,
    peer: NodeId,
    req: AppendEntriesRequest,
    resp: AppendEntriesResponse,
) -> RaftNodeView {
    if s.state != NodeState::Leader {
        s
    } else if resp.term > s.current_term {
        RaftNodeView {
            current_term: resp.term,
            state: NodeState::Follower,
            voted_for: None,
            leader_id: None,
            ..s
        }
    } else if !s.followers.contains_key(peer) {
        s
    } else if resp.success {
        let m = (req.prev_log_index + req.entries@.len()) as u64;
        RaftNodeView {
            followers: s.followers.insert(peer, FollowerState { next_index: (m + 1) as u64, match_index: m }),
            ..s
        }
    } else if s.followers[peer].next_index > 1 {
        let f = s.followers[peer];
        RaftNodeView {
            followers: s.followers.insert(peer, FollowerState { next_index: (f.next_index - 1) as u64, ..f }),
            ..s
        }
    } else {
        s
    }
}


/// The number of votes that wins an election in a cluster of this node and its peers.
pub open spec fn majority(s: RaftNodeView) -> nat {
    (s.config.peers@.len() + 1) / 2 + 1
}

/// What an election's answers show, read in order: a later term (which ends
/// the count), or the number of votes, where counting stops once `needed` is
/// reached.
pub enum VoteCount {
    LaterTerm(Term),
    Votes(nat),
}

pub open spec fn count_votes(
    answers: Seq<Option<RequestVoteResponse>>,
    term: Term,
    votes: nat,
    needed: nat,
) -> VoteCount
    decreases answers.len(),
{
    if answers.len() == 0 {
        VoteCount::Votes(votes)
    } else {
        match answers[0] {
            None => count_votes(answers.drop_first(), term, votes, needed),
            Some(r) => if r.term > term {
                VoteCount::LaterTerm(r.term)
            } else if r.vote_granted && r.term == term {
                if votes + 1 >= needed {
                    VoteCount::Votes(votes + 1)
                } else {
                    count_votes(answers.drop_first(), term, votes + 1, needed)
                }
            } else {
                count_votes(answers.drop_first(), term, votes, needed)
            },
        }
    }
}

/// What a new leader knows of each peer: nothing replicated yet, and the next
/// index to send is the one after its own last entry.
pub open spec fn fresh_followers(peers: Seq<NodeId>, log_len: nat) -> Map<NodeId, FollowerState> {
    Map::new(|p: NodeId| peers.contains(p), |p: NodeId| FollowerState { next_index: (log_len + 1) as u64, match_index: 0 })
}

pub open spec fn become_leader_step(s: RaftNodeView) -> RaftNodeView {
    RaftNodeView {
        state: NodeState::Leader,
        leader_id: Some(s.id),
        followers: fresh_followers(s.config.peers@, s.log.len()),
        ..s
    }
}

/// A node starting an election at time `now`: it becomes a candidate in the
/// next term, votes for itself, restarts its timer, and asks for votes with
/// the position of its last entry.
pub open spec fn start_election_step(s: RaftNodeView, now: u64) -> (RaftNodeView, RequestVoteRequest) {
    let term = (s.current_term + 1) as u64;
    (
        RaftNodeView {
            state: NodeState::Candidate,
            current_term: term,
            voted_for: Some(s.id),
            election_timer: Some(now),
            ..s
        },
        RequestVoteRequest {
            term,
            candidate_id: s.id,
            last_log_index: s.log.len() as u64,
            last_log_term: last_log_term(s.log),
        },
    )
}

/// How the answers to the election for `term` end it: a later term makes the
/// node a follower of that term; a majority, while the node is still the
/// candidate of that term, makes it leader; otherwise nothing changes.
pub open spec fn conclude_election_step(s: RaftNodeView, term: Term, answers: Seq<Option<RequestVoteResponse>>) -> RaftNodeView {
    match count_votes(answers, term, 1, majority(s)) {
        VoteCount::LaterTerm(t) => RaftNodeView {
            current_term: t,
            state: NodeState::Follower,
            voted_for: None,
            ..s
        },
        VoteCount::Votes(v) => if v >= majority(s) && s.state == NodeState::Candidate && s.current_term == term {
            become_leader_step(s)
        } else {
            s
        },
    }
}

/// An election is due when no timer was ever started, or when at least
/// `timeout_ms` have passed since it was last reset (no time has passed if
/// `now_ms` is earlier).
pub open spec fn election_due_spec(last_reset: Option<u64>, now_ms: u64, timeout_ms: u64) -> bool {
    match last_reset {
        None => true,
        Some(t) => (if now_ms >= t { now_ms - t } else { 0 }) >= timeout_ms,
    }
}

/// Whether an election is due, given when the timer was last reset, the time
/// now, and the timeout drawn for this check.
pub fn election_due(last_reset: Option<u64>, now_ms: u64, timeout_ms: u64) -> (r: bool)
    ensures
        r == election_due_spec(last_reset, now_ms, timeout_ms),
{
    match last_reset {
        None => true,
        Some(t) => now_ms.saturating_sub(t) >= timeout_ms,
    }
}

/// `rand::Rng::gen_range` on `rand::thread_rng()` over `lo..=hi`: a number
/// drawn at random between `lo` and `hi`, both included.
#[verifier::external_body]
fn random_between(lo: u64, hi: u64) -> (r: u64)
    requires
        lo <= hi,
    ensures
        lo <= r <= hi,
{
    rand::thread_rng().gen_range(lo..=hi)
}

/// `ids` lists each element of `dom` exactly once.
pub open spec fn enumerates(ids: Seq<NodeId>, dom: Set<NodeId>) -> bool {
    ids.no_duplicates() && ids.to_set() == dom
}

/// The match indices of the followers listed in `ids`, in that order.
pub open spec fn match_indices(followers: Map<NodeId, FollowerState>, ids: Seq<NodeId>) -> Seq<u64> {
    ids.map_values(match_index_of(followers))
}

/// A follower's match index.
pub open spec fn match_index_of(followers: Map<NodeId, FollowerState>) -> spec_fn(NodeId) -> u64 {
    |p: NodeId| followers[p].match_index
}

/// The highest index that a majority of the cluster holds: the majority value
/// of the followers' match indices together with the leader's own log length.
pub open spec fn quorum_index(followers: Map<NodeId, FollowerState>, leader_len: u64) -> u64 {
    let ids = choose|ids: Seq<NodeId>| enumerates(ids, followers.dom());
    majority_value(match_indices(followers, ids).push(leader_len))
}

/// The quorum index does not depend on the order in which followers are listed.
pub proof fn lemma_quorum_index_any_order(followers: Map<NodeId, FollowerState>, ids: Seq<NodeId>, leader_len: u64)
    requires
        enumerates(ids, followers.dom()),
    ensures
        quorum_index(followers, leader_len) == majority_value(match_indices(followers, ids).push(leader_len)),
{
    let chosen = choose|ids: Seq<NodeId>| enumerates(ids, followers.dom());
    assert(enumerates(chosen, followers.dom()));
    lemma_same_elements_same_multiset(ids, chosen);
    lemma_map_values_same_multiset(ids, chosen, match_index_of(followers));
    let a = match_indices(followers, ids);
    let b = match_indices(followers, chosen);
    vstd::seq_lib::to_multiset_build(a, leader_len);
    vstd::seq_lib::to_multiset_build(b, leader_len);
    assert(a.push(leader_len).to_multiset() == b.push(leader_len).to_multiset());
    lemma_same_multiset_same_sort(a.push(leader_len), b.push(leader_len));
    vstd::seq_lib::to_multiset_len(ids);
    vstd::seq_lib::to_multiset_len(chosen);
    assert(quorum_index(followers, leader_len) == majority_value(b.push(leader_len)));
}

/// A leader commits the quorum index when it is past the commit index, within
/// its log, and holds an entry of the current term.
pub open spec fn commit_step(s: RaftNodeView) -> RaftNodeView {
    let n = quorum_index(s.followers, s.log.len() as u64);
    if n > s.commit_index && n > 0 && n <= s.log.len() && s.log[n - 1].term == s.current_term {
        RaftNodeView { commit_index: n, ..s }
    } else {
        s
    }
}

/// `req` is what the leader `s` sends to `peer`: everything of its log from the
/// follower's next index on, after the entry before it.
pub open spec fn append_request_for(s: RaftNodeView, peer: NodeId, req: AppendEntriesRequest) -> bool {
    let f = s.followers[peer];
    let prev = if f.next_index > 0 { (f.next_index - 1) as u64 } else { 0 };
    &&& req.term == s.current_term
    &&& req.leader_id == s.id
    &&& req.prev_log_index == prev
    &&& req.prev_log_term == (if prev > 0 && prev - 1 < s.log.len() { s.log[prev - 1].term } else { 0 })
    &&& req.entries@ == (if f.next_index > 0 && f.next_index - 1 < s.log.len() {
        s.log.skip(f.next_index - 1)
    } else {
        Seq::empty()
    })
    &&& req.leader_commit == s.commit_index
}

/// The store after one entry's command.
pub open spec fn apply_entry(m: KvMap, e: LogEntry) -> KvMap {
    apply_to(m, e.command.key_view(), e.command.value_view())
}

/// The store after the entries' commands, in order.
pub open spec fn apply_entries(m: KvMap, es: Seq<LogEntry>) -> KvMap {
    es.fold_left(m, |acc: KvMap, e: LogEntry| apply_entry(acc, e))
}

/// An entry's client id.
pub open spec fn client_id_of() -> spec_fn(LogEntry) -> u128 {
    |e: LogEntry| e.client_id
}

/// The committed entries not yet applied that the log holds.
pub open spec fn entries_to_apply(s: RaftNodeView) -> Seq<LogEntry> {
    if s.commit_index > s.last_applied && s.last_applied < s.log.len() {
        let hi = if s.commit_index <= s.log.len() { s.commit_index as int } else { s.log.len() as int };
        s.log.subrange(s.last_applied as int, hi)
    } else {
        Seq::empty()
    }
}

/// Applying what was committed: the store takes those entries' commands and
/// the applied index catches up with the commit index.
pub open spec fn apply_step(s: RaftNodeView) -> RaftNodeView {
    if s.commit_index > s.last_applied {
        RaftNodeView {
            store: apply_entries(s.store, entries_to_apply(s)),
            last_applied: s.commit_index,
            ..s
        }
    } else {
        s
    }
}

/// A leader taking a write of `value` under `key` for client `id`: it appends
/// an entry of its current term at the next index.
pub open spec fn propose_step(s: RaftNodeView, key: String, value: String, id: u128) -> RaftNodeView {
    RaftNodeView {
        log: s.log.push(LogEntry {
            index: (s.log.len() + 1) as u64,
            term: s.current_term,
            command: StorageCommand { key, value: Some(value) },
            client_id: id,
        }),
        ..s
    }
}

/// `uuid::Uuid::new_v4`, as a number: a fresh random identifier.
#[verifier::external_body]
fn new_client_id() -> (r: u128) {
    uuid::Uuid::new_v4().as_u128()
}

impl RaftNode {
    /// A follower in term 0 with an empty log, no vote, no known leader and an
    /// election timer that has never been reset.
    pub fn new(config: Config, storage: Storage) -> (n: Self)
        ensures
            n@.id == config.node_id,
            n@.config == config,
            n@.state == NodeState::Follower,
            n@.current_term == 0,
            n@.voted_for is None,
            n@.log.len() == 0,
            n@.commit_index == 0,
            n@.last_applied == 0,
            n@.leader_id is None,
            n@.store == storage@,
            n@.election_timer is None,
            n@.followers.dom().is_empty(),
    {
        RaftNode {
            id: config.node_id,
            config,
            state: NodeState::Follower,
            current_term: 0,
            voted_for: None,
            log: Vec::new(),
            commit_index: 0,
            last_applied: 0,
            leader_id: None,
            storage,
            election_timer: None,
            follower_states: HashMap::new(),
        }
    }

    pub fn get_state(&self) -> (r: NodeState)
        ensures
            r == self@.state,
    {
        self.state
    }

    pub fn get_term(&self) -> (r: Term)
        ensures
            r == self@.current_term,
    {
        self.current_term
    }

    pub fn get_leader_id(&self) -> (r: Option<NodeId>)
        ensures
            r == self@.leader_id,
    {
        self.leader_id
    }

    /// Reads `key` from this node's store; a read never fails.
    pub fn get(&self, key: &str) -> (r: Result<Option<String>, KvError>)
        ensures
            match r {
                Ok(Some(v)) => self@.store.contains_key(key@) && v@ == self@.store[key@],
                Ok(None) => !self@.store.contains_key(key@),
                Err(_) => false,
            },
    {
        Ok(self.storage.get(key))
    }

    /// The address configured for node `id`, if any.
    pub fn get_peer_address(&self, id: NodeId) -> (r: Option<String>)
        ensures
            match r {
                Some(a) => self@.config.peer_addresses@.contains_key(id) && a == self@.config.peer_addresses@[id],
                None => !self@.config.peer_addresses@.contains_key(id),
            },
    {
        match self.config.peer_addresses.get(&id) {
            Some(a) => Some(a.clone()),
            None => None,
        }
    }

    /// Where to send a request for `path` that only the leader can serve: the
    /// known leader's address followed by `path`. With no leader known the
    /// answer is `NoLeaderElected`; with no address for the leader it is
    /// `PeerNotFound` with the leader's id.
    pub fn forward_target(&self, path: &str) -> (r: Result<String, KvError>)
        ensures
            match self@.leader_id {
                None => r matches Err(KvError::NoLeaderElected),
                Some(l) => if self@.config.peer_addresses@.contains_key(l) {
                    r matches Ok(url) && url@ == self@.config.peer_addresses@[l]@ + path@
                } else {
                    r matches Err(KvError::PeerNotFound(id)) && id == l
                },
            },
    {
        match self.leader_id {
            None => Err(KvError::NoLeaderElected),
            Some(leader_id) => match self.get_peer_address(leader_id) {
                Some(address) => {
                    let mut url = address;
                    url.append(path);
                    Ok(url)
                },
                None => Err(KvError::PeerNotFound(leader_id)),
            },
        }
    }

    /// Restarts the election timer at time `now_ms`.
    pub fn reset_election_timer(&mut self, now_ms: u64)
        ensures
            final(self)@ == (RaftNodeView { election_timer: Some(now_ms), ..old(self)@ }),
    {
        self.election_timer = Some(now_ms);
    }

    /// The term of the last entry of the log, 0 when it is empty.
    fn last_log_term(&self) -> (r: Term)
        ensures
            r == last_log_term(self@.log),
    {
        if self.log.len() > 0 {
            self.log[self.log.len() - 1].term
        } else {
            0
        }
    }

    /// Answers a candidate's vote request received at time `now_ms`. The vote is
    /// granted when the request's term is not older than ours, this node has not
    /// voted for another candidate in that term, and the candidate's log is at
    /// least as up to date as ours.
    pub fn handle_request_vote(&mut self, request: RequestVoteRequest, now_ms: u64) -> (r: RequestVoteResponse)
        ensures
            (final(self)@, r) == request_vote_step(old(self)@, request, now_ms),
    {
        if request.term < self.current_term {
            return RequestVoteResponse { term: self.current_term, vote_granted: false };
        }
        if request.term > self.current_term {
            self.current_term = request.term;
            self.voted_for = None;
            self.state = NodeState::Follower;
            self.leader_id = None;
        }
        let can_vote = match self.voted_for {
            None => true,
            Some(node_id) => node_id == request.candidate_id,
        };
        if !can_vote {
            return RequestVoteResponse { term: self.current_term, vote_granted: false };
        }
        let our_last_log_index = self.log.len() as LogIndex;
        let our_last_log_term = self.last_log_term();
        let log_is_up_to_date = request.last_log_term > our_last_log_term || (request.last_log_term
            == our_last_log_term && request.last_log_index >= our_last_log_index);
        if log_is_up_to_date {
            self.voted_for = Some(request.candidate_id);
            self.reset_election_timer(now_ms);
            RequestVoteResponse { term: self.current_term, vote_granted: true }
        } else {
            RequestVoteResponse { term: self.current_term, vote_granted: false }
        }
    }

    /// Handles a leader's append request received at time `now_ms` (see
    /// `append_entries_step`).
    pub fn handle_append_entries(&mut self, request: AppendEntriesRequest, now_ms: u64) -> (r: AppendEntriesResponse)
        ensures
            (final(self)@, r) == append_entries_step(old(self)@, request, now_ms),
    {
        let ghost req = request;
        if request.term < self.current_term {
            return AppendEntriesResponse { term: self.current_term, success: false };
        }
        if request.term > self.current_term {
            self.current_term = request.term;
            self.voted_for = None;
            self.state = NodeState::Follower;
        }
        self.reset_election_timer(now_ms);
        self.leader_id = Some(request.leader_id);
        self.state = NodeState::Follower;

        if request.prev_log_index > 0 {
            if request.prev_log_index > self.log.len() as LogIndex {
                return AppendEntriesResponse { term: self.current_term, success: false };
            }
            let prev = (request.prev_log_index - 1) as usize;
            if self.log[prev].term != request.prev_log_term {
                self.log.truncate(prev);
                return AppendEntriesResponse { term: self.current_term, success: false };
            }
        }
        let AppendEntriesRequest { prev_log_index, entries, leader_commit, .. } = request;
        let mut entries = entries;
        if entries.len() > 0 {
            let start_index = prev_log_index as usize;
            if start_index < self.log.len() {
                self.log.truncate(start_index);
            }
            proof {
                assert(self.log@ =~= old(self)@.log.take(prev_log_index as int));
            }
            self.log.append(&mut entries);
        }
        if leader_commit > self.commit_index {
            let len = self.log.len() as LogIndex;
            self.commit_index = if leader_commit <= len { leader_commit } else { len };
        }
        AppendEntriesResponse { term: self.current_term, success: true }
    }

    /// Takes `peer`'s `response` to the append request `request` (see
    /// `append_response_step`).
    pub fn handle_append_entries_response(
        &mut self,
        peer_id: NodeId,
        request: AppendEntriesRequest,
        response: AppendEntriesResponse,
    )
        requires
            old(self)@.state == NodeState::Leader && response.term <= old(self)@.current_term
                && old(self)@.followers.contains_key(peer_id) && response.success
                ==> request.prev_log_index + request.entries@.len() < u64::MAX,
        ensures
            final(self)@ == append_response_step(old(self)@, peer_id, request, response),
    {
        if self.state != NodeState::Leader {
            return;
        }
        if response.term > self.current_term {
            self.current_term = response.term;
            self.state = NodeState::Follower;
            self.voted_for = None;
            self.leader_id = None;
            return;
        }
        match self.follower_states.get(&peer_id) {
            Some(state) => {
                let state = *state;
                if response.success {
                    let match_index = request.prev_log_index + request.entries.len() as LogIndex;
                    self.follower_states.insert(
                        peer_id,
                        FollowerState { next_index: match_index + 1, match_index },
                    );
                } else if state.next_index > 1 {
                    self.follower_states.insert(
                        peer_id,
                        FollowerState { next_index: state.next_index - 1, ..state },
                    );
                }
            },
            None => {},
        }
    }

    /// An election timeout drawn at random between the configured bounds.
    pub fn random_election_timeout(&self) -> (r: u64)
        requires
            self@.config.election_timeout_min_ms <= self@.config.election_timeout_max_ms,
        ensures
            self@.config.election_timeout_min_ms <= r <= self@.config.election_timeout_max_ms,
    {
        random_between(self.config.election_timeout_min_ms, self.config.election_timeout_max_ms)
    }

    /// Whether this node should start an election at time `now_ms`: never while
    /// it leads; at once when its timer was never started; otherwise when its
    /// timer has run longer than a timeout drawn at random between the
    /// configured bounds. Whatever is drawn, an election is due once the longest
    /// timeout has passed and never before the shortest.
    pub fn should_start_election(&self, now_ms: u64) -> (r: bool)
        requires
            self@.election_timer is Some ==> self@.config.election_timeout_min_ms <= self@.config.election_timeout_max_ms,
        ensures
            r ==> self@.state != NodeState::Leader,
            r ==> election_due_spec(self@.election_timer, now_ms, self@.config.election_timeout_min_ms),
            self@.state != NodeState::Leader && election_due_spec(self@.election_timer, now_ms, self@.config.election_timeout_max_ms) ==> r,
    {
        if self.state == NodeState::Leader {
            return false;
        }
        match self.election_timer {
            None => true,
            Some(last_reset) => {
                let timeout = self.random_election_timeout();
                election_due(Some(last_reset), now_ms, timeout)
            },
        }
    }

    /// When the election timer was last restarted, if ever.
    pub fn last_election_reset(&self) -> (r: Option<u64>)
        ensures
            r == self@.election_timer,
    {
        self.election_timer
    }

    /// Starts an election at time `now_ms` (see `start_election_step`); returns
    /// the vote request and the peers to send it to, in the configured order.
    pub fn start_election(&mut self, now_ms: u64) -> (r: (RequestVoteRequest, Vec<NodeId>))
        requires
            old(self)@.current_term < u64::MAX,
        ensures
            (final(self)@, r.0) == start_election_step(old(self)@, now_ms),
            r.1@ == old(self)@.config.peers@,
    {
        self.state = NodeState::Candidate;
        self.current_term = self.current_term + 1;
        let term = self.current_term;
        self.voted_for = Some(self.id);
        self.reset_election_timer(now_ms);
        let last_log_index = self.log.len() as LogIndex;
        let last_log_term = self.last_log_term();
        let mut peers: Vec<NodeId> = Vec::new();
        let mut i: usize = 0;
        while i < self.config.peers.len()
            invariant
                0 <= i <= self.config.peers@.len(),
                peers@ == self.config.peers@.take(i as int),
            decreases self.config.peers@.len() - i,
        {
            peers.push(self.config.peers[i]);
            proof {
                assert(self.config.peers@.take(i + 1) =~= self.config.peers@.take(i as int).push(self.config.peers@[i as int]));
            }
            i = i + 1;
        }
        assert(self.config.peers@.take(self.config.peers@.len() as int) =~= self.config.peers@);
        (RequestVoteRequest { term, candidate_id: self.id, last_log_index, last_log_term }, peers)
    }

    /// Ends the election for `term` with the peers' answers, in the order they
    /// were asked (`None` where a peer gave none); see `conclude_election_step`.
    pub fn conclude_election(&mut self, term: Term, answers: Vec<Option<RequestVoteResponse>>)
        requires
            old(self)@.log.len() < u64::MAX,
        ensures
            final(self)@ == conclude_election_step(old(self)@, term, answers@),
    {
        let n = self.config.peers.len();
        let needed: usize = n / 2 + n % 2 + 1;
        assert(needed == majority(self@));
        assert(needed < usize::MAX);
        let mut votes: usize = 1;
        let mut i: usize = 0;
        assert(answers@.skip(0) =~= answers@);
        while i < answers.len()
            invariant
                0 <= i <= answers@.len(),
                1 <= votes <= needed + 1,
                votes > needed ==> i == answers@.len(),
                needed == majority(self@),
                needed < usize::MAX,
                self@ == old(self)@,
                count_votes(answers@, term, 1, needed as nat) == count_votes(answers@.skip(i as int), term, votes as nat, needed as nat),
            decreases answers@.len() - i,
        {
            assert(answers@.skip(i as int).drop_first() =~= answers@.skip(i + 1));
            assert(answers@.skip(i as int)[0] == answers@[i as int]);
            match answers[i] {
                Some(response) => {
                    if response.term > term {
                        self.current_term = response.term;
                        self.state = NodeState::Follower;
                        self.voted_for = None;
                        return;
                    }
                    if response.vote_granted && response.term == term {
                        votes = votes + 1;
                        if votes >= needed {
                            assert(answers@.skip(answers@.len() as int) =~= Seq::<Option<RequestVoteResponse>>::empty());
                            i = answers.len();
                        } else {
                            i = i + 1;
                        }
                    } else {
                        i = i + 1;
                    }
                },
                None => {
                    i = i + 1;
                },
            }
        }
        if votes >= needed && self.state == NodeState::Candidate && self.current_term == term {
            self.become_leader();
        }
    }

    /// Takes the lead: every peer starts with nothing replicated and the next
    /// index after the last entry of this node's log.
    fn become_leader(&mut self)
        requires
            old(self)@.log.len() < u64::MAX,
        ensures
            final(self)@ == become_leader_step(old(self)@),
    {
        self.state = NodeState::Leader;
        self.leader_id = Some(self.id);
        let log_len = self.log.len() as LogIndex;
        self.follower_states.clear();
        let mut i: usize = 0;
        while i < self.config.peers.len()
            invariant
                0 <= i <= self.config.peers@.len(),
                log_len == self.log@.len(),
                log_len < u64::MAX,
                self.follower_states@ == fresh_followers(self.config.peers@.take(i as int), self.log@.len()),
                self@ == (RaftNodeView { followers: self@.followers, ..become_leader_step(old(self)@) }),
            decreases self.config.peers@.len() - i,
        {
            let peer_id = self.config.peers[i];
            self.follower_states.insert(peer_id, FollowerState { next_index: log_len + 1, match_index: 0 });
            proof {
                let peers = self.config.peers@;
                assert(peers.take(i + 1) =~= peers.take(i as int).push(peer_id));
                assert forall|p: NodeId| #[trigger] peers.take(i + 1).contains(p) <==> (peers.take(i as int).contains(p) || p == peer_id) by {
                    if peers.take(i + 1).contains(p) {
                        let k = choose|k: int| 0 <= k < peers.take(i + 1).len() && #[trigger] peers.take(i + 1)[k] == p;
                        if k < i {
                            assert(peers.take(i as int)[k] == p);
                        }
                    }
                    if peers.take(i as int).contains(p) {
                        let k = choose|k: int| 0 <= k < peers.take(i as int).len() && #[trigger] peers.take(i as int)[k] == p;
                        assert(peers.take(i + 1)[k] == p);
                    }
                    if p == peer_id {
                        assert(peers.take(i + 1)[i as int] == p);
                    }
                }
                assert(self.follower_states@ =~= fresh_followers(peers.take(i + 1), self.log@.len()));
            }
            i = i + 1;
        }
        assert(self.config.peers@.take(self.config.peers@.len() as int) =~= self.config.peers@);
    }

    /// The ids of the followers this leader tracks, each once.
    fn follower_ids(&self) -> (r: Vec<NodeId>)
        ensures
            enumerates(r@, self@.followers.dom()),
    {
        let mut out: Vec<NodeId> = Vec::new();
        let ghost ks = vstd::std_specs::hash::spec_keys_iter(&self.follower_states).remaining().unref();
        for k in it: self.follower_states.keys()
            invariant
                ks.to_set() == self.follower_states@.dom(),
                ks.no_duplicates(),
                it.seq().unref() == ks,
                out@ == ks.take(it.index() as int),
        {
            out.push(*k);
            proof {
                assert(ks.take(it.index() as int + 1) == ks.take(it.index() as int).push(ks[it.index() as int]));
            }
        }
        proof {
            assert(ks.take(ks.len() as int) == ks);
        }
        out
    }

    /// Commits what a majority of the cluster holds (see `commit_step`).
    fn update_commit_index(&mut self)
        ensures
            final(self)@ == commit_step(old(self)@),
            final(self)@.commit_index >= old(self)@.commit_index,
            final(self)@.commit_index > old(self)@.commit_index ==> {
                &&& final(self)@.commit_index <= final(self)@.log.len()
                &&& final(self)@.log[final(self)@.commit_index - 1].term == final(self)@.current_term
            },
    {
        let log_len = self.log.len() as LogIndex;
        let ids = self.follower_ids();
        let mut match_list: Vec<u64> = Vec::new();
        let mut i: usize = 0;
        while i < ids.len()
            invariant
                0 <= i <= ids@.len(),
                enumerates(ids@, self@.followers.dom()),
                match_list@ == match_indices(self@.followers, ids@.take(i as int)),
            decreases ids@.len() - i,
        {
            let id = ids[i];
            assert(ids@.to_set().contains(id));
            match self.follower_states.get(&id) {
                Some(f) => {
                    match_list.push(f.match_index);
                },
                None => {
                    assert(false);
                },
            }
            proof {
                assert(ids@.take(i + 1) =~= ids@.take(i as int).push(id));
                assert(match_list@ =~= match_indices(self@.followers, ids@.take(i + 1)));
            }
            i = i + 1;
        }
        assert(ids@.take(ids@.len() as int) =~= ids@);
        match_list.push(log_len);
        let sorted = sorted_copy(&match_list);
        proof {
            lemma_quorum_index_any_order(self@.followers, ids@, log_len);
            vstd::seq_lib::to_multiset_len(match_list@);
            vstd::seq_lib::to_multiset_len(match_list@.sort_by(quorum::ascending()));
            match_list@.lemma_sort_by_ensures(quorum::ascending());
        }
        let majority_index = (sorted.len() - 1) / 2;
        let new_commit_index = sorted[majority_index];
        if new_commit_index > self.commit_index && new_commit_index > 0 && new_commit_index <= log_len {
            let entry_term = self.log[(new_commit_index - 1) as usize].term;
            if entry_term == self.current_term {
                self.commit_index = new_commit_index;
            }
        }
    }

    /// A copy of the log from position `start` on.
    fn entries_from(&self, start: usize) -> (r: Vec<LogEntry>)
        requires
            start <= self@.log.len(),
        ensures
            r@ == self@.log.skip(start as int),
    {
        let mut out: Vec<LogEntry> = Vec::new();
        let mut i: usize = start;
        while i < self.log.len()
            invariant
                start <= i <= self@.log.len(),
                out@ == self@.log.subrange(start as int, i as int),
            decreases self@.log.len() - i,
        {
            out.push(self.log[i].clone());
            proof {
                assert(self@.log.subrange(start as int, i + 1) =~= self@.log.subrange(start as int, i as int).push(self@.log[i as int]));
            }
            i = i + 1;
        }
        assert(self@.log.subrange(start as int, self@.log.len() as int) =~= self@.log.skip(start as int));
        out
    }

    /// What this leader sends to the follower `peer`.
    fn append_request_to(&self, peer: NodeId, f: FollowerState) -> (r: AppendEntriesRequest)
        requires
            self@.followers.contains_key(peer),
            self@.followers[peer] == f,
        ensures
            append_request_for(self@, peer, r),
    {
        let prev_index = if f.next_index > 0 { f.next_index - 1 } else { 0 };
        let prev_term = if prev_index > 0 && prev_index - 1 < self.log.len() as LogIndex {
            self.log[(prev_index - 1) as usize].term
        } else {
            0
        };
        let entries = if f.next_index > 0 && f.next_index - 1 < self.log.len() as LogIndex {
            self.entries_from((f.next_index - 1) as usize)
        } else {
            Vec::new()
        };
        AppendEntriesRequest {
            term: self.current_term,
            leader_id: self.id,
            prev_log_index: prev_index,
            prev_log_term: prev_term,
            entries,
            leader_commit: self.commit_index,
        }
    }

    /// A leader's replication round: the append request for each follower (in
    /// no particular order, each follower once), built before the commit index
    /// moves up to what a majority holds. A node that does not lead sends
    /// nothing and changes nothing.
    pub fn replicate_log(&mut self) -> (r: Vec<(NodeId, AppendEntriesRequest)>)
        ensures
            old(self)@.state != NodeState::Leader ==> final(self)@ == old(self)@ && r@.len() == 0,
            old(self)@.state == NodeState::Leader ==> {
                &&& final(self)@ == commit_step(old(self)@)
                &&& final(self)@.commit_index >= old(self)@.commit_index
                &&& final(self)@.commit_index > old(self)@.commit_index ==> {
                    &&& final(self)@.commit_index <= final(self)@.log.len()
                    &&& final(self)@.log[final(self)@.commit_index - 1].term == final(self)@.current_term
                }
                &&& enumerates(r@.map_values(|m: (NodeId, AppendEntriesRequest)| m.0), old(self)@.followers.dom())
                &&& forall|i: int| 0 <= i < r@.len() ==> append_request_for(old(self)@, #[trigger] r@[i].0, r@[i].1)
            },
    {
        let mut out: Vec<(NodeId, AppendEntriesRequest)> = Vec::new();
        if self.state != NodeState::Leader {
            return out;
        }
        let ids = self.follower_ids();
        let mut i: usize = 0;
        while i < ids.len()
            invariant
                0 <= i <= ids@.len(),
                self@ == old(self)@,
                enumerates(ids@, self@.followers.dom()),
                out@.map_values(|m: (NodeId, AppendEntriesRequest)| m.0) == ids@.take(i as int),
                forall|j: int| 0 <= j < out@.len() ==> append_request_for(self@, #[trigger] out@[j].0, out@[j].1),
            decreases ids@.len() - i,
        {
            let id = ids[i];
            assert(ids@.to_set().contains(id));
            match self.follower_states.get(&id) {
                Some(f) => {
                    let request = self.append_request_to(id, *f);
                    out.push((id, request));
                },
                None => {
                    assert(false);
                },
            }
            proof {
                assert(ids@.take(i + 1) =~= ids@.take(i as int).push(id));
                assert(out@.map_values(|m: (NodeId, AppendEntriesRequest)| m.0) =~= ids@.take(i + 1));
            }
            i = i + 1;
        }
        assert(ids@.take(ids@.len() as int) =~= ids@);
        self.update_commit_index();
        out
    }

    /// Applies the committed entries not yet applied to the store (see
    /// `apply_step`); returns the client ids of those entries, in log order,
    /// so that the clients waiting on them can be answered.
    pub fn apply_committed_entries(&mut self) -> (r: Vec<u128>)
        ensures
            final(self)@ == apply_step(old(self)@),
            r@ == entries_to_apply(old(self)@).map_values(client_id_of()),
    {
        let mut applied: Vec<u128> = Vec::new();
        if self.commit_index <= self.last_applied {
            assert(entries_to_apply(old(self)@) =~= Seq::<LogEntry>::empty());
            return applied;
        }
        let len = self.log.len() as LogIndex;
        let hi = if self.commit_index <= len { self.commit_index } else { len };
        let lo = self.last_applied;
        if lo < hi {
            let mut i: u64 = lo;
            assert(old(self)@.log.subrange(lo as int, lo as int) =~= Seq::<LogEntry>::empty());
            while i < hi
                invariant
                    lo == old(self)@.last_applied,
                    hi as int == (if old(self)@.commit_index <= old(self)@.log.len() { old(self)@.commit_index as int } else { old(self)@.log.len() as int }),
                    lo <= i <= hi,
                    hi <= self.log.len(),
                    self@ == (RaftNodeView { store: self@.store, ..old(self)@ }),
                    self@.store == apply_entries(old(self)@.store, old(self)@.log.subrange(lo as int, i as int)),
                    applied@ == old(self)@.log.subrange(lo as int, i as int).map_values(client_id_of()),
                decreases hi - i,
            {
                let idx = i as usize;
                self.storage.apply_command(&self.log[idx].command);
                applied.push(self.log[idx].client_id);
                proof {
                    let sub = old(self)@.log.subrange(lo as int, i as int);
                    let sub1 = old(self)@.log.subrange(lo as int, i + 1);
                    assert(sub1 =~= sub.push(old(self)@.log[i as int]));
                    assert(sub1.drop_last() =~= sub);
                    assert(apply_entries(old(self)@.store, sub1) == apply_entry(apply_entries(old(self)@.store, sub), old(self)@.log[i as int]));
                    assert(applied@ =~= sub1.map_values(client_id_of()));
                }
                i = i + 1;
            }
        } else {
            assert(entries_to_apply(old(self)@) =~= Seq::<LogEntry>::empty());
            assert(apply_entries(old(self)@.store, Seq::<LogEntry>::empty()) == old(self)@.store);
        }
        self.last_applied = self.commit_index;
        applied
    }

    /// Proposes writing `value` under `key`. Only the leader takes writes: it
    /// appends an entry of its current term, at the next index, for a fresh
    /// client id, and returns that id (the write takes effect once the entry is
    /// committed and applied). Any other node answers `NotLeader` with the
    /// leader it knows of, and changes nothing.
    pub fn set(&mut self, key: String, value: String) -> (r: Result<u128, KvError>)
        requires
            old(self)@.log.len() < u64::MAX,
        ensures
            match r {
                Err(e) => {
                    &&& old(self)@.state != NodeState::Leader
                    &&& e == KvError::NotLeader { leader_id: old(self)@.leader_id }
                    &&& final(self)@ == old(self)@
                },
                Ok(id) => {
                    &&& old(self)@.state == NodeState::Leader
                    &&& final(self)@ == propose_step(old(self)@, key, value, id)
                },
            },
    {
        if self.state != NodeState::Leader {
            return Err(KvError::NotLeader { leader_id: self.leader_id });
        }
        let command = StorageCommand { key, value: Some(value) };
        let client_id = new_client_id();
        let entry = LogEntry {
            index: self.log.len() as LogIndex + 1,
            term: self.current_term,
            command,
            client_id,
        };
        self.log.push(entry);
        Ok(client_id)
    }
}

} // verus!
