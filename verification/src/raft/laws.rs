use vstd::prelude::*;

use crate::storage::{apply_to, KvMap, StorageCommand};
use super::quorum::{ascending, count_at_least, lemma_above_majority_value_is_minority, lemma_majority_value_is_reached_by_majority, majority_value};
use super::types::{AppendEntriesRequest, AppendEntriesResponse, LogEntry, NodeId, NodeState, RequestVoteRequest, RequestVoteResponse, Term};
use super::{
    append_entries_step, append_response_step, apply_entries, apply_entry, apply_step, commit_step, conclude_election_step,
    entries_to_apply, enumerates, lemma_quorum_index_any_order, match_indices, quorum_index, request_vote_step,
    start_election_step, append_request_for, propose_step, election_due_spec, RaftNodeView,
};

verus! {

/// After a key is set, a read of it gives the value written, and every other
/// key reads as before.
pub proof fn law_read_after_set(m: KvMap, key: Seq<char>, value: Seq<char>, other: Seq<char>)
    ensures
        apply_to(m, key, Some(value)).contains_key(key),
        apply_to(m, key, Some(value))[key] == value,
        other != key ==> apply_to(m, key, Some(value)).contains_key(other) == m.contains_key(other),
        other != key && m.contains_key(other) ==> apply_to(m, key, Some(value))[other] == m[other],
{
}

/// After a key is deleted it is absent, and every other key reads as before.
pub proof fn law_read_after_delete(m: KvMap, key: Seq<char>, other: Seq<char>)
    ensures
        !apply_to(m, key, None).contains_key(key),
        other != key ==> apply_to(m, key, None).contains_key(other) == m.contains_key(other),
        other != key && m.contains_key(other) ==> apply_to(m, key, None)[other] == m[other],
{
}

/// Applying a run of entries, a key ends with the value of the last entry that
/// writes it, when that entry sets a value.
pub proof fn law_last_write_wins(m: KvMap, es: Seq<LogEntry>, j: int, value: Seq<char>)
    requires
        0 <= j < es.len(),
        es[j].command.value_view() == Some(value),
        forall|k: int| j < k < es.len() ==> (#[trigger] es[k]).command.key_view() != es[j].command.key_view(),
    ensures
        apply_entries(m, es).contains_key(es[j].command.key_view()),
        apply_entries(m, es)[es[j].command.key_view()] == value,
    decreases es.len(),
{
    let key = es[j].command.key_view();
    if j == es.len() - 1 {
        assert(es.last() == es[j]);
    } else {
        let prefix = es.drop_last();
        assert forall|k: int| j < k < prefix.len() implies (#[trigger] prefix[k]).command.key_view() != key by {
            assert(prefix[k] == es[k]);
        }
        assert(prefix[j] == es[j]);
        law_last_write_wins(m, prefix, j, value);
        assert(es.last() == es[es.len() - 1]);
    }
}

/// A node grants at most one vote in a term: after granting a vote in a term,
/// it refuses a second candidate asking in that term.
pub proof fn law_one_vote_per_term(
    s: RaftNodeView,
    first: RequestVoteRequest,
    second: RequestVoteRequest,
    t1: u64,
    t2: u64,
)
    requires
        first.term == second.term,
        first.candidate_id != second.candidate_id,
    ensures
        ({
            let (s1, a1) = request_vote_step(s, first, t1);
            let (_, a2) = request_vote_step(s1, second, t2);
            !(a1.vote_granted && a2.vote_granted)
        }),
{
}

/// A granted vote is given in the request's term, and the node remembers it.
pub proof fn law_granted_vote_is_recorded(s: RaftNodeView, req: RequestVoteRequest, now: u64)
    ensures
        ({
            let (s1, a) = request_vote_step(s, req, now);
            &&& a.term == s1.current_term
            &&& a.vote_granted ==> s1.current_term == req.term && s1.voted_for == Some(req.candidate_id)
        }),
{
}

/// A request of an older term than the node's is refused and changes nothing,
/// be it a vote request or an append request.
pub proof fn law_stale_requests_change_nothing(
    s: RaftNodeView,
    vote: RequestVoteRequest,
    append: AppendEntriesRequest,
    now: u64,
)
    ensures
        vote.term < s.current_term ==> request_vote_step(s, vote, now) == (s, RequestVoteResponse { term: s.current_term, vote_granted: false }),
        append.term < s.current_term ==> append_entries_step(s, append, now) == (s, AppendEntriesResponse { term: s.current_term, success: false }),
{
}

/// A node's term never goes down: not by answering requests, by starting an
/// election, by hearing a follower's answer, by committing or applying, nor by
/// concluding an election while it is still in that election's term or an
/// earlier one.
pub proof fn law_terms_never_decrease(
    s: RaftNodeView,
    vote: RequestVoteRequest,
    append: AppendEntriesRequest,
    peer: NodeId,
    answer: AppendEntriesResponse,
    election_term: Term,
    answers: Seq<Option<RequestVoteResponse>>,
    now: u64,
)
    requires
        s.current_term < u64::MAX,
        s.current_term <= election_term,
    ensures
        request_vote_step(s, vote, now).0.current_term >= s.current_term,
        append_entries_step(s, append, now).0.current_term >= s.current_term,
        append_response_step(s, peer, append, answer).current_term >= s.current_term,
        start_election_step(s, now).0.current_term == s.current_term + 1,
        commit_step(s).current_term == s.current_term,
        apply_step(s).current_term == s.current_term,
        conclude_election_step(s, election_term, answers).current_term >= s.current_term,
{
    lemma_later_term_is_later(answers, election_term, 1, super::majority(s));
}

/// The count of an election's answers ends on a later term only for a term
/// past the election's.
proof fn lemma_later_term_is_later(answers: Seq<Option<RequestVoteResponse>>, term: Term, votes: nat, needed: nat)
    ensures
        super::count_votes(answers, term, votes, needed) matches super::VoteCount::LaterTerm(t) ==> t > term,
    decreases answers.len(),
{
    if answers.len() > 0 {
        lemma_later_term_is_later(answers.drop_first(), term, votes, needed);
        lemma_later_term_is_later(answers.drop_first(), term, votes + 1, needed);
    }
}

/// When a follower accepts entries, its log agrees with the leader's up to the
/// entry before them (that entry has the term the leader gave), what came
/// before is kept, and the new entries follow it; the follower then takes the
/// sender as its leader, in the sender's term.
pub proof fn law_accepted_entries_extend_a_matching_prefix(s: RaftNodeView, req: AppendEntriesRequest, now: u64)
    ensures
        ({
            let (s1, a) = append_entries_step(s, req, now);
            a.success ==> {
                &&& req.prev_log_index <= s.log.len()
                &&& s1.log.take(req.prev_log_index as int) == s.log.take(req.prev_log_index as int)
                &&& req.prev_log_index > 0 ==> s1.log[req.prev_log_index - 1].term == req.prev_log_term
                &&& req.entries@.len() > 0 ==> s1.log == s.log.take(req.prev_log_index as int) + req.entries@
                &&& s1.state == NodeState::Follower
                &&& s1.leader_id == Some(req.leader_id)
                &&& s1.current_term == req.term
                &&& s1.commit_index == s.commit_index || s1.commit_index <= s1.log.len()
            }
        }),
{
    let (s1, a) = append_entries_step(s, req, now);
    if a.success {
        let p = req.prev_log_index as int;
        if req.entries@.len() > 0 {
            assert(s1.log.take(p) =~= s.log.take(p));
            if p > 0 {
                assert(s1.log[p - 1] == s.log[p - 1]);
            }
        } else {
            assert(s1.log.take(p) =~= s.log.take(p));
        }
    }
}

/// A leader's commit index never goes down, and it only ever commits an entry
/// of its own current term that its log holds.
pub proof fn law_commit_only_current_term(s: RaftNodeView)
    ensures
        commit_step(s).commit_index >= s.commit_index,
        commit_step(s).commit_index != s.commit_index ==> {
            &&& 0 < commit_step(s).commit_index <= s.log.len()
            &&& s.log[commit_step(s).commit_index - 1].term == s.current_term
            &&& commit_step(s).commit_index == quorum_index(s.followers, s.log.len() as u64)
        },
{
}

/// The only element of a one-element sequence is its majority value.
proof fn lemma_majority_value_one(x: u64)
    ensures
        majority_value(seq![x]) == x,
{
    super::quorum::lemma_ascending_total();
    seq![x].lemma_sort_by_ensures(ascending());
    let sorted = seq![x].sort_by(ascending());
    vstd::seq_lib::to_multiset_len(seq![x]);
    vstd::seq_lib::to_multiset_len(sorted);
    assert(seq![x].contains(x) ==> true);
    assert(sorted.len() == 1);
    if sorted[0] != x {
        assert(sorted.contains(sorted[0]));
        assert(!seq![x].contains(sorted[0]));
    }
}

/// A leader without followers commits every entry of its current term as soon
/// as it holds it: the quorum is itself.
pub proof fn law_lone_leader_commits_its_log(s: RaftNodeView)
    requires
        s.followers.dom().is_empty(),
        s.log.len() > s.commit_index,
        s.log.last().term == s.current_term,
        s.log.len() <= u64::MAX,
    ensures
        commit_step(s).commit_index == s.log.len(),
{
    let empty = Seq::<NodeId>::empty();
    assert(empty.to_set() =~= s.followers.dom());
    lemma_quorum_index_any_order(s.followers, empty, s.log.len() as u64);
    assert(match_indices(s.followers, empty).push(s.log.len() as u64) =~= seq![s.log.len() as u64]);
    lemma_majority_value_one(s.log.len() as u64);
}

/// Applying is idempotent: once the committed entries are applied, applying
/// again changes nothing and reports no entry.
pub proof fn law_apply_is_idempotent(s: RaftNodeView)
    ensures
        apply_step(apply_step(s)) == apply_step(s),
        entries_to_apply(apply_step(s)).len() == 0,
        apply_step(s).last_applied >= s.commit_index,
{
}

/// A committed write is read back: once the entries up to the commit index
/// are applied, a key written by one of them, and by none after it, holds that
/// write's value.
pub proof fn law_committed_write_is_read(s: RaftNodeView, j: int, value: Seq<char>)
    requires
        0 <= j < entries_to_apply(s).len(),
        entries_to_apply(s)[j].command.value_view() == Some(value),
        forall|k: int|
            j < k < entries_to_apply(s).len() ==> (#[trigger] entries_to_apply(s)[k]).command.key_view()
                != entries_to_apply(s)[j].command.key_view(),
    ensures
        apply_step(s).store.contains_key(entries_to_apply(s)[j].command.key_view()),
        apply_step(s).store[entries_to_apply(s)[j].command.key_view()] == value,
{
    law_last_write_wins(s.store, entries_to_apply(s), j, value);
}

/// A node alone in its cluster elects itself: it starts an election and, with
/// no peer to ask, concludes it as leader of the next term.
pub proof fn law_lone_node_elects_itself(s: RaftNodeView, now: u64)
    requires
        s.config.peers@.len() == 0,
        s.current_term < u64::MAX,
    ensures
        ({
            let (s1, req) = start_election_step(s, now);
            let s2 = conclude_election_step(s1, req.term, Seq::empty());
            &&& s2.state == NodeState::Leader
            &&& s2.leader_id == Some(s.id)
            &&& s2.current_term == s.current_term + 1
            &&& s2.followers.dom().is_empty()
        }),
{
    let (s1, req) = start_election_step(s, now);
    assert(super::majority(s1) == 1);
    assert(super::fresh_followers(s1.config.peers@, s1.log.len()).dom() =~= Set::<NodeId>::empty());
}

/// A lone leader's write is read back: the entry it appends for the write is
/// committed at once, and applying it makes the key hold the value.
pub proof fn law_lone_leader_write_then_read(s: RaftNodeView, e: LogEntry, value: Seq<char>)
    requires
        s.state == NodeState::Leader,
        s.followers.dom().is_empty(),
        s.commit_index == s.log.len(),
        s.last_applied == s.commit_index,
        s.log.len() < u64::MAX,
        e.term == s.current_term,
        e.command.value_view() == Some(value),
    ensures
        ({
            let s1 = RaftNodeView { log: s.log.push(e), ..s };
            let s2 = apply_step(commit_step(s1));
            &&& s2.store == apply_to(s.store, e.command.key_view(), Some(value))
            &&& s2.store[e.command.key_view()] == value
        }),
{
    let s1 = RaftNodeView { log: s.log.push(e), ..s };
    law_lone_leader_commits_its_log(s1);
    let s2 = commit_step(s1);
    assert(entries_to_apply(s2) =~= seq![e]);
    assert(seq![e].drop_last() =~= Seq::<LogEntry>::empty());
    assert(apply_entries(s.store, seq![e].drop_last()) == s.store);
    assert(seq![e].last() == e);
    assert(apply_entries(s.store, seq![e]) == apply_entry(s.store, e));
}

/// A leader commits an entry only once a majority of the cluster holds it:
/// of the `n` nodes (the followers and the leader), at least `n / 2 + 1` hold
/// the new commit index, counting the followers' match indices and the
/// leader's own log length.
pub proof fn law_commit_needs_majority(s: RaftNodeView, ids: Seq<NodeId>)
    requires
        enumerates(ids, s.followers.dom()),
        commit_step(s).commit_index != s.commit_index,
    ensures
        count_at_least(match_indices(s.followers, ids).push(s.log.len() as u64), commit_step(s).commit_index)
            >= (ids.len() + 1) / 2 + 1,
{
    lemma_quorum_index_any_order(s.followers, ids, s.log.len() as u64);
    let ms = match_indices(s.followers, ids).push(s.log.len() as u64);
    lemma_majority_value_is_reached_by_majority(ms);
}

/// The quorum index is the largest index a majority holds: a majority of the
/// `n` nodes reach it, and fewer than `n / 2 + 1` reach any larger index.
pub proof fn law_quorum_index_is_largest_majority_index(
    followers: Map<NodeId, super::FollowerState>,
    ids: Seq<NodeId>,
    leader_len: u64,
    v: u64,
)
    requires
        enumerates(ids, followers.dom()),
    ensures
        count_at_least(match_indices(followers, ids).push(leader_len), quorum_index(followers, leader_len))
            >= (ids.len() + 1) / 2 + 1,
        v > quorum_index(followers, leader_len) ==> count_at_least(match_indices(followers, ids).push(leader_len), v)
            < (ids.len() + 1) / 2 + 1,
{
    lemma_quorum_index_any_order(followers, ids, leader_len);
    let ms = match_indices(followers, ids).push(leader_len);
    lemma_majority_value_is_reached_by_majority(ms);
    if v > quorum_index(followers, leader_len) {
        lemma_above_majority_value_is_minority(ms, v);
    }
}

/// A leader never moves a follower's next index below 1: refusals step it
/// back at most to 1, and successes set it past the matched entries.
pub proof fn law_next_index_stays_positive(
    s: RaftNodeView,
    peer: NodeId,
    req: AppendEntriesRequest,
    resp: AppendEntriesResponse,
    other: NodeId,
)
    requires
        s.followers.contains_key(other) ==> s.followers[other].next_index >= 1,
        resp.success ==> req.prev_log_index + req.entries@.len() < u64::MAX,
    ensures
        append_response_step(s, peer, req, resp).followers.contains_key(other)
            ==> append_response_step(s, peer, req, resp).followers[other].next_index >= 1,
{
}

/// A request or a step of the node's own work, as one event of its history.
/// An election is started only below the largest term, as `start_election`
/// requires.
pub enum NodeEvent {
    Vote(RequestVoteRequest, u64),
    Append(AppendEntriesRequest, u64),
    AppendAnswer(NodeId, AppendEntriesRequest, AppendEntriesResponse),
    StartElection(u64),
    ConcludeElection(Term, Seq<Option<RequestVoteResponse>>),
    Propose(LogEntry),
    Commit,
    Apply,
}

/// The node's state after each event of `events`, in order.
pub open spec fn after_events(s: RaftNodeView, events: Seq<NodeEvent>) -> RaftNodeView
    decreases events.len(),
{
    if events.len() == 0 {
        s
    } else {
        let before = after_events(s, events.drop_last());
        match events.last() {
            NodeEvent::Vote(req, now) => request_vote_step(before, req, now).0,
            NodeEvent::Append(req, now) => append_entries_step(before, req, now).0,
            NodeEvent::AppendAnswer(peer, req, resp) => append_response_step(before, peer, req, resp),
            NodeEvent::StartElection(now) => if before.current_term < u64::MAX {
                start_election_step(before, now).0
            } else {
                before
            },
            NodeEvent::ConcludeElection(term, answers) => conclude_election_step(before, term, answers),
            NodeEvent::Propose(e) => RaftNodeView { log: before.log.push(e), ..before },
            NodeEvent::Commit => commit_step(before),
            NodeEvent::Apply => apply_step(before),
        }
    }
}

/// The node has moved past `term`, or is still in it with its vote given to `candidate`.
pub open spec fn vote_given_in(s: RaftNodeView, term: Term, candidate: NodeId) -> bool {
    ||| s.current_term > term
    ||| (s.current_term == term && s.voted_for == Some(candidate))
}

/// Every election concluded along `events` is concluded in a term no earlier
/// than the node's term at that point.
pub open spec fn elections_concluded_in_time(s: RaftNodeView, events: Seq<NodeEvent>) -> bool
    decreases events.len(),
{
    if events.len() == 0 {
        true
    } else {
        &&& elections_concluded_in_time(s, events.drop_last())
        &&& (events.last() matches NodeEvent::ConcludeElection(t, _) ==> t >= after_events(s, events.drop_last()).current_term)
    }
}

proof fn lemma_vote_given_is_kept(s: RaftNodeView, events: Seq<NodeEvent>, term: Term, candidate: NodeId)
    requires
        vote_given_in(s, term, candidate),
        elections_concluded_in_time(s, events),
    ensures
        vote_given_in(after_events(s, events), term, candidate),
    decreases events.len(),
{
    if events.len() > 0 {
        lemma_vote_given_is_kept(s, events.drop_last(), term, candidate);
        let before = after_events(s, events.drop_last());
        match events.last() {
            NodeEvent::ConcludeElection(t, answers) => {
                lemma_later_term_is_later(answers, t, 1, super::majority(before));
            },
            _ => {},
        }
    }
}

/// A node grants at most one vote in a term, whatever it does in between:
/// after granting a vote in a term, and then any requests, answers, elections
/// of its own, proposals, commits and applies, it refuses a second candidate
/// asking in that term. Its own elections must be concluded in a term no
/// earlier than its term at the time: concluding an older election on a later
/// answer can lower the node's term and clear its vote.
pub proof fn law_one_vote_per_term_across_events(
    s: RaftNodeView,
    first: RequestVoteRequest,
    t1: u64,
    between: Seq<NodeEvent>,
    second: RequestVoteRequest,
    t2: u64,
)
    requires
        first.term == second.term,
        first.candidate_id != second.candidate_id,
        elections_concluded_in_time(request_vote_step(s, first, t1).0, between),
    ensures
        ({
            let (s1, a1) = request_vote_step(s, first, t1);
            let (_, a2) = request_vote_step(after_events(s1, between), second, t2);
            !(a1.vote_granted && a2.vote_granted)
        }),
{
    let (s1, a1) = request_vote_step(s, first, t1);
    if a1.vote_granted {
        assert(vote_given_in(s1, first.term, first.candidate_id));
        lemma_vote_given_is_kept(s1, between, first.term, first.candidate_id);
    }
}

/// Applying two runs of entries one after the other is applying them together.
pub proof fn lemma_apply_entries_concat(m: KvMap, a: Seq<LogEntry>, b: Seq<LogEntry>)
    ensures
        apply_entries(m, a + b) == apply_entries(apply_entries(m, a), b),
    decreases b.len(),
{
    if b.len() == 0 {
        assert(a + b =~= a);
    } else {
        lemma_apply_entries_concat(m, a, b.drop_last());
        assert((a + b).drop_last() =~= a + b.drop_last());
        assert((a + b).last() == b.last());
    }
}

/// The store holds what the applied part of the log wrote over `initial`.
pub open spec fn store_follows_log(s: RaftNodeView, initial: KvMap) -> bool {
    &&& s.last_applied <= s.log.len()
    &&& s.store == apply_entries(initial, s.log.take(s.last_applied as int))
}

/// The store keeps following the applied part of the log through a leader's
/// work: applying committed entries (while the commit index is within the
/// log), committing, appending a new entry, and hearing a follower's answer.
pub proof fn law_store_follows_log(
    s: RaftNodeView,
    initial: KvMap,
    e: LogEntry,
    peer: NodeId,
    req: AppendEntriesRequest,
    resp: AppendEntriesResponse,
)
    requires
        store_follows_log(s, initial),
    ensures
        s.commit_index <= s.log.len() ==> store_follows_log(apply_step(s), initial),
        store_follows_log(commit_step(s), initial),
        store_follows_log(RaftNodeView { log: s.log.push(e), ..s }, initial),
        store_follows_log(append_response_step(s, peer, req, resp), initial),
{
    if s.commit_index <= s.log.len() && s.commit_index > s.last_applied {
        let lo = s.last_applied as int;
        let hi = s.commit_index as int;
        assert(s.log.take(hi) =~= s.log.take(lo) + s.log.subrange(lo, hi));
        lemma_apply_entries_concat(initial, s.log.take(lo), s.log.subrange(lo, hi));
    }
    assert(s.log.push(e).take(s.last_applied as int) =~= s.log.take(s.last_applied as int));
}

/// A node that has applied nothing yet has a store that follows its log.
pub proof fn law_store_follows_log_at_start(s: RaftNodeView)
    requires
        s.last_applied == 0,
    ensures
        store_follows_log(s, s.store),
{
    assert(s.log.take(0) =~= Seq::<LogEntry>::empty());
}

/// A write is read back after any number of apply rounds: while the store
/// follows the applied part of the log, a key written by an applied entry,
/// and by no applied entry after it, holds that entry's value.
pub proof fn law_applied_write_is_read(s: RaftNodeView, initial: KvMap, j: int, value: Seq<char>)
    requires
        store_follows_log(s, initial),
        0 <= j < s.last_applied,
        s.log[j].command.value_view() == Some(value),
        forall|k: int| j < k < s.last_applied ==> (#[trigger] s.log[k]).command.key_view() != s.log[j].command.key_view(),
    ensures
        s.store.contains_key(s.log[j].command.key_view()),
        s.store[s.log[j].command.key_view()] == value,
{
    let applied = s.log.take(s.last_applied as int);
    assert forall|k: int| j < k < applied.len() implies (#[trigger] applied[k]).command.key_view() != applied[j].command.key_view() by {
        assert(applied[k] == s.log[k]);
    }
    law_last_write_wins(initial, applied, j, value);
}

/// The entries applied to the store along `events`, in the order applied.
pub open spec fn applied_along(s: RaftNodeView, events: Seq<NodeEvent>) -> Seq<LogEntry>
    decreases events.len(),
{
    if events.len() == 0 {
        Seq::empty()
    } else {
        let earlier = applied_along(s, events.drop_last());
        match events.last() {
            NodeEvent::Apply => earlier + entries_to_apply(after_events(s, events.drop_last())),
            _ => earlier,
        }
    }
}

/// Only applying changes the store: along any history, the store ends as the
/// entries applied along it, in order, applied to the store it started with.
pub proof fn law_store_is_what_was_applied(s: RaftNodeView, events: Seq<NodeEvent>)
    ensures
        after_events(s, events).store == apply_entries(s.store, applied_along(s, events)),
    decreases events.len(),
{
    if events.len() == 0 {
        assert(applied_along(s, events) =~= Seq::<LogEntry>::empty());
    } else {
        law_store_is_what_was_applied(s, events.drop_last());
        let before = after_events(s, events.drop_last());
        let earlier = applied_along(s, events.drop_last());
        match events.last() {
            NodeEvent::Apply => {
                lemma_apply_entries_concat(s.store, earlier, entries_to_apply(before));
                if before.commit_index <= before.last_applied {
                    assert(entries_to_apply(before) =~= Seq::<LogEntry>::empty());
                    assert(earlier + entries_to_apply(before) =~= earlier);
                }
            },
            _ => {},
        }
    }
}

/// A write is read back along any history: when some applied entry writes a
/// value under a key and no entry applied after it writes that key, the store
/// holds that value under the key at the end.
pub proof fn law_write_is_read_along_any_history(s: RaftNodeView, events: Seq<NodeEvent>, j: int, value: Seq<char>)
    requires
        0 <= j < applied_along(s, events).len(),
        applied_along(s, events)[j].command.value_view() == Some(value),
        forall|k: int|
            j < k < applied_along(s, events).len() ==> (#[trigger] applied_along(s, events)[k]).command.key_view()
                != applied_along(s, events)[j].command.key_view(),
    ensures
        after_events(s, events).store.contains_key(applied_along(s, events)[j].command.key_view()),
        after_events(s, events).store[applied_along(s, events)[j].command.key_view()] == value,
{
    law_store_is_what_was_applied(s, events);
    law_last_write_wins(s.store, applied_along(s, events), j, value);
}

/// A leader commits whenever it may: when an index past its commit index is
/// the largest one that a majority of the cluster holds, lies within its log
/// and holds an entry of its current term, the commit index moves to exactly
/// that index.
pub proof fn law_commit_advances_to_majority_index(s: RaftNodeView, ids: Seq<NodeId>, v: u64)
    requires
        enumerates(ids, s.followers.dom()),
        count_at_least(match_indices(s.followers, ids).push(s.log.len() as u64), v) >= (ids.len() + 1) / 2 + 1,
        forall|w: u64|
            w > v ==> #[trigger] count_at_least(match_indices(s.followers, ids).push(s.log.len() as u64), w)
                < (ids.len() + 1) / 2 + 1,
        v > s.commit_index,
        0 < v <= s.log.len(),
        s.log[v - 1].term == s.current_term,
    ensures
        commit_step(s).commit_index == v,
{
    let q = quorum_index(s.followers, s.log.len() as u64);
    law_quorum_index_is_largest_majority_index(s.followers, ids, s.log.len() as u64, v);
    if q > v {
        law_quorum_index_is_largest_majority_index(s.followers, ids, s.log.len() as u64, q);
        assert(count_at_least(match_indices(s.followers, ids).push(s.log.len() as u64), q) < (ids.len() + 1) / 2 + 1);
    }
    assert(q == v);
}

/// How many answers grant a vote in `term`.
pub open spec fn granted_votes(answers: Seq<Option<RequestVoteResponse>>, term: Term) -> nat
    decreases answers.len(),
{
    if answers.len() == 0 {
        0
    } else {
        granted_votes(answers.drop_first(), term) + match answers[0] {
            Some(r) => if r.vote_granted && r.term == term { 1nat } else { 0nat },
            None => 0nat,
        }
    }
}

proof fn lemma_counted_votes_were_granted(
    answers: Seq<Option<RequestVoteResponse>>,
    term: Term,
    votes: nat,
    needed: nat,
)
    ensures
        super::count_votes(answers, term, votes, needed) matches super::VoteCount::Votes(v)
            ==> v <= votes + granted_votes(answers, term),
    decreases answers.len(),
{
    if answers.len() > 0 {
        lemma_counted_votes_were_granted(answers.drop_first(), term, votes, needed);
        lemma_counted_votes_were_granted(answers.drop_first(), term, votes + 1, needed);
    }
}

/// A node that concludes an election as the new leader was granted, for that
/// term and counting its own vote, more than half of the cluster's votes.
pub proof fn law_leader_has_majority_of_votes(s: RaftNodeView, term: Term, answers: Seq<Option<RequestVoteResponse>>)
    requires
        s.state != NodeState::Leader,
        conclude_election_step(s, term, answers).state == NodeState::Leader,
    ensures
        granted_votes(answers, term) + 1 > (s.config.peers@.len() + 1) / 2,
        conclude_election_step(s, term, answers).current_term == term,
{
    lemma_counted_votes_were_granted(answers, term, 1, super::majority(s));
}

/// The term of the last entry of a log, 0 when it is empty.
pub open spec fn term_of_last_entry(log: Seq<LogEntry>) -> Term {
    if log.len() == 0 {
        0
    } else {
        log[log.len() - 1].term
    }
}

/// How the candidate's log decides a vote. Take a request not older than the
/// node's term, from a candidate the node may still vote for in that term (a
/// later term, no vote yet, or its vote already given to that candidate):
/// a later last term than the node's last entry wins the vote whatever the
/// lengths; the same last term wins it with at least as many entries; an
/// earlier last term, or the same with fewer entries, loses it.
pub proof fn law_vote_follows_log_freshness(s: RaftNodeView, req: RequestVoteRequest, now: u64)
    requires
        req.term >= s.current_term,
        req.term > s.current_term || s.voted_for is None || s.voted_for == Some(req.candidate_id),
    ensures
        req.last_log_term > term_of_last_entry(s.log) ==> request_vote_step(s, req, now).1.vote_granted,
        req.last_log_term == term_of_last_entry(s.log) && req.last_log_index >= s.log.len()
            ==> request_vote_step(s, req, now).1.vote_granted,
        req.last_log_term < term_of_last_entry(s.log) ==> !request_vote_step(s, req, now).1.vote_granted,
        req.last_log_term == term_of_last_entry(s.log) && req.last_log_index < s.log.len()
            ==> !request_vote_step(s, req, now).1.vote_granted,
{
}

/// A leader's request to a follower names, as the entry before the new ones,
/// the leader's own entry at that index with its term; so a follower whose
/// log agrees with the leader's up to that index, and that is not in a later
/// term, accepts the request.
pub proof fn law_replication_request_is_accepted_by_agreeing_follower(
    s: RaftNodeView,
    peer: NodeId,
    req: AppendEntriesRequest,
    f: RaftNodeView,
    now: u64,
)
    requires
        s.followers.contains_key(peer),
        append_request_for(s, peer, req),
        req.prev_log_index <= s.log.len(),
        req.prev_log_index <= f.log.len(),
        f.log.take(req.prev_log_index as int) == s.log.take(req.prev_log_index as int),
        f.current_term <= s.current_term,
    ensures
        req.prev_log_index > 0 ==> req.prev_log_term == s.log[req.prev_log_index - 1].term,
        append_entries_step(f, req, now).1.success,
{
    let p = req.prev_log_index as int;
    if p > 0 {
        assert(f.log.take(p)[p - 1] == f.log[p - 1]);
        assert(s.log.take(p)[p - 1] == s.log[p - 1]);
    }
}

/// A new election asks for votes in the next term, for this node, with the
/// position of its last log entry and that entry's term (0 for an empty log),
/// not any other term the node holds.
pub proof fn law_vote_request_describes_last_entry(s: RaftNodeView, now: u64)
    requires
        s.current_term < u64::MAX,
        s.log.len() <= u64::MAX,
    ensures
        start_election_step(s, now).1.term == s.current_term + 1,
        start_election_step(s, now).1.candidate_id == s.id,
        start_election_step(s, now).1.last_log_index == s.log.len(),
        start_election_step(s, now).1.last_log_term == term_of_last_entry(s.log),
        start_election_step(s, now).0.current_term == s.current_term + 1,
        start_election_step(s, now).0.voted_for == Some(s.id),
{
}

/// What a follower does with an append request. It accepts exactly when the
/// request's term is not older than its own and its log holds the entry
/// before the new ones with the term the leader gave (or there is none). A
/// request not older than its term makes the sender its leader in that term.
/// On acceptance the new entries replace what followed that entry, and the
/// commit index moves up to the leader's, bounded by the log's length. On a
/// mismatch of that entry's term the log is cut before it. The store and the
/// applied index never change here.
pub proof fn law_append_entries_outcome(s: RaftNodeView, req: AppendEntriesRequest, now: u64)
    ensures
        ({
            let (s1, a) = append_entries_step(s, req, now);
            let prev = req.prev_log_index;
            &&& a.term == s1.current_term
            &&& a.success <==> (req.term >= s.current_term && (prev == 0 || (prev <= s.log.len()
                && s.log[prev - 1].term == req.prev_log_term)))
            &&& req.term >= s.current_term ==> {
                &&& s1.current_term == req.term
                &&& s1.state == NodeState::Follower
                &&& s1.leader_id == Some(req.leader_id)
                &&& s1.election_timer == Some(now)
            }
            &&& req.term > s.current_term ==> s1.voted_for is None
            &&& req.term <= s.current_term ==> s1.voted_for == s.voted_for
            &&& req.term < s.current_term ==> s1 == s
            &&& a.success && req.entries@.len() > 0 ==> s1.log == s.log.take(prev as int) + req.entries@
            &&& a.success && req.entries@.len() == 0 ==> s1.log == s.log
            &&& a.success && req.leader_commit > s.commit_index ==> s1.commit_index == (if req.leader_commit
                <= s1.log.len() {
                req.leader_commit as int
            } else {
                s1.log.len() as int
            })
            &&& a.success && req.leader_commit <= s.commit_index ==> s1.commit_index == s.commit_index
            &&& !a.success && req.term >= s.current_term && 0 < prev <= s.log.len() ==> s1.log == s.log.take(prev - 1)
            &&& !a.success && (req.term < s.current_term || prev > s.log.len()) ==> s1.log == s.log
            &&& !a.success ==> s1.commit_index == s.commit_index
            &&& s1.store == s.store
            &&& s1.last_applied == s.last_applied
            &&& s1.followers == s.followers
        }),
{
}

/// What a leader does with a follower's answer to `req`. A node that does not
/// lead ignores it. A later term makes the leader a follower of that term,
/// with no vote and no known leader, and nothing else changes. Otherwise, for
/// a tracked follower: a success records `prev_log_index + entries` as its
/// match index and the index after as its next; a refusal steps its next index
/// back by one, unless it is 1 or less. No other follower changes.
pub proof fn law_append_answer_outcome(
    s: RaftNodeView,
    peer: NodeId,
    req: AppendEntriesRequest,
    resp: AppendEntriesResponse,
    other: NodeId,
)
    requires
        resp.success ==> req.prev_log_index + req.entries@.len() < u64::MAX,
        other != peer,
    ensures
        ({
            let s1 = append_response_step(s, peer, req, resp);
            &&& s.state != NodeState::Leader ==> s1 == s
            &&& s.state == NodeState::Leader && resp.term > s.current_term ==> {
                &&& s1.current_term == resp.term
                &&& s1.state == NodeState::Follower
                &&& s1.voted_for is None
                &&& s1.leader_id is None
                &&& s1.followers == s.followers
                &&& s1.log == s.log
                &&& s1.commit_index == s.commit_index
            }
            &&& s.state == NodeState::Leader && resp.term <= s.current_term ==> {
                &&& s1.current_term == s.current_term
                &&& s1.state == NodeState::Leader
                &&& s1.followers.dom() == s.followers.dom()
                &&& s1.followers.contains_key(other) ==> s1.followers[other] == s.followers[other]
                &&& s1.log == s.log
                &&& s1.commit_index == s.commit_index
            }
            &&& s.state == NodeState::Leader && resp.term <= s.current_term && s.followers.contains_key(peer) ==> {
                &&& resp.success ==> s1.followers[peer].match_index == req.prev_log_index + req.entries@.len()
                    && s1.followers[peer].next_index == req.prev_log_index + req.entries@.len() + 1
                &&& !resp.success && s.followers[peer].next_index > 1 ==> s1.followers[peer]
                    == (super::FollowerState { next_index: (s.followers[peer].next_index - 1) as u64, ..s.followers[peer] })
                &&& !resp.success && s.followers[peer].next_index <= 1 ==> s1.followers[peer] == s.followers[peer]
            }
            &&& !s.followers.contains_key(peer) && resp.term <= s.current_term ==> s1 == s
        }),
{
    let s1 = append_response_step(s, peer, req, resp);
    if s.state == NodeState::Leader && resp.term <= s.current_term && s.followers.contains_key(peer) {
        assert(s1.followers.dom() =~= s.followers.dom());
    }
}

/// A write taken by a leader appends exactly one entry, at the next index and
/// in the current term, for that key, value and client; the rest of the log
/// and every other part of the node stay as they were.
pub proof fn law_proposal_appends_one_entry(s: RaftNodeView, key: String, value: String, id: u128)
    ensures
        ({
            let s1 = propose_step(s, key, value, id);
            &&& s1.log.len() == s.log.len() + 1
            &&& s1.log.take(s.log.len() as int) == s.log
            &&& s1.log[s.log.len() as int].index == s.log.len() + 1 || s.log.len() + 1 > u64::MAX
            &&& s1.log[s.log.len() as int].term == s.current_term
            &&& s1.log[s.log.len() as int].command == (StorageCommand { key, value: Some(value) })
            &&& s1.log[s.log.len() as int].client_id == id
            &&& s1 == (RaftNodeView { log: s1.log, ..s })
        }),
{
    let s1 = propose_step(s, key, value, id);
    assert(s1.log.take(s.log.len() as int) =~= s.log);
}

/// A node that wins an election leads in that term, names itself leader, and
/// tracks exactly its configured peers, each with nothing replicated and the
/// index after its own last entry as the next to send.
pub proof fn law_new_leader_tracks_its_peers(s: RaftNodeView, term: Term, answers: Seq<Option<RequestVoteResponse>>, p: NodeId)
    requires
        s.state != NodeState::Leader,
        conclude_election_step(s, term, answers).state == NodeState::Leader,
        s.log.len() < u64::MAX,
    ensures
        ({
            let s1 = conclude_election_step(s, term, answers);
            &&& s1.current_term == term
            &&& s1.leader_id == Some(s.id)
            &&& s1.followers.contains_key(p) <==> s.config.peers@.contains(p)
            &&& s1.followers.contains_key(p) ==> s1.followers[p].next_index == s.log.len() + 1
                && s1.followers[p].match_index == 0
            &&& s1.log == s.log
            &&& s1.commit_index == s.commit_index
        }),
{
}

/// Reading an election's answers in order: counting stops once a majority
/// is reached, and a later term read before that ends the count.
proof fn lemma_count_reaches_majority(answers: Seq<Option<RequestVoteResponse>>, term: Term, votes: nat, needed: nat)
    requires
        forall|i: int| 0 <= i < answers.len() ==> (#[trigger] answers[i] matches Some(r) ==> r.term <= term),
    ensures
        super::count_votes(answers, term, votes, needed) matches super::VoteCount::Votes(v)
            && (v >= needed || v >= votes + granted_votes(answers, term)),
    decreases answers.len(),
{
    if answers.len() > 0 {
        let rest = answers.drop_first();
        assert forall|i: int| 0 <= i < rest.len() implies (#[trigger] rest[i] matches Some(r) ==> r.term <= term) by {
            assert(rest[i] == answers[i + 1]);
        }
        assert(answers[0] matches Some(r) ==> r.term <= term);
        lemma_count_reaches_majority(rest, term, votes, needed);
        lemma_count_reaches_majority(rest, term, votes + 1, needed);
    }
}

/// A candidate still in the election's term wins it when its own vote and the
/// votes granted for that term are more than half of the cluster, provided no
/// answer carries a later term.
pub proof fn law_majority_of_votes_wins(s: RaftNodeView, term: Term, answers: Seq<Option<RequestVoteResponse>>)
    requires
        s.state == NodeState::Candidate,
        s.current_term == term,
        forall|i: int| 0 <= i < answers.len() ==> (#[trigger] answers[i] matches Some(r) ==> r.term <= term),
        granted_votes(answers, term) + 1 > (s.config.peers@.len() + 1) / 2,
    ensures
        conclude_election_step(s, term, answers).state == NodeState::Leader,
{
    lemma_count_reaches_majority(answers, term, 1, super::majority(s));
}

/// An answer with a later term read first ends the election: the node becomes
/// a follower of that term with no vote.
pub proof fn law_later_term_answer_ends_election(s: RaftNodeView, term: Term, answers: Seq<Option<RequestVoteResponse>>)
    requires
        answers.len() > 0,
        answers[0] matches Some(r) && r.term > term,
    ensures
        conclude_election_step(s, term, answers).state == NodeState::Follower,
        conclude_election_step(s, term, answers).current_term == answers[0]->Some_0.term,
        conclude_election_step(s, term, answers).voted_for is None,
{
}

/// An election is due when the timer was never started, or when at least the
/// timeout has passed since it was last reset; a clock reading earlier than
/// the reset counts as no time passed.
pub proof fn law_election_due_after_timeout(last: u64, now: u64, timeout: u64)
    ensures
        election_due_spec(None, now, timeout),
        now >= last ==> (election_due_spec(Some(last), now, timeout) <==> now - last >= timeout),
        now < last ==> (election_due_spec(Some(last), now, timeout) <==> timeout == 0),
{
}

/// Applying what is committed: when the commit index is past the applied
/// index, the store takes, in log order, the commands of the entries after the
/// applied index up to the commit index (as far as the log reaches), and the
/// applied index catches up with the commit index; otherwise nothing changes.
/// The log, the terms and the commit index are never touched.
pub proof fn law_apply_outcome(s: RaftNodeView)
    ensures
        ({
            let s1 = apply_step(s);
            let hi = if s.commit_index <= s.log.len() { s.commit_index as int } else { s.log.len() as int };
            &&& s.commit_index <= s.last_applied ==> s1 == s
            &&& s.commit_index > s.last_applied ==> s1.last_applied == s.commit_index
            &&& s.commit_index > s.last_applied && s.last_applied < hi ==> s1.store == apply_entries(
                s.store,
                s.log.subrange(s.last_applied as int, hi),
            )
            &&& s.commit_index > s.last_applied && s.last_applied >= hi ==> s1.store == s.store
            &&& s1.log == s.log
            &&& s1.commit_index == s.commit_index
            &&& s1.current_term == s.current_term
        }),
{
    if s.commit_index > s.last_applied && s.last_applied >= s.log.len() {
        assert(entries_to_apply(s) =~= Seq::<LogEntry>::empty());
    }
}

/// Applying one entry applies its command: a set stores the value under the
/// key, a delete removes the key.
pub proof fn law_apply_one_entry(m: KvMap, e: LogEntry)
    ensures
        apply_entries(m, seq![e]) == apply_to(m, e.command.key_view(), e.command.value_view()),
        e.command.value_view() is None ==> !apply_entries(m, seq![e]).contains_key(e.command.key_view()),
{
    assert(seq![e].drop_last() =~= Seq::<LogEntry>::empty());
    assert(apply_entries(m, seq![e].drop_last()) == m);
    assert(seq![e].last() == e);
}

/// What a node does with a vote request. A request of an older term is
/// refused and changes nothing. A later term makes the node a follower of that
/// term with no vote and no known leader. The vote is granted exactly when the
/// request's term is not older, the node has no vote for another candidate in
/// that term, and the candidate's log is at least as up to date: a later last
/// term, or the same last term with at least as many entries. A granted vote
/// is recorded and restarts the election timer. The log, the store and the
/// commit index are never touched.
pub proof fn law_request_vote_outcome(s: RaftNodeView, req: RequestVoteRequest, now: u64)
    ensures
        ({
            let (s1, a) = request_vote_step(s, req, now);
            let may_vote = req.term > s.current_term || s.voted_for is None || s.voted_for == Some(req.candidate_id);
            let fresh = req.last_log_term > term_of_last_entry(s.log) || (req.last_log_term == term_of_last_entry(s.log)
                && req.last_log_index >= s.log.len());
            &&& a.term == s1.current_term
            &&& req.term < s.current_term ==> s1 == s && !a.vote_granted
            &&& req.term > s.current_term ==> {
                &&& s1.current_term == req.term
                &&& s1.state == NodeState::Follower
                &&& s1.leader_id is None
            }
            &&& req.term == s.current_term ==> s1.current_term == s.current_term && s1.state == s.state && s1.leader_id == s.leader_id
            &&& a.vote_granted <==> (req.term >= s.current_term && may_vote && fresh)
            &&& a.vote_granted ==> s1.voted_for == Some(req.candidate_id) && s1.election_timer == Some(now)
            &&& !a.vote_granted ==> s1.election_timer == s.election_timer
            &&& !a.vote_granted && req.term > s.current_term ==> s1.voted_for is None
            &&& !a.vote_granted && req.term <= s.current_term ==> s1.voted_for == s.voted_for
            &&& s1.log == s.log
            &&& s1.store == s.store
            &&& s1.commit_index == s.commit_index
        }),
{
}

/// What a leader sends a follower: its current term and its own id, the index
/// before the follower's next index with the leader's own term for it, every
/// entry of its log from the follower's next index on (none when that is past
/// the log), and its commit index.
pub proof fn law_replication_request_content(s: RaftNodeView, peer: NodeId, req: AppendEntriesRequest)
    requires
        s.followers.contains_key(peer),
        s.followers[peer].next_index >= 1,
        append_request_for(s, peer, req),
    ensures
        req.term == s.current_term,
        req.leader_id == s.id,
        req.prev_log_index == s.followers[peer].next_index - 1,
        0 < req.prev_log_index <= s.log.len() ==> req.prev_log_term == s.log[req.prev_log_index - 1].term,
        req.prev_log_index < s.log.len() ==> req.entries@ == s.log.subrange(req.prev_log_index as int, s.log.len() as int),
        req.prev_log_index >= s.log.len() ==> req.entries@.len() == 0,
        req.leader_commit == s.commit_index,
{
    if req.prev_log_index < s.log.len() {
        assert(s.log.skip(req.prev_log_index as int) =~= s.log.subrange(req.prev_log_index as int, s.log.len() as int));
    }
}

} // verus!
