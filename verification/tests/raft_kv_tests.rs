use std::collections::HashMap;

use raft_kv::api::{read_value, PutResponse};
use raft_kv::error::KvError;
use raft_kv::raft::election_due;
use raft_kv::raft::types::{
    AppendEntriesRequest, AppendEntriesResponse, Config, LogEntry, NodeState, RequestVoteRequest,
    RequestVoteResponse,
};
use raft_kv::raft::RaftNode;
use raft_kv::storage::{Storage, StorageCommand};

fn config(node_id: u64, peers: Vec<u64>) -> Config {
    Config { node_id, peers, ..Config::default() }
}

fn node(node_id: u64, peers: Vec<u64>) -> RaftNode {
    RaftNode::new(config(node_id, peers), Storage::new())
}

fn entry(index: u64, term: u64, key: &str, value: Option<&str>, client_id: u128) -> LogEntry {
    LogEntry {
        index,
        term,
        command: StorageCommand { key: key.to_string(), value: value.map(|v| v.to_string()) },
        client_id,
    }
}

fn append(term: u64, leader_id: u64, prev_log_index: u64, prev_log_term: u64, entries: Vec<LogEntry>, leader_commit: u64) -> AppendEntriesRequest {
    AppendEntriesRequest { term, leader_id, prev_log_index, prev_log_term, entries, leader_commit }
}

fn granted(term: u64) -> Option<RequestVoteResponse> {
    Some(RequestVoteResponse { term, vote_granted: true })
}

/// A leader of a three-node cluster (peers 2 and 3), elected in term 1.
fn leader_of_three() -> RaftNode {
    let mut n = node(1, vec![2, 3]);
    let (req, _) = n.start_election(0);
    n.conclude_election(req.term, vec![granted(req.term), None]);
    assert_eq!(n.get_state(), NodeState::Leader);
    n
}

#[test]
fn storage_set_get_delete() {
    let mut s = Storage::new();
    assert_eq!(s.get("a"), None);
    s.set("a".to_string(), "1".to_string());
    assert_eq!(s.get("a"), Some("1".to_string()));
    s.set("a".to_string(), "2".to_string());
    assert_eq!(s.get("a"), Some("2".to_string()));
    assert_eq!(s.delete("a"), Some("2".to_string()));
    assert_eq!(s.get("a"), None);
    assert_eq!(s.delete("a"), None);
}

#[test]
fn storage_apply_command_sets_and_deletes() {
    let mut s = Storage::new();
    s.apply_command(&StorageCommand { key: "k".to_string(), value: Some("v".to_string()) });
    s.apply_command(&StorageCommand { key: "j".to_string(), value: Some("w".to_string()) });
    assert_eq!(s.get("k"), Some("v".to_string()));
    s.apply_command(&StorageCommand { key: "k".to_string(), value: None });
    assert_eq!(s.get("k"), None);
    assert_eq!(s.get("j"), Some("w".to_string()));
}

#[test]
fn config_default_values() {
    let c = Config::default();
    assert_eq!(c.node_id, 1);
    assert!(c.peers.is_empty());
    assert!(c.peer_addresses.is_empty());
    assert_eq!(c.election_timeout_min_ms, 150);
    assert_eq!(c.election_timeout_max_ms, 300);
    assert_eq!(c.heartbeat_interval_ms, 50);
}

#[test]
fn error_messages_and_statuses() {
    assert_eq!(KvError::KeyNotFound.message(), "Key not found");
    assert_eq!(KvError::NotLeader { leader_id: Some(2) }.message(), "Not leader");
    assert_eq!(KvError::Internal("boom".to_string()).message(), "Internal error: boom");
    assert_eq!(KvError::Timeout.message(), "Timeout");
    assert_eq!(KvError::Network("down".to_string()).message(), "Network error: down");
    assert_eq!(KvError::NoLeaderElected.message(), "No leader elected");
    assert_eq!(KvError::PeerNotFound(3).message(), "Peer not found: 3");
    assert_eq!(KvError::PeerNotFound(0).message(), "Peer not found: 0");
    assert_eq!(KvError::PeerNotFound(18446744073709551615).message(), "Peer not found: 18446744073709551615");
    assert_eq!(KvError::PeerNotFound(1024).message(), "Peer not found: 1024");
    assert_eq!(KvError::NoLeaderElected.status_code(), 500);
    assert_eq!(KvError::PeerNotFound(3).status_code(), 500);
    assert_eq!(KvError::PeerNotFound(3).error_response().leader_id, None);
    assert_eq!(KvError::KeyNotFound.status_code(), 404);
    assert_eq!(KvError::NotLeader { leader_id: None }.status_code(), 421);
    assert_eq!(KvError::Timeout.status_code(), 500);
    assert_eq!(KvError::Internal("x".to_string()).status_code(), 500);
    assert_eq!(KvError::Network("x".to_string()).status_code(), 500);
    let r = KvError::NotLeader { leader_id: Some(3) }.error_response();
    assert_eq!(r.error, "Not leader");
    assert_eq!(r.leader_id, Some(3));
    let r = KvError::KeyNotFound.error_response();
    assert_eq!(r.error, "Key not found");
    assert_eq!(r.leader_id, None);
}

#[test]
fn put_response_stored() {
    let r = PutResponse::stored();
    assert!(r.success);
    assert_eq!(r.message, Some("Value successfully stored".to_string()));
}

#[test]
fn new_node_is_follower_in_term_zero() {
    let n = node(7, vec![8]);
    assert_eq!(n.id, 7);
    assert_eq!(n.get_state(), NodeState::Follower);
    assert_eq!(n.get_term(), 0);
    assert_eq!(n.get_leader_id(), None);
    assert_eq!(n.get("x").unwrap(), None);
}

#[test]
fn peer_address_lookup() {
    let mut addresses = HashMap::new();
    addresses.insert(2, "http://127.0.0.1:3002".to_string());
    let n = RaftNode::new(Config { node_id: 1, peers: vec![2], peer_addresses: addresses, ..Config::default() }, Storage::new());
    assert_eq!(n.get_peer_address(2), Some("http://127.0.0.1:3002".to_string()));
    assert_eq!(n.get_peer_address(3), None);
}

#[test]
fn vote_granted_to_first_candidate_only() {
    let mut n = node(1, vec![2, 3]);
    let r = n.handle_request_vote(RequestVoteRequest { term: 1, candidate_id: 2, last_log_index: 0, last_log_term: 0 }, 5);
    assert_eq!(r, RequestVoteResponse { term: 1, vote_granted: true });
    assert_eq!(n.get_term(), 1);
    let r = n.handle_request_vote(RequestVoteRequest { term: 1, candidate_id: 3, last_log_index: 0, last_log_term: 0 }, 6);
    assert_eq!(r, RequestVoteResponse { term: 1, vote_granted: false });
    // The same candidate asking again gets the vote again.
    let r = n.handle_request_vote(RequestVoteRequest { term: 1, candidate_id: 2, last_log_index: 0, last_log_term: 0 }, 7);
    assert!(r.vote_granted);
}

#[test]
fn vote_refused_for_stale_term() {
    let mut n = node(1, vec![2]);
    n.handle_request_vote(RequestVoteRequest { term: 3, candidate_id: 2, last_log_index: 0, last_log_term: 0 }, 1);
    let r = n.handle_request_vote(RequestVoteRequest { term: 2, candidate_id: 2, last_log_index: 9, last_log_term: 9 }, 2);
    assert_eq!(r, RequestVoteResponse { term: 3, vote_granted: false });
    assert_eq!(n.get_term(), 3);
}

#[test]
fn vote_refused_for_outdated_log() {
    let mut n = node(1, vec![2, 3]);
    let r = n.handle_append_entries(append(2, 2, 0, 0, vec![entry(1, 2, "a", Some("1"), 1)], 0), 0);
    assert!(r.success);
    // Candidate's last term is older.
    let r = n.handle_request_vote(RequestVoteRequest { term: 3, candidate_id: 3, last_log_index: 5, last_log_term: 1 }, 1);
    assert_eq!(r, RequestVoteResponse { term: 3, vote_granted: false });
    // Same last term but shorter log.
    let r = n.handle_request_vote(RequestVoteRequest { term: 3, candidate_id: 3, last_log_index: 0, last_log_term: 2 }, 1);
    assert!(!r.vote_granted);
    // Same last term, as long a log.
    let r = n.handle_request_vote(RequestVoteRequest { term: 3, candidate_id: 3, last_log_index: 1, last_log_term: 2 }, 1);
    assert!(r.vote_granted);
}

#[test]
fn higher_term_vote_request_makes_leader_step_down() {
    let mut n = leader_of_three();
    let r = n.handle_request_vote(RequestVoteRequest { term: 5, candidate_id: 2, last_log_index: 0, last_log_term: 0 }, 1);
    assert!(r.vote_granted);
    assert_eq!(n.get_state(), NodeState::Follower);
    assert_eq!(n.get_term(), 5);
    assert_eq!(n.get_leader_id(), None);
}

#[test]
fn append_entries_accepts_and_sets_leader() {
    let mut n = node(2, vec![1, 3]);
    let r = n.handle_append_entries(append(1, 1, 0, 0, vec![entry(1, 1, "k", Some("v"), 9)], 0), 0);
    assert_eq!(r, AppendEntriesResponse { term: 1, success: true });
    assert_eq!(n.get_leader_id(), Some(1));
    assert_eq!(n.get_state(), NodeState::Follower);
    assert_eq!(n.get_term(), 1);
    // Nothing committed yet: nothing to apply.
    assert!(n.apply_committed_entries().is_empty());
    // The leader's commit index arrives with the next request.
    let r = n.handle_append_entries(append(1, 1, 1, 1, vec![], 1), 1);
    assert!(r.success);
    assert_eq!(n.apply_committed_entries(), vec![9]);
    assert_eq!(n.get("k").unwrap(), Some("v".to_string()));
}

#[test]
fn append_entries_refused_for_stale_term() {
    let mut n = node(2, vec![1]);
    n.handle_request_vote(RequestVoteRequest { term: 4, candidate_id: 1, last_log_index: 0, last_log_term: 0 }, 0);
    let r = n.handle_append_entries(append(3, 1, 0, 0, vec![entry(1, 3, "k", Some("v"), 1)], 1), 1);
    assert_eq!(r, AppendEntriesResponse { term: 4, success: false });
    assert_eq!(n.get_leader_id(), None);
}

#[test]
fn append_entries_refused_when_previous_entry_missing() {
    let mut n = node(2, vec![1]);
    let r = n.handle_append_entries(append(1, 1, 3, 1, vec![entry(4, 1, "k", Some("v"), 1)], 0), 0);
    assert_eq!(r, AppendEntriesResponse { term: 1, success: false });
    assert_eq!(n.get_leader_id(), Some(1));
}

#[test]
fn append_entries_mismatch_cuts_the_log() {
    let mut n = node(2, vec![1]);
    let r = n.handle_append_entries(
        append(1, 1, 0, 0, vec![entry(1, 1, "a", Some("1"), 1), entry(2, 1, "b", Some("2"), 2)], 0),
        0,
    );
    assert!(r.success);
    // The entry at index 2 has term 1, not 2: refused, and the log is cut to index 1.
    let r = n.handle_append_entries(append(2, 1, 2, 2, vec![], 0), 1);
    assert_eq!(r, AppendEntriesResponse { term: 2, success: false });
    // Index 2 is gone now.
    let r = n.handle_append_entries(append(2, 1, 2, 1, vec![], 0), 2);
    assert!(!r.success);
    // Index 1 is still there.
    let r = n.handle_append_entries(append(2, 1, 1, 1, vec![entry(2, 2, "c", Some("3"), 3)], 2), 3);
    assert!(r.success);
    assert_eq!(n.apply_committed_entries(), vec![1, 3]);
    assert_eq!(n.get("a").unwrap(), Some("1".to_string()));
    assert_eq!(n.get("b").unwrap(), None);
    assert_eq!(n.get("c").unwrap(), Some("3".to_string()));
}

#[test]
fn append_entries_commit_bounded_by_log_length() {
    let mut n = node(2, vec![1]);
    let r = n.handle_append_entries(append(1, 1, 0, 0, vec![entry(1, 1, "a", Some("1"), 5)], 10), 0);
    assert!(r.success);
    // Commit index is min(10, 1) = 1: one entry applied.
    assert_eq!(n.apply_committed_entries(), vec![5]);
}

#[test]
fn lone_node_elects_itself() {
    let mut n = node(1, vec![]);
    let (req, peers) = n.start_election(100);
    assert_eq!(req, RequestVoteRequest { term: 1, candidate_id: 1, last_log_index: 0, last_log_term: 0 });
    assert!(peers.is_empty());
    assert_eq!(n.get_state(), NodeState::Candidate);
    n.conclude_election(req.term, vec![]);
    assert_eq!(n.get_state(), NodeState::Leader);
    assert_eq!(n.get_leader_id(), Some(1));
    assert_eq!(n.get_term(), 1);
}

#[test]
fn election_needs_a_majority() {
    // Five-node cluster: majority is 3, the candidate's own vote and two more.
    let mut n = node(1, vec![2, 3, 4, 5]);
    let (req, peers) = n.start_election(0);
    assert_eq!(peers, vec![2, 3, 4, 5]);
    n.conclude_election(req.term, vec![granted(1), None, Some(RequestVoteResponse { term: 1, vote_granted: false }), None]);
    assert_eq!(n.get_state(), NodeState::Candidate);
    let (req, _) = n.start_election(1);
    assert_eq!(req.term, 2);
    n.conclude_election(req.term, vec![granted(2), None, granted(2), None]);
    assert_eq!(n.get_state(), NodeState::Leader);
}

#[test]
fn election_with_later_term_answer_steps_down() {
    let mut n = node(1, vec![2, 3]);
    let (req, _) = n.start_election(0);
    n.conclude_election(req.term, vec![Some(RequestVoteResponse { term: 7, vote_granted: false }), granted(1)]);
    assert_eq!(n.get_state(), NodeState::Follower);
    assert_eq!(n.get_term(), 7);
}

#[test]
fn election_counting_stops_at_majority() {
    // Three-node cluster: the first granted vote wins; a later term after it is not read.
    let mut n = node(1, vec![2, 3]);
    let (req, _) = n.start_election(0);
    n.conclude_election(req.term, vec![granted(1), Some(RequestVoteResponse { term: 9, vote_granted: false })]);
    assert_eq!(n.get_state(), NodeState::Leader);
    assert_eq!(n.get_term(), 1);
}

#[test]
fn stale_election_result_is_ignored() {
    let mut n = node(1, vec![2, 3]);
    let (req, _) = n.start_election(0);
    // Meanwhile the node moved to term 4 as a follower.
    n.handle_append_entries(append(4, 2, 0, 0, vec![], 0), 1);
    n.conclude_election(req.term, vec![granted(1), granted(1)]);
    assert_eq!(n.get_state(), NodeState::Follower);
    assert_eq!(n.get_term(), 4);
}

#[test]
fn set_on_follower_is_refused() {
    let mut n = node(2, vec![1]);
    n.handle_append_entries(append(1, 1, 0, 0, vec![], 0), 0);
    match n.set("k".to_string(), "v".to_string()) {
        Err(KvError::NotLeader { leader_id }) => assert_eq!(leader_id, Some(1)),
        other => panic!("unexpected {:?}", other),
    }
}

#[test]
fn leader_write_then_read_lone_node() {
    let mut n = node(1, vec![]);
    let (req, _) = n.start_election(0);
    n.conclude_election(req.term, vec![]);
    let id = n.set("mykey".to_string(), "myvalue".to_string()).unwrap();
    assert!(n.replicate_log().is_empty());
    assert_eq!(n.apply_committed_entries(), vec![id]);
    assert_eq!(read_value(&n, "mykey").unwrap().value, "myvalue");
    match read_value(&n, "other") {
        Err(KvError::KeyNotFound) => {},
        _ => panic!("expected KeyNotFound"),
    }
}

#[test]
fn client_ids_are_fresh() {
    let mut n = node(1, vec![]);
    let (req, _) = n.start_election(0);
    n.conclude_election(req.term, vec![]);
    let a = n.set("k".to_string(), "1".to_string()).unwrap();
    let b = n.set("k".to_string(), "2".to_string()).unwrap();
    assert_ne!(a, b);
    n.replicate_log();
    assert_eq!(n.apply_committed_entries(), vec![a, b]);
    assert_eq!(n.get("k").unwrap(), Some("2".to_string()));
}

#[test]
fn replicate_log_builds_requests_for_each_follower() {
    let mut n = leader_of_three();
    let id = n.set("k".to_string(), "v".to_string()).unwrap();
    let mut reqs = n.replicate_log();
    reqs.sort_by_key(|(peer, _)| *peer);
    assert_eq!(reqs.len(), 2);
    for (i, (peer, req)) in reqs.iter().enumerate() {
        assert_eq!(*peer, 2 + i as u64);
        assert_eq!(req.term, 1);
        assert_eq!(req.leader_id, 1);
        // Followers start at next index 1 (log was empty at election).
        assert_eq!(req.prev_log_index, 0);
        assert_eq!(req.prev_log_term, 0);
        assert_eq!(req.entries.len(), 1);
        assert_eq!(req.entries[0].client_id, id);
        assert_eq!(req.entries[0].index, 1);
        assert_eq!(req.leader_commit, 0);
    }
    // No follower has it yet: nothing committed.
    assert!(n.apply_committed_entries().is_empty());
}

#[test]
fn follower_replication_and_commit_three_nodes() {
    let mut leader = leader_of_three();
    let mut f2 = node(2, vec![1, 3]);
    let mut f3 = node(3, vec![1, 2]);
    let id = leader.set("mykey".to_string(), "myvalue".to_string()).unwrap();
    let reqs = leader.replicate_log();
    for (peer, req) in reqs {
        if peer == 2 {
            let copy = append(req.term, req.leader_id, req.prev_log_index, req.prev_log_term, req.entries.clone(), req.leader_commit);
            let resp = f2.handle_append_entries(copy, 10);
            assert!(resp.success);
            leader.handle_append_entries_response(peer, req, resp);
        }
    }
    // Leader and node 2 hold the entry: a majority of three. The next round commits it.
    let reqs = leader.replicate_log();
    assert_eq!(leader.apply_committed_entries(), vec![id]);
    assert_eq!(leader.get("mykey").unwrap(), Some("myvalue".to_string()));
    // The round after tells followers the commit index.
    let reqs2 = leader.replicate_log();
    drop(reqs);
    for (peer, req) in reqs2 {
        let f = if peer == 2 { &mut f2 } else { &mut f3 };
        let resp = f.handle_append_entries(req, 20);
        assert!(resp.success);
    }
    assert_eq!(f2.apply_committed_entries(), vec![id]);
    assert_eq!(f2.get("mykey").unwrap(), Some("myvalue".to_string()));
    assert_eq!(f3.apply_committed_entries(), vec![id]);
    assert_eq!(read_value(&f3, "mykey").unwrap().value, "myvalue");
}

#[test]
fn refused_append_moves_next_index_back() {
    let mut leader = leader_of_three();
    leader.set("a".to_string(), "1".to_string()).unwrap();
    leader.set("b".to_string(), "2".to_string()).unwrap();
    // Pretend follower 2 matched both entries.
    let ok = append(1, 1, 0, 0, vec![entry(1, 1, "a", Some("1"), 0), entry(2, 1, "b", Some("2"), 0)], 0);
    leader.handle_append_entries_response(2, ok, AppendEntriesResponse { term: 1, success: true });
    let reqs = leader.replicate_log();
    let (_, r2) = reqs.iter().find(|(p, _)| *p == 2).unwrap();
    assert_eq!(r2.prev_log_index, 2);
    assert_eq!(r2.prev_log_term, 1);
    assert!(r2.entries.is_empty());
    // Requests carry the commit index from before this round's commit.
    assert_eq!(r2.leader_commit, 0);
    // A refusal moves next index from 3 to 2.
    let bad = append(1, 1, 2, 1, vec![], 2);
    leader.handle_append_entries_response(2, bad, AppendEntriesResponse { term: 1, success: false });
    let reqs = leader.replicate_log();
    let (_, r2) = reqs.iter().find(|(p, _)| *p == 2).unwrap();
    assert_eq!(r2.prev_log_index, 1);
    assert_eq!(r2.entries.len(), 1);
    assert_eq!(r2.entries[0].index, 2);
    assert_eq!(r2.leader_commit, 2);
    // Node 3 never answered: next index 1, everything sent, never below 1.
    let (_, r3) = reqs.iter().find(|(p, _)| *p == 3).unwrap();
    assert_eq!(r3.prev_log_index, 0);
    assert_eq!(r3.entries.len(), 2);
    let bad = append(1, 1, 0, 0, vec![], 2);
    leader.handle_append_entries_response(3, bad, AppendEntriesResponse { term: 1, success: false });
    let reqs = leader.replicate_log();
    let (_, r3) = reqs.iter().find(|(p, _)| *p == 3).unwrap();
    assert_eq!(r3.prev_log_index, 0);
}

#[test]
fn later_term_answer_makes_leader_step_down() {
    let mut leader = leader_of_three();
    leader.handle_append_entries_response(2, append(1, 1, 0, 0, vec![], 0), AppendEntriesResponse { term: 3, success: false });
    assert_eq!(leader.get_state(), NodeState::Follower);
    assert_eq!(leader.get_term(), 3);
    assert_eq!(leader.get_leader_id(), None);
    // A non-leader sends nothing.
    assert!(leader.replicate_log().is_empty());
}

#[test]
fn even_cluster_commits_only_on_majority() {
    // Four nodes: leader plus three followers; a majority is three.
    let mut n = node(1, vec![2, 3, 4]);
    let (req, _) = n.start_election(0);
    n.conclude_election(req.term, vec![granted(1), granted(1), None]);
    assert_eq!(n.get_state(), NodeState::Leader);
    let id = n.set("k".to_string(), "v".to_string()).unwrap();
    let held = |id| append(1, 1, 0, 0, vec![entry(1, 1, "k", Some("v"), id)], 0);
    // Two of four hold the entry: not committed.
    n.handle_append_entries_response(2, held(id), AppendEntriesResponse { term: 1, success: true });
    n.replicate_log();
    assert!(n.apply_committed_entries().is_empty());
    // Three of four: committed.
    n.handle_append_entries_response(3, held(id), AppendEntriesResponse { term: 1, success: true });
    n.replicate_log();
    assert_eq!(n.apply_committed_entries(), vec![id]);
}

#[test]
fn two_node_cluster_needs_both() {
    let mut n = node(1, vec![2]);
    let (req, _) = n.start_election(0);
    n.conclude_election(req.term, vec![granted(1)]);
    assert_eq!(n.get_state(), NodeState::Leader);
    let id = n.set("k".to_string(), "v".to_string()).unwrap();
    n.replicate_log();
    assert!(n.apply_committed_entries().is_empty());
    n.handle_append_entries_response(2, append(1, 1, 0, 0, vec![entry(1, 1, "k", Some("v"), id)], 0), AppendEntriesResponse { term: 1, success: true });
    n.replicate_log();
    assert_eq!(n.apply_committed_entries(), vec![id]);
}

#[test]
fn forward_target_decisions() {
    let mut addresses = HashMap::new();
    addresses.insert(2, "http://127.0.0.1:3002".to_string());
    let mut n = RaftNode::new(Config { node_id: 1, peers: vec![2, 3], peer_addresses: addresses, ..Config::default() }, Storage::new());
    match n.forward_target("/key/a") {
        Err(KvError::NoLeaderElected) => {},
        other => panic!("unexpected {:?}", other),
    }
    n.handle_append_entries(append(1, 2, 0, 0, vec![], 0), 0);
    assert_eq!(n.forward_target("/key/a").unwrap(), "http://127.0.0.1:3002/key/a");
    n.handle_append_entries(append(2, 3, 0, 0, vec![], 0), 1);
    match n.forward_target("/key/a") {
        Err(KvError::PeerNotFound(3)) => {},
        other => panic!("unexpected {:?}", other),
    }
}

#[test]
fn election_timer_decisions() {
    assert!(election_due(None, 0, 150));
    assert!(!election_due(Some(100), 200, 150));
    assert!(election_due(Some(100), 250, 150));
    // A clock reading before the reset counts as no time passed.
    assert!(!election_due(Some(100), 50, 1));
    assert!(election_due(Some(100), 50, 0));

    let mut n = node(1, vec![2]);
    // Timer never started: an election is due.
    assert!(n.should_start_election(0));
    assert_eq!(n.last_election_reset(), None);
    // With the timer never started no timeout is drawn, so bounds that leave
    // nothing to draw do no harm.
    let odd = RaftNode::new(Config { election_timeout_min_ms: 10, election_timeout_max_ms: 5, ..config(1, vec![2]) }, Storage::new());
    assert!(odd.should_start_election(0));
    n.reset_election_timer(1000);
    assert_eq!(n.last_election_reset(), Some(1000));
    assert!(!n.should_start_election(1100));
    assert!(n.should_start_election(1300));
    // Drawn timeouts stay within the configured bounds.
    for _ in 0..100 {
        let t = n.random_election_timeout();
        assert!((150..=300).contains(&t));
    }
    // A leader never starts an election.
    let mut lone = node(1, vec![]);
    let (req, _) = lone.start_election(0);
    lone.conclude_election(req.term, vec![]);
    assert!(!lone.should_start_election(1_000_000));
}

#[test]
fn timeout_draws_vary() {
    let n = node(1, vec![]);
    let draws: std::collections::HashSet<u64> = (0..200).map(|_| n.random_election_timeout()).collect();
    assert!(draws.len() > 1);
}

#[test]
fn log_entry_clone_keeps_fields() {
    let e = entry(3, 2, "k", Some("v"), 42);
    let c = e.clone();
    assert_eq!(c.index, 3);
    assert_eq!(c.term, 2);
    assert_eq!(c.command.key, "k");
    assert_eq!(c.command.value, Some("v".to_string()));
    assert_eq!(c.client_id, 42);
}

#[test]
fn leader_commits_only_entries_of_its_term() {
    // A lone node first follows leader 5 and receives an entry of term 1.
    let mut n = node(1, vec![]);
    let r = n.handle_append_entries(append(1, 5, 0, 0, vec![entry(1, 1, "old", Some("x"), 11)], 0), 0);
    assert!(r.success);
    // It then leads term 2: its only entry is of term 1, so nothing commits.
    let (req, _) = n.start_election(10);
    assert_eq!(req.last_log_index, 1);
    assert_eq!(req.last_log_term, 1);
    n.conclude_election(req.term, vec![]);
    assert_eq!(n.get_state(), NodeState::Leader);
    n.replicate_log();
    assert!(n.apply_committed_entries().is_empty());
    // An entry of term 2 commits, and with it the earlier one.
    let id = n.set("new".to_string(), "y".to_string()).unwrap();
    n.replicate_log();
    assert_eq!(n.apply_committed_entries(), vec![11, id]);
    assert_eq!(n.get("old").unwrap(), Some("x".to_string()));
    assert_eq!(n.get("new").unwrap(), Some("y".to_string()));
    // Applying again changes nothing.
    assert!(n.apply_committed_entries().is_empty());
    assert_eq!(n.get("new").unwrap(), Some("y".to_string()));
}

#[test]
fn terms_only_grow_through_requests() {
    let mut n = node(1, vec![2]);
    n.handle_append_entries(append(5, 2, 0, 0, vec![], 0), 0);
    assert_eq!(n.get_term(), 5);
    n.handle_append_entries(append(3, 2, 0, 0, vec![], 0), 1);
    assert_eq!(n.get_term(), 5);
    n.handle_request_vote(RequestVoteRequest { term: 4, candidate_id: 2, last_log_index: 0, last_log_term: 0 }, 2);
    assert_eq!(n.get_term(), 5);
    let (req, _) = n.start_election(3);
    assert_eq!(req.term, 6);
    assert_eq!(n.get_term(), 6);
}

#[test]
fn delete_command_through_the_log() {
    let mut n = node(2, vec![1]);
    let r = n.handle_append_entries(
        append(1, 1, 0, 0, vec![entry(1, 1, "k", Some("v"), 1), entry(2, 1, "k", None, 2)], 2),
        0,
    );
    assert!(r.success);
    assert_eq!(n.apply_committed_entries(), vec![1, 2]);
    assert_eq!(n.get("k").unwrap(), None);
}

#[test]
fn vote_kept_through_append_requests() {
    let mut n = node(1, vec![2, 3]);
    let r = n.handle_request_vote(RequestVoteRequest { term: 1, candidate_id: 2, last_log_index: 0, last_log_term: 0 }, 0);
    assert!(r.vote_granted);
    let a = n.handle_append_entries(append(1, 2, 0, 0, vec![entry(1, 1, "k", Some("v"), 4)], 1), 1);
    assert!(a.success);
    assert_eq!(n.apply_committed_entries(), vec![4]);
    let r = n.handle_request_vote(RequestVoteRequest { term: 1, candidate_id: 3, last_log_index: 5, last_log_term: 1 }, 2);
    assert!(!r.vote_granted);
}

#[test]
fn follower_ignores_answers_it_cannot_use() {
    // A node that does not lead ignores an answer, even one whose index would overflow.
    let mut n = node(1, vec![2]);
    n.handle_append_entries_response(2, append(1, 2, u64::MAX, 0, vec![], 0), AppendEntriesResponse { term: 9, success: true });
    assert_eq!(n.get_term(), 0);
    assert_eq!(n.get_state(), NodeState::Follower);
    // A leader steps down on a later term without reading the indices.
    let mut l = leader_of_three();
    l.handle_append_entries_response(2, append(1, 1, u64::MAX, 0, vec![], 0), AppendEntriesResponse { term: 4, success: true });
    assert_eq!(l.get_state(), NodeState::Follower);
    assert_eq!(l.get_term(), 4);
}
