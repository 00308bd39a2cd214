use std::collections::HashMap;
use vstd::prelude::*;

use crate::storage::StorageCommand;

verus! {

broadcast use vstd::std_specs::hash::group_hash_axioms;

pub type Term = u64;

pub type LogIndex = u64;

pub type NodeId = u64;

/// Identifies the client session a write belongs to.
pub type ClientId = u64;

/// Numbers a client's writes within its session.
pub type RequestId = u64;

/// The role a node plays in the cluster.
#[derive(Debug, Clone, Copy, PartialEq, Eq, Structural)]
pub enum NodeState {
    Follower,
    Candidate,
    Leader,
}

/// One replicated command, with the position and term it was proposed at and
/// the client request it answers (a 128-bit UUID).
#[derive(Debug)]
pub struct LogEntry {
    pub index: LogIndex,
    pub term: Term,
    pub command: StorageCommand,
    pub client_id: u128,
}

impl Clone for LogEntry {
    fn clone(&self) -> (r: Self)
        ensures
            r == *self,
    {
        LogEntry {
            index: self.index,
            term: self.term,
            command: self.command.clone(),
            client_id: self.client_id,
        }
    }
}

/// The leader's request that a follower append entries after a given point of its log.
#[derive(Debug, Clone)]
pub struct AppendEntriesRequest {
    pub term: Term,
    pub leader_id: NodeId,
    pub prev_log_index: LogIndex,
    pub prev_log_term: Term,
    pub entries: Vec<LogEntry>,
    pub leader_commit: LogIndex,
}

#[derive(Debug, Clone, Copy, PartialEq, Eq, Structural)]
pub struct AppendEntriesResponse {
    pub term: Term,
    pub success: bool,
}

#[derive(Debug, Clone, Copy, PartialEq, Eq, Structural)]
pub struct RequestVoteRequest {
    pub term: Term,
    pub candidate_id: NodeId,
    pub last_log_index: LogIndex,
    pub last_log_term: Term,
}

#[derive(Debug, Clone, Copy, PartialEq, Eq, Structural)]
pub struct RequestVoteResponse {
    pub term: Term,
    pub vote_granted: bool,
}

/// A node's identity, its peers and where to reach them, and its timing.
#[derive(Debug, Clone)]
pub struct Config {
    pub node_id: NodeId,
    pub peers: Vec<NodeId>,
    pub peer_addresses: HashMap<NodeId, String>,
    pub election_timeout_min_ms: u64,
    pub election_timeout_max_ms: u64,
    pub heartbeat_interval_ms: u64,
}

impl Default for Config {
    /// Node 1 with no peers, an election timeout between 150 and 300 ms and a
    /// heartbeat every 50 ms.
    fn default() -> (c: Self)
        ensures
            c.node_id == 1,
            c.peers@.len() == 0,
            c.peer_addresses@.dom().is_empty(),
            c.election_timeout_min_ms == 150,
            c.election_timeout_max_ms == 300,
            c.heartbeat_interval_ms == 50,
    {
        Config {
            node_id: 1,
            peers: Vec::new(),
            peer_addresses: HashMap::new(),
            election_timeout_min_ms: 150,
            election_timeout_max_ms: 300,
            heartbeat_interval_ms: 50,
        }
    }
}

} // verus!
