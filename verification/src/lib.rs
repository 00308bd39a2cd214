//! A key-value store replicated with the Raft consensus algorithm: the
//! node's decisions (elections, log replication, commitment, applying
//! committed commands to the store) as verified functions.

pub mod api;
pub mod error;
pub mod storage;
pub mod raft;
