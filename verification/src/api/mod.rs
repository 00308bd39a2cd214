use vstd::prelude::*;
use vstd::string::StringExecFns;

use crate::error::{error_text, KvError};
use crate::raft::types::{ClientId, RequestId};
use crate::raft::RaftNode;

verus! {

/// The answer to a read: the value found.
pub struct GetResponse {
    pub value: String,
}

/// The body of a write: the value, and optionally the client session and the
/// number of the request within it.
pub struct PutRequest {
    pub value: String,
    pub client_id: Option<ClientId>,
    pub request_id: Option<RequestId>,
}

/// The answer to a write.
pub struct PutResponse {
    pub success: bool,
    pub message: Option<String>,
}

/// The body of an error answer: its text, and the leader to ask instead when
/// the node does not lead.
pub struct ErrorResponse {
    pub error: String,
    pub leader_id: Option<u64>,
}

/// The HTTP status that answers an error.
pub open spec fn status_of(e: KvError) -> u16 {
    match e {
        KvError::KeyNotFound => 404,
        KvError::NotLeader { .. } => 421,
        _ => 500,
    }
}

impl KvError {
    /// 404 (Not Found) for a missing key, 421 (Misdirected Request) when the
    /// node does not lead, 500 (Internal Server Error) otherwise.
    pub fn status_code(&self) -> (r: u16)
        ensures
            r == status_of(*self),
    {
        match self {
            KvError::KeyNotFound => 404,
            KvError::NotLeader { .. } => 421,
            _ => 500,
        }
    }

    /// The body of the error answer: the error's text, and the leader's id for
    /// `NotLeader` (none otherwise).
    pub fn error_response(&self) -> (r: ErrorResponse)
        ensures
            r.error@ == error_text(*self),
            r.leader_id == (match *self {
                KvError::NotLeader { leader_id } => leader_id,
                _ => None,
            }),
    {
        let leader_id = match self {
            KvError::NotLeader { leader_id } => *leader_id,
            _ => None,
        };
        ErrorResponse { error: self.message(), leader_id }
    }
}

impl PutResponse {
    /// The answer to a write that was stored.
    pub fn stored() -> (r: PutResponse)
        ensures
            r.success,
            r.message is Some,
            r.message->0@ == "Value successfully stored"@,
    {
        proof {
            reveal_strlit("Value successfully stored");
        }
        PutResponse { success: true, message: Some(String::from_str("Value successfully stored")) }
    }
}

/// Answers a read of `key` from `node`'s store: the value when the key is
/// there, `KeyNotFound` when it is not.
pub fn read_value(node: &RaftNode, key: &str) -> (r: Result<GetResponse, KvError>)
    ensures
        match r {
            Ok(g) => node@.store.contains_key(key@) && g.value@ == node@.store[key@],
            Err(e) => !node@.store.contains_key(key@) && e == KvError::KeyNotFound,
        },
{
    match node.get(key) {
        Ok(Some(value)) => Ok(GetResponse { value }),
        Ok(None) => Err(KvError::KeyNotFound),
        Err(e) => Err(e),
    }
}

} // verus!
