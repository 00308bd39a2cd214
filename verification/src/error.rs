use vstd::prelude::*;
use vstd::string::StringExecFns;

verus! {

/// What can go wrong when serving a request.
#[derive(Debug)]
pub enum KvError {
    KeyNotFound,
    NotLeader { leader_id: Option<u64> },
    NoLeaderElected,
    PeerNotFound(u64),
    Internal(String),
    Timeout,
    Network(String),
}

/// The text of one decimal digit.
pub open spec fn digit_text(d: nat) -> Seq<char> {
    if d == 0 {
        "0"@
    } else if d == 1 {
        "1"@
    } else if d == 2 {
        "2"@
    } else if d == 3 {
        "3"@
    } else if d == 4 {
        "4"@
    } else if d == 5 {
        "5"@
    } else if d == 6 {
        "6"@
    } else if d == 7 {
        "7"@
    } else if d == 8 {
        "8"@
    } else {
        "9"@
    }
}

/// A number written in decimal, without leading zeros.
pub open spec fn decimal(n: nat) -> Seq<char>
    decreases n,
{
    if n < 10 {
        digit_text(n)
    } else {
        decimal(n / 10) + digit_text(n % 10)
    }
}

/// The text an error shows to a user.
pub open spec fn error_text(e: KvError) -> Seq<char> {
    match e {
        KvError::KeyNotFound => "Key not found"@,
        KvError::NotLeader { .. } => "Not leader"@,
        KvError::NoLeaderElected => "No leader elected"@,
        KvError::PeerNotFound(id) => "Peer not found: "@ + decimal(id as nat),
        KvError::Internal(m) => "Internal error: "@ + m@,
        KvError::Timeout => "Timeout"@,
        KvError::Network(m) => "Network error: "@ + m@,
    }
}

/// The text of the digit `d`.
fn digit_str(d: u64) -> (r: &'static str)
    requires
        d < 10,
    ensures
        r@ == digit_text(d as nat),
{
    proof {
        reveal_strlit("0");
        reveal_strlit("1");
        reveal_strlit("2");
        reveal_strlit("3");
        reveal_strlit("4");
        reveal_strlit("5");
        reveal_strlit("6");
        reveal_strlit("7");
        reveal_strlit("8");
        reveal_strlit("9");
    }
    if d == 0 {
        "0"
    } else if d == 1 {
        "1"
    } else if d == 2 {
        "2"
    } else if d == 3 {
        "3"
    } else if d == 4 {
        "4"
    } else if d == 5 {
        "5"
    } else if d == 6 {
        "6"
    } else if d == 7 {
        "7"
    } else if d == 8 {
        "8"
    } else {
        "9"
    }
}

/// Appends `n` in decimal to `s`.
fn append_decimal(s: &mut String, n: u64)
    ensures
        final(s)@ == old(s)@ + decimal(n as nat),
    decreases n,
{
    if n < 10 {
        s.append(digit_str(n));
    } else {
        append_decimal(s, n / 10);
        s.append(digit_str(n % 10));
        assert(old(s)@ + decimal(n as nat) =~= old(s)@ + decimal((n / 10) as nat) + digit_text((n % 10) as nat));
    }
}

impl KvError {
    /// The error's text: "Key not found", "Not leader", "No leader elected",
    /// "Peer not found: <id>", "Internal error: <detail>", "Timeout" or
    /// "Network error: <detail>".
    pub fn message(&self) -> (r: String)
        ensures
            r@ == error_text(*self),
    {
        proof {
            reveal_strlit("Key not found");
            reveal_strlit("Not leader");
            reveal_strlit("No leader elected");
            reveal_strlit("Peer not found: ");
            reveal_strlit("Internal error: ");
            reveal_strlit("Timeout");
            reveal_strlit("Network error: ");
        }
        match self {
            KvError::KeyNotFound => String::from_str("Key not found"),
            KvError::NotLeader { .. } => String::from_str("Not leader"),
            KvError::NoLeaderElected => String::from_str("No leader elected"),
            KvError::PeerNotFound(id) => {
                let mut s = String::from_str("Peer not found: ");
                append_decimal(&mut s, *id);
                s
            },
            KvError::Internal(m) => {
                let mut s = String::from_str("Internal error: ");
                s.append(m.as_str());
                s
            },
            KvError::Timeout => String::from_str("Timeout"),
            KvError::Network(m) => {
                let mut s = String::from_str("Network error: ");
                s.append(m.as_str());
                s
            },
        }
    }
}

} // verus!
