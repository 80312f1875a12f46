use vstd::prelude::*;

verus! {

/// The two classes a probed port can fall into.
#[derive(Debug, Clone, Copy, PartialEq, Eq, Structural)]
pub enum PortStatus {
    OPEN,
    CLOSED,
}

/// The outcome of probing one port.
#[derive(Debug, Clone, Copy, PartialEq, Eq, Structural)]
pub struct PortInformation {
    pub id: u16,
    pub status: PortStatus,
}

/// How a time-bounded connection attempt ended.
#[derive(Debug, Clone, Copy, PartialEq, Eq, Structural)]
pub enum ConnectAttempt {
    /// The handshake completed before the wait bound elapsed.
    Connected,
    /// The connection was refused, unreachable or otherwise failed.
    Failed,
    /// The wait bound elapsed first.
    TimedOut,
}

/// The status a connection attempt stands for: only a completed
/// handshake counts as open.
pub open spec fn status_of(attempt: ConnectAttempt) -> PortStatus {
    match attempt {
        ConnectAttempt::Connected => PortStatus::OPEN,
        _ => PortStatus::CLOSED,
    }
}

/// Classifies one attempt against `port`.
pub fn probe_outcome(port: u16, attempt: ConnectAttempt) -> (r: PortInformation)
    ensures
        r.id == port,
        r.status == status_of(attempt),
        r.status == PortStatus::OPEN <==> attempt == ConnectAttempt::Connected,
{
    let status = match attempt {
        ConnectAttempt::Connected => PortStatus::OPEN,
        ConnectAttempt::Failed => PortStatus::CLOSED,
        ConnectAttempt::TimedOut => PortStatus::CLOSED,
    };
    PortInformation { id: port, status }
}

/// A status is open or closed, and nothing else.
pub proof fn lemma_status_is_open_or_closed(s: PortStatus)
    ensures
        s == PortStatus::OPEN || s == PortStatus::CLOSED,
        !(s == PortStatus::OPEN && s == PortStatus::CLOSED),
{
}

/// Classification depends on the attempt alone: two probes of one port
/// whose attempts ended the same way get the same outcome, and an attempt
/// that ran out of time is closed even if the peer would answer later.
pub proof fn lemma_classification_is_deterministic(a: ConnectAttempt, b: ConnectAttempt)
    ensures
        a == b ==> status_of(a) == status_of(b),
        status_of(ConnectAttempt::TimedOut) == PortStatus::CLOSED,
        status_of(ConnectAttempt::Failed) == PortStatus::CLOSED,
        status_of(ConnectAttempt::Connected) == PortStatus::OPEN,
{
}

} // verus!
