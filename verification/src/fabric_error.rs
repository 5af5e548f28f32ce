//! Error model. Small by design: only the distinctions that callers act on.
//! Remote failure never masquerades as local success.

use vstd::prelude::*;

use crate::text::{dec_text, push_dec};

verus! {

/// Why an endpoint or conversation stopped working.
#[derive(Clone, Copy, Debug, PartialEq, Eq, Structural)]
pub enum Cause {
    /// The holder closed its end deliberately.
    Graceful,
    /// The process behind the conversation died or its transport broke.
    PeerLost,
}

/// An operating-system error, carried as it came.
#[verifier::external_type_specification]
#[verifier::external_body]
pub struct ExIoError(std::io::Error);

#[derive(Debug)]
pub enum FabError {
    /// The endpoint's conversation is dead. The cause tells an orderly close
    /// from peer death.
    Closed(Cause),
    /// The local handle refers to authority that no longer exists in the
    /// runtime's tables.
    StaleEndpoint,
    /// A queue or resource limit was hit. The operation was not performed.
    Backpressured { queued_msgs: usize, queued_bytes: usize },
    /// A blocking wait exceeded its deadline without an event.
    Timeout,
    /// The transport to the host is gone. All authority is void.
    FabricLost,
    /// A peer showed protocol corruption; the affected scope failed closed.
    ProtocolViolation(&'static str),
    /// The payload of a delivered message could not be decoded. The fabric
    /// stays alive; this affects one message only.
    InvalidMessage(&'static str),
    /// The transfer that the operation depended on was aborted.
    TransferAborted(&'static str),
    /// The outcome of a transfer could not be learned.
    TransferUnknown,
    /// No identity could be drawn for a transfer.
    NoIdentity,
    Io(std::io::Error),
}

impl From<std::io::Error> for FabError {
    fn from(e: std::io::Error) -> (r: Self) {
        FabError::Io(e)
    }
}

impl vstd::std_specs::convert::FromSpecImpl<std::io::Error> for FabError {
    open spec fn obeys_from_spec() -> bool {
        true
    }

    open spec fn from_spec(e: std::io::Error) -> Self {
        FabError::Io(e)
    }
}

/// Calls `to_string` of `std::io::Error`. Its words come from the operating
/// system, so nothing is stated of them.
#[verifier::external_body]
fn io_text(e: &std::io::Error) -> (r: String) {
    e.to_string()
}

impl Cause {
    /// The name of the cause.
    pub open spec fn text(self) -> Seq<char> {
        match self {
            Cause::Graceful => "Graceful"@,
            Cause::PeerLost => "PeerLost"@,
        }
    }

    fn name(self) -> (r: &'static str)
        ensures
            r@ == self.text(),
    {
        match self {
            Cause::Graceful => "Graceful",
            Cause::PeerLost => "PeerLost",
        }
    }
}

impl FabError {
    /// The error in words. Of an operating-system error only the words before
    /// its own are fixed.
    pub fn message(&self) -> (r: String)
        ensures
            match *self {
                FabError::Closed(c) => r@ == "endpoint closed ("@ + c.text() + ")"@,
                FabError::StaleEndpoint => r@ == "stale endpoint identity"@,
                FabError::Backpressured { queued_msgs, queued_bytes } => r@ == "backpressured ("@
                    + dec_text(queued_msgs as nat) + " msgs, "@ + dec_text(queued_bytes as nat)
                    + " bytes queued)"@,
                FabError::Timeout => r@ == "operation timed out"@,
                FabError::FabricLost => r@ == "fabric transport lost"@,
                FabError::ProtocolViolation(why) => r@ == "protocol violation: "@ + why@,
                FabError::InvalidMessage(why) => r@ == "invalid message payload: "@ + why@,
                FabError::TransferAborted(why) => r@ == "transfer aborted: "@ + why@,
                FabError::TransferUnknown => r@ == "transfer outcome unknown"@,
                FabError::NoIdentity => r@ == "no identity could be drawn"@,
                FabError::Io(_) => "io error: "@.is_prefix_of(r@),
            },
    {
        match self {
            FabError::Closed(c) => {
                let mut s = String::from_str("endpoint closed (");
                s.append(c.name());
                s.append(")");
                s
            },
            FabError::StaleEndpoint => String::from_str("stale endpoint identity"),
            FabError::Backpressured { queued_msgs, queued_bytes } => {
                let mut s = String::from_str("backpressured (");
                push_dec(&mut s, *queued_msgs as u64);
                s.append(" msgs, ");
                push_dec(&mut s, *queued_bytes as u64);
                s.append(" bytes queued)");
                s
            },
            FabError::Timeout => String::from_str("operation timed out"),
            FabError::FabricLost => String::from_str("fabric transport lost"),
            FabError::ProtocolViolation(why) => {
                let mut s = String::from_str("protocol violation: ");
                s.append(why);
                s
            },
            FabError::InvalidMessage(why) => {
                let mut s = String::from_str("invalid message payload: ");
                s.append(why);
                s
            },
            FabError::TransferAborted(why) => {
                let mut s = String::from_str("transfer aborted: ");
                s.append(why);
                s
            },
            FabError::TransferUnknown => String::from_str("transfer outcome unknown"),
            FabError::NoIdentity => String::from_str("no identity could be drawn"),
            FabError::Io(e) => {
                let mut s = String::from_str("io error: ");
                let t = io_text(e);
                s.append(t.as_str());
                assert("io error: "@.is_prefix_of(s@));
                s
            },
        }
    }
}

} // verus!
