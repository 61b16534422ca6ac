//! What reading from a connection gives.
use vstd::prelude::*;

verus! {

/// The outcome of one attempt to read from a connection.
#[derive(Debug)]
pub enum Frame {
    /// A text message.
    Text(String),
    /// The answer to a ping.
    Pong,
    /// The other end closes the connection.
    Close,
    /// Any other message.
    Other,
    /// The connection failed.
    Failed,
    /// The connection has come to its end.
    Ended,
    /// Nothing came within the time allowed.
    Silent,
}

impl Frame {
    /// Whether the connection is lost with this.
    pub open spec fn is_loss(self) -> bool {
        self is Close || self is Failed || self is Ended || self is Silent
    }
}

} // verus!
