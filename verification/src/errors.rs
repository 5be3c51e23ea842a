use vstd::prelude::*;

verus! {

/// The unified failure taxonomy that the transport surfaces to its consumer.
/// Each variant tags one independent failure domain.
#[derive(Clone, Copy, Debug, PartialEq, Eq, Structural)]
pub enum FrameworkError {
    /// A payload could not be encoded, or inbound bytes did not decode to a value.
    Serialization,
    /// A frame was truncated before its declared length, or exceeded the frame limit.
    Framing,
    /// The underlying session or stream failed.
    Network,
    /// An operation was attempted after the transport was shut down.
    Closed,
}

impl FrameworkError {
    /// True exactly when this error reports use after shutdown.
    pub fn is_closed(&self) -> (r: bool)
        ensures
            r == (*self is Closed),
    {
        matches!(self, FrameworkError::Closed)
    }
}

} // verus!
