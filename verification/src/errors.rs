use vstd::prelude::*;

verus! {

/// The failures the hub reports.
///
/// * `InvalidName` — a channel-name validator rejected its input.
/// * `InvalidEnvelope` — a WebSocket envelope could not be decoded, or the
///   wrong variant arrived where a specific one was awaited.
/// * `IoFailure` — a transport read or write failed.
/// * `TimedOut` — an awaited response did not arrive in time.
/// * `UnexpectedEof` — a connection closed before an exchange completed.
/// * `NoSuchAdapter` — an adapter index was out of range.
#[derive(Debug, Clone, Copy, PartialEq, Eq, Structural)]
pub enum HubError {
    InvalidName,
    InvalidEnvelope,
    IoFailure,
    TimedOut,
    UnexpectedEof,
    NoSuchAdapter,
}

impl HubError {
    /// A short description, in place of a `Display` implementation.
    pub fn describe(&self) -> (r: &'static str)
        ensures
            *self == HubError::InvalidName ==> r@ == "invalid channel name"@,
            *self == HubError::InvalidEnvelope ==> r@ == "invalid message envelope"@,
            *self == HubError::IoFailure ==> r@ == "transport failure"@,
            *self == HubError::TimedOut ==> r@ == "response timed out"@,
            *self == HubError::UnexpectedEof ==> r@ == "connection closed early"@,
            *self == HubError::NoSuchAdapter ==> r@ == "adapter index out of range"@,
    {
        match self {
            HubError::InvalidName => "invalid channel name",
            HubError::InvalidEnvelope => "invalid message envelope",
            HubError::IoFailure => "transport failure",
            HubError::TimedOut => "response timed out",
            HubError::UnexpectedEof => "connection closed early",
            HubError::NoSuchAdapter => "adapter index out of range",
        }
    }
}

} // verus!
