use vstd::prelude::*;

verus! {

/// What an operating-system call reported when it failed, reduced to the
/// kinds the dispatcher and its callers tell apart.
#[derive(Clone, Copy, Debug, PartialEq, Eq, Structural)]
pub enum IoKind {
    /// The source is not ready; try again once notified.
    WouldBlock,
    /// The device's own wait ran out without data or room.
    TimedOut,
    /// A signal arrived during the call.
    Interrupted,
    /// The device or the descriptor is gone.
    NotFound,
    PermissionDenied,
    InvalidInput,
    BrokenPipe,
    AlreadyExists,
    Other,
}

/// Failures of the dispatcher's operations.
#[derive(Clone, Copy, Debug, PartialEq, Eq, Structural)]
pub enum DispatchError {
    /// `register` with a token that is already registered.
    DuplicateToken,
    /// `reregister` or `deregister` of something that is not registered
    /// (or, for `reregister`, not under this token).
    InvalidToken,
    /// The poller refused a registration change. A source that is already
    /// registered under another token is refused as the poller refuses it,
    /// with `AlreadyExists`.
    BackendRejected(IoKind),
    /// The poller failed while waiting.
    BackendFailure(IoKind),
}

} // verus!
