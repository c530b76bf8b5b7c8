use vstd::prelude::*;

use crate::error::IoKind;

verus! {

/// Whether a failed device call only means "not now": the device has
/// nothing to give or no room, or its own wait ran out.
pub open spec fn spec_not_ready(k: IoKind) -> bool {
    k == IoKind::WouldBlock || k == IoKind::TimedOut
}

impl IoKind {
    /// Whether this failure only says that the source is not ready.
    pub fn is_not_ready(&self) -> (r: bool)
        ensures
            r == spec_not_ready(*self),
    {
        match self {
            IoKind::WouldBlock | IoKind::TimedOut => true,
            _ => false,
        }
    }
}

/// What to do after one non-blocking read or write while draining a source
/// that was reported ready.
#[derive(Clone, Copy, Debug, PartialEq, Eq, Structural)]
pub enum Drain {
    /// This many bytes moved; call again.
    Moved(usize),
    /// A signal cut the call short; call again.
    Again,
    /// The source is drained: stop until it is reported ready again.
    Stop,
    /// A persistent failure that the application must see.
    Fail(IoKind),
}

/// The decision after one device call: bytes moved mean go on, a signal
/// means try again, no bytes or "not ready" mean stop and wait, and any
/// other failure is handed to the application rather than taken for the
/// end of the data.
pub open spec fn spec_drain_step(res: Result<usize, IoKind>) -> Drain {
    match res {
        Ok(n) => if n == 0 {
            Drain::Stop
        } else {
            Drain::Moved(n)
        },
        Err(k) => if spec_not_ready(k) {
            Drain::Stop
        } else if k == IoKind::Interrupted {
            Drain::Again
        } else {
            Drain::Fail(k)
        },
    }
}

pub fn drain_step(res: Result<usize, IoKind>) -> (r: Drain)
    ensures
        r == spec_drain_step(res),
{
    match res {
        Ok(n) => {
            if n == 0 {
                Drain::Stop
            } else {
                Drain::Moved(n)
            }
        },
        Err(k) => {
            if k.is_not_ready() {
                Drain::Stop
            } else {
                match k {
                    IoKind::Interrupted => Drain::Again,
                    _ => Drain::Fail(k),
                }
            }
        },
    }
}

} // verus!
