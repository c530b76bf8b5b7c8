//! Readiness bookkeeping for multiplexing a serial device with other sources
//! in a single-threaded event loop.
//!
//! The library holds the decisions of the dispatcher: which tokens are
//! registered and how, what a wait call hands back to the application, when
//! a wait is retried, and how device I/O outcomes are to be treated. The
//! blocking calls themselves (the device, the poller) are performed by the
//! caller, which feeds their outcomes back in.

pub mod dispatch;
pub mod error;
pub mod table;
pub mod transfer;
pub mod types;

pub use dispatch::{Dispatcher, ReadyEvent, WaitStep, AUXILIARY_BASE};
pub use error::{DispatchError, IoKind};
pub use table::{Change, Registration, RegistrationTable};
pub use transfer::{drain_step, Drain};
pub use types::{Interest, SourceId, Token, TriggerMode};
