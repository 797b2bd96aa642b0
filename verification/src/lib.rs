//! Decision core for kernel-backed local locking.
//!
//! The operating system's descriptor lock is the only authority over ownership.
//! What surrounds it is decided here, on plain values: which paths may serve as
//! a rendezvous, in which order one thread may take locks, when a process may
//! enter a lock again, how many background waiters there may be, who gets a
//! result that comes late, and what is told about all of it. Opening, locking
//! and unlocking files, and running threads, is done by the caller, who hands
//! the answers back.

pub mod error;
pub mod event;
pub mod guard;
pub mod limiter;
pub mod lockset;
pub mod manager;
pub mod order;
pub mod owner;
pub mod path;
pub mod policy;
pub mod rendezvous;
pub mod request;
pub mod reserved;
pub mod sddl;
pub mod span;
pub mod text;
pub mod vetting;
pub mod waiter;

pub use error::{IoErrorKind, IoFailure, LockError};
pub use event::{LockEvent, LockEventKind};
pub use guard::{LockGuard, LockSetGuard};
pub use manager::{LockManager, LockManagerBuilder, ManagerState};
pub use order::HeldOrder;
pub use owner::OwnerInfo;
pub use path::{LockPath, Platform};
pub use policy::{FinalComponentOpenIntent, PathSecurityPolicy};
pub use request::{LockClass, LockRequest, SameProcessPolicy};
pub use span::{Span, WallTime};
pub use waiter::LockWaiter;
