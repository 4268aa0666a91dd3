//! A capability-based microkernel core: user-mode tasks hold unforgeable
//! capabilities to kernel objects, and every privileged operation —
//! retyping memory, mapping pages, sending messages, scheduling — is an
//! invocation on a capability. This crate covers the object store and
//! capability space, the address-space mapper, the task scheduler, the
//! synchronous IPC path, and the dispatcher that ties them together; the
//! hardware-facing collaborators (trap trampoline, console, timer,
//! firmware calls) stay outside it.

pub mod capability;
pub mod common;
pub mod cspace;
pub mod endpoint;
pub mod kernel;
pub mod sched;
pub mod vspace;

pub use capability::CapabilityType;
pub use common::{ErrKind, KernelError, KernelResult};
pub use kernel::{InvLabel, SysCallNo};
pub use sched::Registers;
