//! Policy enforcement for sandboxed worker processes.
//!
//! Every privileged operation that a worker attempts is a [`Syscall`]. A
//! [`SandboxManager`] holds one [`SandboxConfig`] per process id: the
//! capabilities the process was granted and the path prefixes it may touch.
//! The [`SyscallExecutor`] decides, from the registry alone, whether a request
//! is admitted, and classifies what the admitted operation reported back.
//! Nothing in this crate touches the file system or starts a process: the
//! caller performs the admitted [`Effect`] and hands its outcome back.

pub mod capability;
pub mod executor;
pub mod manager;
pub mod path;
pub mod sandbox;
pub mod syscall;

pub use capability::{Capability, CapabilitySet, TrustProfile};
pub use executor::SyscallExecutor;
pub use manager::{SandboxError, SandboxManager};
pub use path::CanonicalPath;
pub use sandbox::{SandboxConfig, SandboxPolicy};
pub use syscall::{Effect, Syscall, SyscallError, SyscallOutput, SystemInfo};
