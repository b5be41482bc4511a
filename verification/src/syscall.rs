//! Requests, the effects they stand for, and their results.
//!
//! A [`Syscall`] is what a process asks for. An [`Effect`] is what the
//! caller has to perform once the request was admitted: the same operation,
//! with its path in canonical form. A [`SyscallOutput`] is what a
//! successful operation returns, and a [`SyscallError`] says why there is
//! none: because the request was denied, or because the operation itself
//! failed. The two are never mixed up: a file that does not exist is
//! `Exists(false)`, not a denial.

use vstd::prelude::*;

use crate::capability::Capability;
use crate::path::{canonical, path_bytes, CanonicalPath};

verus! {

/// One request of a sandboxed process.
#[derive(Clone, Debug, PartialEq, Eq)]
pub enum Syscall {
    /// Asks whether a file exists.
    FileExists {
        /// The file in question.
        path: String,
    },
    /// Asks for the content of a file.
    ReadFile {
        /// The file to read.
        path: String,
    },
    /// Asks to replace the content of a file.
    WriteFile {
        /// The file to write.
        path: String,
        /// Its new content.
        data: Vec<u8>,
    },
    /// Asks to start a child process.
    SpawnProcess {
        /// The program to run.
        command: String,
        /// Its arguments.
        args: Vec<String>,
    },
    /// Asks for information about the host system.
    GetSystemInfo,
}

impl Syscall {
    /// The capability without which this request is denied.
    pub open spec fn needed(self) -> Capability {
        match self {
            Syscall::FileExists { .. } => Capability::FileRead,
            Syscall::ReadFile { .. } => Capability::FileRead,
            Syscall::WriteFile { .. } => Capability::FileWrite,
            Syscall::SpawnProcess { .. } => Capability::ProcessSpawn,
            Syscall::GetSystemInfo => Capability::SystemInfoRead,
        }
    }

    /// The path that this request touches, as the request gives it, where
    /// it touches one.
    pub open spec fn requested(self) -> Option<String> {
        match self {
            Syscall::FileExists { path } => Some(path),
            Syscall::ReadFile { path } => Some(path),
            Syscall::WriteFile { path, .. } => Some(path),
            Syscall::SpawnProcess { .. } => None,
            Syscall::GetSystemInfo => None,
        }
    }

    /// The bytes of the path that this request touches, where it touches
    /// one.
    pub open spec fn target(self) -> Option<Seq<u8>> {
        match self.requested() {
            Some(path) => Some(path_bytes(path@)),
            None => None,
        }
    }

    /// The capability without which this request is denied.
    pub fn required_capability(&self) -> (capability: Capability)
        ensures
            capability == self.needed(),
    {
        match self {
            Syscall::FileExists { .. } => Capability::FileRead,
            Syscall::ReadFile { .. } => Capability::FileRead,
            Syscall::WriteFile { .. } => Capability::FileWrite,
            Syscall::SpawnProcess { .. } => Capability::ProcessSpawn,
            Syscall::GetSystemInfo => Capability::SystemInfoRead,
        }
    }

    /// The path that this request touches, where it touches one.
    pub fn path(&self) -> (path: Option<&str>)
        ensures
            match path {
                Some(text) => self.requested() matches Some(given) && given@ == text@,
                None => self.requested() is None,
            },
    {
        match self {
            Syscall::FileExists { path } => Some(path.as_str()),
            Syscall::ReadFile { path } => Some(path.as_str()),
            Syscall::WriteFile { path, .. } => Some(path.as_str()),
            Syscall::SpawnProcess { .. } => None,
            Syscall::GetSystemInfo => None,
        }
    }
}

/// An admitted request, ready to be performed. Its path is in canonical
/// form: it is the path that was checked.
#[derive(Clone, Debug, PartialEq, Eq)]
pub enum Effect {
    /// Find out whether the file exists.
    FileExists {
        /// The file in question.
        path: CanonicalPath,
    },
    /// Read the file.
    ReadFile {
        /// The file to read.
        path: CanonicalPath,
    },
    /// Replace the content of the file.
    WriteFile {
        /// The file to write.
        path: CanonicalPath,
        /// Its new content.
        data: Vec<u8>,
    },
    /// Start the child process.
    SpawnProcess {
        /// The program to run.
        command: String,
        /// Its arguments.
        args: Vec<String>,
    },
    /// Gather information about the host system.
    GetSystemInfo,
}

impl Effect {
    /// This effect is the request `syscall`, with its path in canonical form
    /// and everything else as the request gave it.
    pub open spec fn carries_out(self, syscall: Syscall) -> bool {
        match syscall {
            Syscall::FileExists { path } => {
                &&& self matches Effect::FileExists { path: target }
                &&& canonical(path_bytes(path@)) == Some(target@)
            },
            Syscall::ReadFile { path } => {
                &&& self matches Effect::ReadFile { path: target }
                &&& canonical(path_bytes(path@)) == Some(target@)
            },
            Syscall::WriteFile { path, data } => {
                &&& self matches Effect::WriteFile { path: target, data: payload }
                &&& canonical(path_bytes(path@)) == Some(target@)
                &&& payload == data
            },
            Syscall::SpawnProcess { command, args } => self == (Effect::SpawnProcess {
                command,
                args,
            }),
            Syscall::GetSystemInfo => self == Effect::GetSystemInfo,
        }
    }

    /// The value `output` is of the kind that this effect produces.
    pub open spec fn produces(self, output: SyscallOutput) -> bool {
        match self {
            Effect::FileExists { .. } => output is Exists,
            Effect::ReadFile { .. } => output is Contents,
            Effect::WriteFile { .. } => output is Written,
            Effect::SpawnProcess { .. } => output is Spawned,
            Effect::GetSystemInfo => output is SystemInfo,
        }
    }

    /// Whether `output` is of the kind that this effect produces.
    pub fn answered_by(&self, output: &SyscallOutput) -> (fits: bool)
        ensures
            fits == self.produces(*output),
    {
        match self {
            Effect::FileExists { .. } => match output {
                SyscallOutput::Exists(_) => true,
                _ => false,
            },
            Effect::ReadFile { .. } => match output {
                SyscallOutput::Contents(_) => true,
                _ => false,
            },
            Effect::WriteFile { .. } => match output {
                SyscallOutput::Written => true,
                _ => false,
            },
            Effect::SpawnProcess { .. } => match output {
                SyscallOutput::Spawned { .. } => true,
                _ => false,
            },
            Effect::GetSystemInfo => match output {
                SyscallOutput::SystemInfo(_) => true,
                _ => false,
            },
        }
    }
}

/// Information about the host system.
#[derive(Clone, Debug, PartialEq, Eq)]
pub struct SystemInfo {
    /// The name of the operating system.
    pub os: String,
    /// The processor architecture.
    pub arch: String,
    /// The family of the operating system.
    pub family: String,
}

/// What a successful operation returned.
#[derive(Clone, Debug, PartialEq, Eq)]
pub enum SyscallOutput {
    /// Whether the file exists.
    Exists(bool),
    /// The content of the file.
    Contents(Vec<u8>),
    /// The file was written.
    Written,
    /// The child process was started.
    Spawned {
        /// The identifier of the child.
        child: u32,
    },
    /// Information about the host system.
    SystemInfo(SystemInfo),
}

/// Why a request has no output.
#[derive(Clone, Debug, PartialEq, Eq)]
pub enum SyscallError {
    /// The process has no sandbox.
    ProcessNotSandboxed {
        /// The process that made the request.
        pid: u32,
    },
    /// The sandbox lacks the capability that the request needs.
    CapabilityDenied {
        /// The capability that is missing.
        capability: Capability,
    },
    /// The path lies under no allowed prefix.
    PathDenied {
        /// The path as the request gave it.
        path: String,
    },
    /// The request was admitted and the operation failed.
    IoError {
        /// What the operation reported.
        message: String,
    },
    /// The request was admitted and the child process could not be started.
    SpawnFailure {
        /// What the operation reported.
        message: String,
    },
}

impl SyscallError {
    /// The request was refused by policy: nothing was performed.
    pub open spec fn denied(self) -> bool {
        self is ProcessNotSandboxed || self is CapabilityDenied || self is PathDenied
    }

    /// Whether the request was refused by policy, as opposed to admitted
    /// and failed.
    pub fn is_denial(&self) -> (denial: bool)
        ensures
            denial == self.denied(),
    {
        match self {
            SyscallError::ProcessNotSandboxed { .. } => true,
            SyscallError::CapabilityDenied { .. } => true,
            SyscallError::PathDenied { .. } => true,
            SyscallError::IoError { .. } => false,
            SyscallError::SpawnFailure { .. } => false,
        }
    }
}

} // verus!
