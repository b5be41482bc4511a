//! The enforcement point.
//!
//! A [`SyscallExecutor`] borrows the registry for as long as it takes to
//! decide a request. The decision follows one fixed order:
//!
//! 1. a process without a sandbox is denied;
//! 2. a sandbox without the capability that the request needs is denied;
//! 3. a path that lies under no allowed prefix is denied;
//! 4. everything else is admitted.
//!
//! The capability is checked before the path is looked at, so that a
//! process without the capability learns nothing about paths. An admitted
//! request comes back as an [`Effect`] that owns all it needs: the caller
//! lets go of the registry, performs the effect, and has
//! [`SyscallExecutor::complete`] classify what the operation reported.

use vstd::prelude::*;
use vstd::string::StringExecFns;

use crate::capability::{Capability, TrustProfile};
use crate::manager::{
    apply_all, concerning, entry, lemma_entries_do_not_interfere, RegistryRequest, SandboxManager,
};
use crate::path::{canonical, is_within, path_bytes, CanonicalPath};
use crate::sandbox::{SandboxConfig, SandboxPolicy};
use crate::syscall::{Effect, Syscall, SyscallError, SyscallOutput};

verus! {

/// The error with which the request `syscall` of process `pid` is denied
/// under `registry`, or `None` where the request is admitted.
pub open spec fn denial(
    registry: Map<u32, SandboxPolicy>,
    pid: u32,
    syscall: Syscall,
) -> Option<SyscallError> {
    if !registry.contains_key(pid) {
        Some(SyscallError::ProcessNotSandboxed { pid })
    } else if !registry[pid].capabilities.contains(syscall.needed()) {
        Some(SyscallError::CapabilityDenied { capability: syscall.needed() })
    } else {
        match syscall.requested() {
            Some(path) => path_denial(registry[pid], path),
            None => None,
        }
    }
}

/// The error with which `path` is refused under `policy`, or `None` where
/// the policy permits it.
pub open spec fn path_denial(policy: SandboxPolicy, path: String) -> Option<SyscallError> {
    if policy.permits(path_bytes(path@)) {
        None
    } else {
        Some(SyscallError::PathDenied { path })
    }
}

/// The error that stands for a failure of `effect` with the report
/// `message`: a spawn failure for a spawn, an I/O error for the rest.
pub open spec fn failure(effect: Effect, message: String) -> SyscallError {
    if effect is SpawnProcess {
        SyscallError::SpawnFailure { message }
    } else {
        SyscallError::IoError { message }
    }
}

/// `error` is the failure of `effect` with a message that reads `text`.
pub open spec fn is_failure(error: SyscallError, effect: Effect, text: Seq<char>) -> bool {
    if effect is SpawnProcess {
        error matches SyscallError::SpawnFailure { message } && message@ == text
    } else {
        error matches SyscallError::IoError { message } && message@ == text
    }
}

/// What is reported where the output handed back is not of the kind that
/// the effect produces.
pub open spec fn mismatch_message() -> Seq<char> {
    "the output does not answer the request"@
}

/// The point at which requests are admitted or denied.
pub struct SyscallExecutor<'a> {
    sandboxes: &'a SandboxManager,
}

impl<'a> View for SyscallExecutor<'a> {
    type V = Map<u32, SandboxPolicy>;

    closed spec fn view(&self) -> Map<u32, SandboxPolicy> {
        self.sandboxes@
    }
}

impl<'a> SyscallExecutor<'a> {
    /// An executor that decides by `sandboxes`.
    pub fn new(sandboxes: &'a SandboxManager) -> (executor: Self)
        ensures
            executor@ == sandboxes@,
    {
        SyscallExecutor { sandboxes }
    }

    /// Checks `path` against `config` and hands back its canonical form, or
    /// the denial.
    fn authorize_path(config: &SandboxConfig, path: String) -> (outcome: Result<
        CanonicalPath,
        SyscallError,
    >)
        ensures
            match outcome {
                Ok(target) => path_denial(config@, path) is None && canonical(path_bytes(path@))
                    == Some(target@),
                Err(error) => path_denial(config@, path) == Some(error),
            },
    {
        match CanonicalPath::parse(path.as_str().as_bytes()) {
            Some(target) => {
                if config.covers(&target) {
                    Ok(target)
                } else {
                    Err(SyscallError::PathDenied { path })
                }
            },
            None => Err(SyscallError::PathDenied { path }),
        }
    }

    /// Decides the request `syscall` of process `pid`. A denied request
    /// comes back as the error that says why; an admitted one as the effect
    /// to perform.
    pub fn authorize(&self, pid: u32, syscall: Syscall) -> (outcome: Result<Effect, SyscallError>)
        ensures
            match outcome {
                Ok(effect) => denial(self@, pid, syscall) is None && effect.carries_out(syscall),
                Err(error) => denial(self@, pid, syscall) == Some(error),
            },
    {
        let config: &SandboxConfig = match self.sandboxes.lookup(pid) {
            Some(config) => config,
            None => {
                return Err(SyscallError::ProcessNotSandboxed { pid });
            },
        };
        let capability: Capability = syscall.required_capability();
        if !config.has_capability(capability) {
            return Err(SyscallError::CapabilityDenied { capability });
        }
        match syscall {
            Syscall::FileExists { path } => match Self::authorize_path(config, path) {
                Ok(target) => Ok(Effect::FileExists { path: target }),
                Err(error) => Err(error),
            },
            Syscall::ReadFile { path } => match Self::authorize_path(config, path) {
                Ok(target) => Ok(Effect::ReadFile { path: target }),
                Err(error) => Err(error),
            },
            Syscall::WriteFile { path, data } => match Self::authorize_path(config, path) {
                Ok(target) => Ok(Effect::WriteFile { path: target, data }),
                Err(error) => Err(error),
            },
            Syscall::SpawnProcess { command, args } => Ok(Effect::SpawnProcess { command, args }),
            Syscall::GetSystemInfo => Ok(Effect::GetSystemInfo),
        }
    }

    /// Classifies what performing `effect` reported. An output of the kind
    /// that the effect produces is the result. A failure becomes a spawn
    /// failure for a spawn and an I/O error for the rest, with the message
    /// that was reported; so does an output of another kind, with a message
    /// that says so.
    pub fn complete(effect: &Effect, report: Result<SyscallOutput, String>) -> (outcome: Result<
        SyscallOutput,
        SyscallError,
    >)
        ensures
            match report {
                Ok(output) => if effect.produces(output) {
                    outcome == Ok::<SyscallOutput, SyscallError>(output)
                } else {
                    outcome matches Err(error) && is_failure(error, *effect, mismatch_message())
                },
                Err(message) => outcome == Err::<SyscallOutput, SyscallError>(
                    failure(*effect, message),
                ),
            },
    {
        let message: String = match report {
            Ok(output) => {
                if effect.answered_by(&output) {
                    return Ok(output);
                }
                String::from_str("the output does not answer the request")
            },
            Err(message) => message,
        };
        match effect {
            Effect::SpawnProcess { .. } => Err(SyscallError::SpawnFailure { message }),
            _ => Err(SyscallError::IoError { message }),
        }
    }
}

/// A process without a sandbox is denied every request, with the error that
/// says so.
pub proof fn lemma_unregistered_denied(
    registry: Map<u32, SandboxPolicy>,
    pid: u32,
    syscall: Syscall,
)
    requires
        !registry.contains_key(pid),
    ensures
        denial(registry, pid, syscall) == Some(SyscallError::ProcessNotSandboxed { pid }),
{
}

/// Once its sandbox is removed, a process is denied every request until a
/// sandbox is created for it again.
pub proof fn lemma_removed_denied(registry: Map<u32, SandboxPolicy>, pid: u32, syscall: Syscall)
    ensures
        denial(registry.remove(pid), pid, syscall) == Some(
            SyscallError::ProcessNotSandboxed { pid },
        ),
{
}

/// A request is decided by the entry of its own process alone: two
/// registries that agree on that process decide alike, whatever they hold
/// for other processes.
pub proof fn lemma_decided_by_own_entry(
    registry: Map<u32, SandboxPolicy>,
    elsewhere: Map<u32, SandboxPolicy>,
    pid: u32,
    syscall: Syscall,
)
    requires
        entry(registry, pid) == entry(elsewhere, pid),
    ensures
        denial(registry, pid, syscall) == denial(elsewhere, pid, syscall),
{
}

/// However the registry came about, a request is decided as if only the
/// registrations and removals of its own process had ever been served:
/// what was done for other processes has no part in the decision.
pub proof fn lemma_decided_by_own_requests(
    registry: Map<u32, SandboxPolicy>,
    requests: Seq<RegistryRequest>,
    pid: u32,
    syscall: Syscall,
)
    ensures
        denial(apply_all(registry, requests), pid, syscall) == denial(
            apply_all(registry, concerning(requests, pid)),
            pid,
            syscall,
        ),
{
    lemma_entries_do_not_interfere(registry, requests, pid);
    lemma_decided_by_own_entry(
        apply_all(registry, requests),
        apply_all(registry, concerning(requests, pid)),
        pid,
        syscall,
    );
}

/// The capability is checked before the path: a request whose capability
/// is missing is denied for the capability, whatever its path is and
/// whether or not that path is allowed.
pub proof fn lemma_capability_before_path(
    registry: Map<u32, SandboxPolicy>,
    pid: u32,
    syscall: Syscall,
)
    requires
        registry.contains_key(pid),
        !registry[pid].capabilities.contains(syscall.needed()),
    ensures
        denial(registry, pid, syscall) == Some(
            SyscallError::CapabilityDenied { capability: syscall.needed() },
        ),
{
}

/// A request is admitted exactly when the process has a sandbox, the
/// sandbox holds the needed capability, and the path, where the request has
/// one, is permitted.
pub proof fn lemma_admitted_iff(registry: Map<u32, SandboxPolicy>, pid: u32, syscall: Syscall)
    ensures
        denial(registry, pid, syscall) is None <==> {
            &&& registry.contains_key(pid)
            &&& registry[pid].capabilities.contains(syscall.needed())
            &&& syscall.target() matches Some(path) ==> registry[pid].permits(path)
        },
{
}

/// A request that holds its capability and whose path, in canonical form,
/// lies under no allowed prefix is denied for the path, however the path is
/// spelled. So is a request whose path is not absolute.
pub proof fn lemma_escaping_path_denied(
    registry: Map<u32, SandboxPolicy>,
    pid: u32,
    syscall: Syscall,
)
    requires
        registry.contains_key(pid),
        registry[pid].capabilities.contains(syscall.needed()),
        syscall.requested() is Some,
        canonical(syscall.target().unwrap()) matches Some(names) ==> forall|i: int|
            0 <= i < registry[pid].allowed.len() ==> !is_within(
                names,
                #[trigger] registry[pid].allowed[i],
            ),
    ensures
        denial(registry, pid, syscall) == Some(
            SyscallError::PathDenied { path: syscall.requested().unwrap() },
        ),
{
}

/// Whether a request is admitted depends on its path through the canonical
/// form alone: two requests that need the same capability and whose paths
/// have one canonical form are admitted together or denied together, for
/// the same reason, however the paths are spelled.
pub proof fn lemma_decision_by_canonical_form(
    registry: Map<u32, SandboxPolicy>,
    pid: u32,
    syscall: Syscall,
    other: Syscall,
)
    requires
        syscall.needed() == other.needed(),
        syscall.target() is Some,
        other.target() is Some,
        canonical(syscall.target().unwrap()) == canonical(other.target().unwrap()),
    ensures
        denial(registry, pid, syscall) is None <==> denial(registry, pid, other) is None,
        denial(registry, pid, syscall) matches Some(error) ==> denial(registry, pid, other) == Some(
            if error is PathDenied {
                SyscallError::PathDenied { path: other.requested().unwrap() }
            } else {
                error
            },
        ),
{
}

/// Under the standard profile, with whatever paths allowed, a request for
/// system information is admitted and a request to spawn is denied for the
/// capability. The spawn is admitted once the capability has been granted.
pub proof fn lemma_standard_profile(
    registry: Map<u32, SandboxPolicy>,
    pid: u32,
    command: String,
    args: Vec<String>,
)
    requires
        registry.contains_key(pid),
        registry[pid].capabilities == TrustProfile::Standard.granted(),
    ensures
        denial(registry, pid, Syscall::GetSystemInfo) is None,
        denial(registry, pid, Syscall::SpawnProcess { command, args }) == Some(
            SyscallError::CapabilityDenied { capability: Capability::ProcessSpawn },
        ),
        denial(
            registry.insert(pid, registry[pid].grant(Capability::ProcessSpawn)),
            pid,
            Syscall::SpawnProcess { command, args },
        ) is None,
{
}

/// Every denial is one of the three policy errors, never an I/O error or a
/// spawn failure.
pub proof fn lemma_denial_is_policy(registry: Map<u32, SandboxPolicy>, pid: u32, syscall: Syscall)
    ensures
        denial(registry, pid, syscall) matches Some(error) ==> error.denied(),
{
}

/// A failure of an admitted operation is never one of the policy errors.
pub proof fn lemma_failure_is_not_denial(effect: Effect, message: String)
    ensures
        !failure(effect, message).denied(),
{
}

} // verus!
