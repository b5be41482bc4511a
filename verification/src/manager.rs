//! The registry of sandboxes.
//!
//! A [`SandboxManager`] maps each registered process id to the policy of
//! that process. It is the one place where policies are looked up. A process
//! without an entry has no policy and is denied everything; an entry that
//! was removed has to be created again before its process id is served.
//!
//! Registering a process id that is already registered is refused and
//! changes nothing, so that a policy is never replaced by accident.
//!
//! The registry is a plain value. Lookups borrow it shared and changes
//! borrow it exclusively, so no reader ever sees a registry that is half
//! changed, and each change is one step from one registry to the next. A
//! program that serves many callers at once keeps the registry behind a
//! reader-writer lock and takes the lock for the length of one call.

use std::collections::HashMap;
use vstd::prelude::*;

use crate::sandbox::{SandboxConfig, SandboxPolicy};

verus! {

/// Why the registry refused a request.
#[derive(Clone, Copy, Debug, PartialEq, Eq, Structural)]
pub enum SandboxError {
    /// The process already has a sandbox.
    AlreadySandboxed {
        /// The process in question.
        pid: u32,
    },
}

/// Every policy of `registry` is filed under the process it is bound to.
pub open spec fn filed_by_pid(registry: Map<u32, SandboxPolicy>) -> bool {
    forall|pid: u32| #[trigger] registry.contains_key(pid) ==> registry[pid].pid == pid
}

/// The registry after a request to register `policy`: unchanged where the
/// process is already registered.
pub open spec fn registered(
    registry: Map<u32, SandboxPolicy>,
    policy: SandboxPolicy,
) -> Map<u32, SandboxPolicy> {
    if registry.contains_key(policy.pid) {
        registry
    } else {
        registry.insert(policy.pid, policy)
    }
}

/// The answer to a request to register `policy`.
pub open spec fn registration(
    registry: Map<u32, SandboxPolicy>,
    policy: SandboxPolicy,
) -> Result<(), SandboxError> {
    if registry.contains_key(policy.pid) {
        Err(SandboxError::AlreadySandboxed { pid: policy.pid })
    } else {
        Ok(())
    }
}

/// The entry of `pid` in `registry`: its policy, or `None` where the
/// process is not registered.
pub open spec fn entry(registry: Map<u32, SandboxPolicy>, pid: u32) -> Option<SandboxPolicy> {
    if registry.contains_key(pid) {
        Some(registry[pid])
    } else {
        None
    }
}

/// A request to change the registry.
pub enum RegistryRequest {
    /// Register the policy under the process it is bound to.
    Create(SandboxPolicy),
    /// Remove the sandbox of the process.
    Remove(u32),
}

impl RegistryRequest {
    /// The process that the request is about.
    pub open spec fn pid(self) -> u32 {
        match self {
            RegistryRequest::Create(policy) => policy.pid,
            RegistryRequest::Remove(pid) => pid,
        }
    }

    /// The registry after the request.
    pub open spec fn apply(self, registry: Map<u32, SandboxPolicy>) -> Map<u32, SandboxPolicy> {
        match self {
            RegistryRequest::Create(policy) => registered(registry, policy),
            RegistryRequest::Remove(pid) => registry.remove(pid),
        }
    }
}

/// The registry after the requests `requests`, served in order.
pub open spec fn apply_all(
    registry: Map<u32, SandboxPolicy>,
    requests: Seq<RegistryRequest>,
) -> Map<u32, SandboxPolicy>
    decreases requests.len(),
{
    if requests.len() == 0 {
        registry
    } else {
        requests.last().apply(apply_all(registry, requests.drop_last()))
    }
}

/// Those of `requests` that are about `pid`, in order.
pub open spec fn concerning(requests: Seq<RegistryRequest>, pid: u32) -> Seq<RegistryRequest>
    decreases requests.len(),
{
    if requests.len() == 0 {
        Seq::empty()
    } else if requests.last().pid() == pid {
        concerning(requests.drop_last(), pid).push(requests.last())
    } else {
        concerning(requests.drop_last(), pid)
    }
}

/// The registry of the sandboxes of all processes.
pub struct SandboxManager {
    sandboxes: HashMap<u32, SandboxConfig>,
}

impl View for SandboxManager {
    type V = Map<u32, SandboxPolicy>;

    closed spec fn view(&self) -> Map<u32, SandboxPolicy> {
        Map::new(|pid: u32| self.sandboxes@.contains_key(pid), |pid: u32| self.sandboxes@[pid]@)
    }
}

impl SandboxManager {
    #[verifier::type_invariant]
    spec fn well_formed(self) -> bool {
        forall|pid: u32| #[trigger]
            self.sandboxes@.contains_key(pid) ==> self.sandboxes@[pid]@.pid == pid
    }

    /// A registry without any sandbox.
    pub fn new() -> (manager: Self)
        ensures
            manager@ == Map::<u32, SandboxPolicy>::empty(),
    {
        let manager = SandboxManager { sandboxes: HashMap::new() };
        proof {
            assert(manager@ =~= Map::<u32, SandboxPolicy>::empty());
        }
        manager
    }

    /// Registers `config` under the process it is bound to. A process that
    /// already has a sandbox keeps it: the request is refused and the
    /// registry stays as it was.
    pub fn create_sandbox(&mut self, config: SandboxConfig) -> (outcome: Result<(), SandboxError>)
        ensures
            outcome == registration(old(self)@, config@),
            final(self)@ == registered(old(self)@, config@),
            filed_by_pid(final(self)@),
    {
        proof {
            use_type_invariant(&*self);
        }
        let pid: u32 = config.pid();
        if self.sandboxes.contains_key(&pid) {
            return Err(SandboxError::AlreadySandboxed { pid });
        }
        let mut sandboxes: HashMap<u32, SandboxConfig> = HashMap::new();
        std::mem::swap(&mut sandboxes, &mut self.sandboxes);
        let _ = sandboxes.insert(pid, config);
        self.sandboxes = sandboxes;
        proof {
            assert(final(self)@ =~= old(self)@.insert(pid, config@));
        }
        Ok(())
    }

    /// The sandbox of `pid`, if it has one.
    pub fn lookup(&self, pid: u32) -> (found: Option<&SandboxConfig>)
        ensures
            match found {
                Some(config) => self@.contains_key(pid) && config@ == self@[pid] && config@.pid
                    == pid,
                None => !self@.contains_key(pid),
            },
    {
        proof {
            use_type_invariant(self);
        }
        self.sandboxes.get(&pid)
    }

    /// A copy of the sandbox of `pid`, if it has one.
    pub fn get_sandbox(&self, pid: u32) -> (found: Option<SandboxConfig>)
        ensures
            match found {
                Some(config) => self@.contains_key(pid) && config@ == self@[pid] && config@.pid
                    == pid,
                None => !self@.contains_key(pid),
            },
    {
        match self.lookup(pid) {
            Some(config) => Some(config.clone()),
            None => None,
        }
    }

    /// Whether `pid` has a sandbox.
    pub fn has_sandbox(&self, pid: u32) -> (present: bool)
        ensures
            present == self@.contains_key(pid),
    {
        self.sandboxes.contains_key(&pid)
    }

    /// Removes the sandbox of `pid` and says whether there was one. Every
    /// other process keeps its sandbox as it was.
    pub fn remove_sandbox(&mut self, pid: u32) -> (removed: bool)
        ensures
            removed == old(self)@.contains_key(pid),
            final(self)@ == old(self)@.remove(pid),
            filed_by_pid(final(self)@),
    {
        proof {
            use_type_invariant(&*self);
        }
        let mut sandboxes: HashMap<u32, SandboxConfig> = HashMap::new();
        std::mem::swap(&mut sandboxes, &mut self.sandboxes);
        let gone = sandboxes.remove(&pid);
        self.sandboxes = sandboxes;
        proof {
            assert(final(self)@ =~= old(self)@.remove(pid));
        }
        gone.is_some()
    }

    /// The number of registered sandboxes.
    pub fn len(&self) -> (n: usize)
        ensures
            n == self@.len(),
            self@.dom().finite(),
    {
        proof {
            assert(self@.dom() =~= self.sandboxes@.dom());
        }
        self.sandboxes.len()
    }
}

/// A request touches the entry of its own process only, and what it makes
/// of that entry depends on nothing but the entry.
pub proof fn lemma_request_is_local(
    request: RegistryRequest,
    registry: Map<u32, SandboxPolicy>,
    elsewhere: Map<u32, SandboxPolicy>,
    pid: u32,
)
    ensures
        request.pid() != pid ==> entry(request.apply(registry), pid) == entry(registry, pid),
        entry(registry, request.pid()) == entry(elsewhere, request.pid()) ==> entry(
            request.apply(registry),
            request.pid(),
        ) == entry(request.apply(elsewhere), request.pid()),
{
}

/// However the requests of many processes are interleaved, the entry of
/// each process ends up as its own requests alone would have left it: the
/// requests of the others neither change it nor change what becomes of it.
pub proof fn lemma_entries_do_not_interfere(
    registry: Map<u32, SandboxPolicy>,
    requests: Seq<RegistryRequest>,
    pid: u32,
)
    ensures
        entry(apply_all(registry, requests), pid) == entry(
            apply_all(registry, concerning(requests, pid)),
            pid,
        ),
    decreases requests.len(),
{
    if requests.len() > 0 {
        let earlier = requests.drop_last();
        let last = requests.last();
        lemma_entries_do_not_interfere(registry, earlier, pid);
        lemma_request_is_local(
            last,
            apply_all(registry, earlier),
            apply_all(registry, concerning(earlier, pid)),
            pid,
        );
        if last.pid() == pid {
            let own = concerning(earlier, pid).push(last);
            assert(own.drop_last() =~= concerning(earlier, pid));
        }
    }
}

/// Requests for different processes do not interfere: in whichever order a
/// registration for one and a removal of another arrive, the registry ends
/// up the same, and so do two registrations for different processes.
pub proof fn lemma_distinct_pids_commute(
    registry: Map<u32, SandboxPolicy>,
    policy: SandboxPolicy,
    second: SandboxPolicy,
    pid: u32,
)
    requires
        pid != policy.pid,
        second.pid != policy.pid,
    ensures
        registered(registry, policy).remove(pid) == registered(registry.remove(pid), policy),
        registered(registered(registry, policy), second) == registered(
            registered(registry, second),
            policy,
        ),
        registration(registry.remove(pid), policy) == registration(registry, policy),
        registration(registered(registry, second), policy) == registration(registry, policy),
{
    assert(registered(registry, policy).remove(pid) =~= registered(registry.remove(pid), policy));
    assert(registered(registered(registry, policy), second) =~= registered(
        registered(registry, second),
        policy,
    ));
}

/// A registration is accepted exactly once: whatever the registry held, a
/// second request for the same process is refused, whatever policy it
/// brings, and leaves the registry as the first request left it.
pub proof fn lemma_duplicate_registration_refused(
    registry: Map<u32, SandboxPolicy>,
    first: SandboxPolicy,
    again: SandboxPolicy,
)
    requires
        again.pid == first.pid,
    ensures
        registered(registry, first).contains_key(first.pid),
        registration(registered(registry, first), again) == Err::<(), SandboxError>(
            SandboxError::AlreadySandboxed { pid: first.pid },
        ),
        registered(registered(registry, first), again) == registered(registry, first),
{
}

/// A removed sandbox is gone until it is created again: after the removal
/// the process is not registered, and a new registration is accepted with
/// the policy that it brings.
pub proof fn lemma_removed_then_created(
    registry: Map<u32, SandboxPolicy>,
    policy: SandboxPolicy,
)
    ensures
        registration(registry.remove(policy.pid), policy) == Ok::<(), SandboxError>(()),
        registered(registry.remove(policy.pid), policy)[policy.pid] == policy,
{
}

/// Registrations and removals keep every policy filed under its own
/// process.
pub proof fn lemma_filed_by_pid_kept(
    registry: Map<u32, SandboxPolicy>,
    policy: SandboxPolicy,
    pid: u32,
)
    requires
        filed_by_pid(registry),
    ensures
        filed_by_pid(registered(registry, policy)),
        filed_by_pid(registry.remove(pid)),
{
}

} // verus!
