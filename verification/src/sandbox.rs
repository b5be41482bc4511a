//! The policy of one sandboxed process.
//!
//! A [`SandboxConfig`] is bound to one process id. It holds the capabilities
//! the process was granted and the path prefixes it may touch. It starts
//! from a [`TrustProfile`] with no path allowed, and can only be widened:
//! there is no way to take a capability or a prefix back short of dropping
//! the whole configuration.

use vstd::prelude::*;
use vstd::string::StringSliceAdditionalSpecFns;

use crate::capability::{Capability, CapabilitySet, TrustProfile};
use crate::path::{canonical, is_within, path_bytes, render, CanonicalPath};

verus! {

/// What a sandbox lets its process do.
pub struct SandboxPolicy {
    /// The process that the policy is bound to.
    pub pid: u32,
    /// The capabilities that the process holds.
    pub capabilities: Set<Capability>,
    /// The canonical forms of the allowed prefixes, in the order in which
    /// they were added.
    pub allowed: Seq<Seq<Seq<u8>>>,
}

impl SandboxPolicy {
    /// The policy that a sandbox for `pid` starts with under `profile`.
    pub open spec fn preset(pid: u32, profile: TrustProfile) -> SandboxPolicy {
        SandboxPolicy { pid, capabilities: profile.granted(), allowed: Seq::empty() }
    }

    /// Some allowed prefix lies at or above the path with canonical form
    /// `names`.
    pub open spec fn covers(self, names: Seq<Seq<u8>>) -> bool {
        exists|i: int| 0 <= i < self.allowed.len() && is_within(names, #[trigger] self.allowed[i])
    }

    /// The path `path` is absolute and some allowed prefix lies at or above
    /// its canonical form.
    pub open spec fn permits(self, path: Seq<u8>) -> bool {
        match canonical(path) {
            Some(names) => self.covers(names),
            None => false,
        }
    }

    /// This policy with `cap` granted.
    pub open spec fn grant(self, cap: Capability) -> SandboxPolicy {
        SandboxPolicy { capabilities: self.capabilities.insert(cap), ..self }
    }

    /// This policy with the prefix of canonical form `names` allowed. A
    /// prefix that is already allowed is not added again.
    pub open spec fn allow(self, names: Seq<Seq<u8>>) -> SandboxPolicy {
        if self.allowed.contains(names) {
            self
        } else {
            SandboxPolicy { allowed: self.allowed.push(names), ..self }
        }
    }

    /// This policy with the prefix `path` allowed. A path that is not
    /// absolute allows nothing.
    pub open spec fn allow_path(self, path: Seq<u8>) -> SandboxPolicy {
        match canonical(path) {
            Some(names) => self.allow(names),
            None => self,
        }
    }
}

/// The policy of one process: its capabilities and its allowed prefixes.
#[derive(Debug)]
pub struct SandboxConfig {
    pid: u32,
    capabilities: CapabilitySet,
    allowed: Vec<CanonicalPath>,
}

impl View for SandboxConfig {
    type V = SandboxPolicy;

    closed spec fn view(&self) -> SandboxPolicy {
        SandboxPolicy {
            pid: self.pid,
            capabilities: self.capabilities@,
            allowed: Seq::new(self.allowed@.len(), |i: int| self.allowed@[i]@),
        }
    }
}

impl SandboxConfig {
    /// A sandbox for `pid` with the capabilities of `profile` and no path
    /// allowed.
    pub fn with_profile(pid: u32, profile: TrustProfile) -> (config: Self)
        ensures
            config@ == SandboxPolicy::preset(pid, profile),
    {
        let config = SandboxConfig {
            pid,
            capabilities: profile.capabilities(),
            allowed: Vec::new(),
        };
        proof {
            assert(config@.allowed =~= Seq::empty());
        }
        config
    }

    /// A sandbox for `pid` that may read files and system information, and
    /// may neither write, spawn processes nor use the network.
    pub fn standard(pid: u32) -> (config: Self)
        ensures
            config@ == SandboxPolicy::preset(pid, TrustProfile::Standard),
    {
        Self::with_profile(pid, TrustProfile::Standard)
    }

    /// A sandbox for `pid` that holds no capability.
    pub fn strict(pid: u32) -> (config: Self)
        ensures
            config@ == SandboxPolicy::preset(pid, TrustProfile::Strict),
    {
        Self::with_profile(pid, TrustProfile::Strict)
    }

    /// A sandbox for `pid` that holds every capability.
    pub fn privileged(pid: u32) -> (config: Self)
        ensures
            config@ == SandboxPolicy::preset(pid, TrustProfile::Privileged),
    {
        Self::with_profile(pid, TrustProfile::Privileged)
    }

    /// The process that this sandbox is bound to.
    pub fn pid(&self) -> (pid: u32)
        ensures
            pid == self@.pid,
    {
        self.pid
    }

    /// Grants `cap`. Granting a capability twice is granting it once.
    pub fn grant(&mut self, cap: Capability)
        ensures
            final(self)@ == old(self)@.grant(cap),
    {
        self.capabilities.insert(cap);
    }

    /// Whether the sandbox holds `cap`.
    pub fn has_capability(&self, cap: Capability) -> (held: bool)
        ensures
            held == self@.capabilities.contains(cap),
    {
        self.capabilities.contains(cap)
    }

    /// Whether some allowed prefix lies at or above `path`.
    pub fn covers(&self, path: &CanonicalPath) -> (covered: bool)
        ensures
            covered == self@.covers(path@),
    {
        let n: usize = self.allowed.len();
        let mut i: usize = 0;
        while i < n
            invariant
                i <= n,
                n == self.allowed@.len(),
                forall|j: int| 0 <= j < i ==> !is_within(path@, #[trigger] self@.allowed[j]),
            decreases n - i,
        {
            if path.starts_with(&self.allowed[i]) {
                proof {
                    assert(is_within(path@, self@.allowed[i as int]));
                }
                return true;
            }
            i += 1;
        }
        false
    }

    /// Whether `path` is already among the allowed prefixes.
    fn holds_prefix(&self, path: &CanonicalPath) -> (held: bool)
        ensures
            held == self@.allowed.contains(path@),
    {
        let n: usize = self.allowed.len();
        let mut i: usize = 0;
        while i < n
            invariant
                i <= n,
                n == self.allowed@.len(),
                forall|j: int| 0 <= j < i ==> self@.allowed[j] != path@,
            decreases n - i,
        {
            if self.allowed[i] == *path {
                proof {
                    assert(self@.allowed[i as int] == path@);
                }
                return true;
            }
            i += 1;
        }
        false
    }

    /// Allows everything at or under `path`. Allowing a prefix twice is
    /// allowing it once.
    pub fn allow(&mut self, path: CanonicalPath)
        ensures
            final(self)@ == old(self)@.allow(path@),
    {
        if !self.holds_prefix(&path) {
            self.allowed.push(path);
            proof {
                assert(final(self)@.allowed =~= old(self)@.allowed.push(path@));
            }
        }
    }

    /// Allows everything at or under the canonical form of `path`, and says
    /// whether it did: a path that is not absolute is refused and changes
    /// nothing.
    pub fn allow_path(&mut self, path: &str) -> (accepted: bool)
        ensures
            accepted == canonical(path_bytes(path@)).is_some(),
            final(self)@ == old(self)@.allow_path(path_bytes(path@)),
    {
        match CanonicalPath::parse(path.as_bytes()) {
            Some(prefix) => {
                self.allow(prefix);
                true
            },
            None => false,
        }
    }

    /// Whether `path` is absolute and its canonical form lies at or under
    /// an allowed prefix.
    pub fn is_path_allowed(&self, path: &str) -> (allowed: bool)
        ensures
            allowed == self@.permits(path_bytes(path@)),
    {
        match CanonicalPath::parse(path.as_bytes()) {
            Some(names) => self.covers(&names),
            None => false,
        }
    }

    /// The allowed prefixes, each as the shortest path that denotes it, in
    /// the order in which they were added.
    pub fn allowed_paths(&self) -> (paths: Vec<Vec<u8>>)
        ensures
            paths@.len() == self@.allowed.len(),
            forall|i: int|
                0 <= i < paths@.len() ==> (#[trigger] paths@[i])@ == render(self@.allowed[i]),
    {
        let mut paths: Vec<Vec<u8>> = Vec::new();
        let n: usize = self.allowed.len();
        let mut i: usize = 0;
        while i < n
            invariant
                i <= n,
                n == self.allowed@.len(),
                paths@.len() == i,
                forall|j: int|
                    0 <= j < i ==> (#[trigger] paths@[j])@ == render(self@.allowed[j]),
            decreases n - i,
        {
            paths.push(self.allowed[i].to_bytes());
            i += 1;
        }
        paths
    }
}

impl Clone for SandboxConfig {
    /// A copy of this configuration.
    fn clone(&self) -> (copy: Self)
        ensures
            copy@ == self@,
    {
        let mut allowed: Vec<CanonicalPath> = Vec::new();
        let n: usize = self.allowed.len();
        let mut i: usize = 0;
        while i < n
            invariant
                i <= n,
                n == self.allowed@.len(),
                allowed@.len() == i,
                forall|j: int| 0 <= j < i ==> (#[trigger] allowed@[j])@ == self.allowed@[j]@,
            decreases n - i,
        {
            allowed.push(self.allowed[i].clone());
            i += 1;
        }
        let copy = SandboxConfig { pid: self.pid, capabilities: self.capabilities, allowed };
        proof {
            assert(copy@.allowed =~= self@.allowed);
        }
        copy
    }
}

/// Allowing a prefix twice is allowing it once.
pub proof fn lemma_allow_idempotent(policy: SandboxPolicy, names: Seq<Seq<u8>>)
    ensures
        policy.allow(names).allow(names) == policy.allow(names),
        policy.allowed.contains(names) ==> policy.allow(names) == policy,
{
    if !policy.allowed.contains(names) {
        let wider = policy.allowed.push(names);
        assert(wider[wider.len() - 1] == names);
    }
}

/// Allowing a path twice is allowing it once, whatever its spelling: two
/// paths with one canonical form allow the same.
pub proof fn lemma_allow_path_idempotent(policy: SandboxPolicy, path: Seq<u8>, again: Seq<u8>)
    requires
        canonical(path) == canonical(again),
    ensures
        policy.allow_path(path).allow_path(again) == policy.allow_path(path),
{
    if let Some(names) = canonical(path) {
        lemma_allow_idempotent(policy, names);
    }
}

/// Allowing a prefix takes nothing back: what was covered stays covered,
/// the capabilities and the process id stay as they were.
pub proof fn lemma_allow_monotonic(policy: SandboxPolicy, names: Seq<Seq<u8>>, target: Seq<Seq<u8>>)
    ensures
        policy.covers(target) ==> policy.allow(names).covers(target),
        policy.allow(names).capabilities == policy.capabilities,
        policy.allow(names).pid == policy.pid,
{
    if policy.covers(target) {
        let i = choose|i: int| 0 <= i < policy.allowed.len() && is_within(target, #[trigger] policy.allowed[i]);
        assert(policy.allow(names).allowed[i] == policy.allowed[i]);
    }
}

/// Once a prefix is allowed, it and everything under it is covered.
pub proof fn lemma_allow_covers_descendants(
    policy: SandboxPolicy,
    names: Seq<Seq<u8>>,
    target: Seq<Seq<u8>>,
)
    requires
        is_within(target, names),
    ensures
        policy.allow(names).covers(target),
{
    if policy.allowed.contains(names) {
        let i = choose|i: int| 0 <= i < policy.allowed.len() && policy.allowed[i] == names;
        assert(is_within(target, policy.allowed[i]));
    } else {
        let wider = policy.allow(names).allowed;
        assert(wider[wider.len() - 1] == names);
    }
}

/// Allowing a path takes nothing back and covers what lies under it: every
/// path that was permitted stays permitted, and every path whose canonical
/// form lies at or under that of the allowed one is permitted.
pub proof fn lemma_allow_path_monotonic(policy: SandboxPolicy, prefix: Seq<u8>, path: Seq<u8>)
    ensures
        policy.permits(path) ==> policy.allow_path(prefix).permits(path),
        canonical(prefix).is_some() && canonical(path).is_some() && is_within(
            canonical(path).unwrap(),
            canonical(prefix).unwrap(),
        ) ==> policy.allow_path(prefix).permits(path),
{
    if let Some(names) = canonical(prefix) {
        if let Some(target) = canonical(path) {
            lemma_allow_monotonic(policy, names, target);
            if is_within(target, names) {
                lemma_allow_covers_descendants(policy, names, target);
            }
        }
    }
}

/// Granting a capability twice is granting it once, takes no capability
/// back, and leaves the allowed prefixes as they were.
pub proof fn lemma_grant_idempotent_monotonic(policy: SandboxPolicy, cap: Capability)
    ensures
        policy.grant(cap).grant(cap) == policy.grant(cap),
        policy.grant(cap).capabilities.contains(cap),
        policy.capabilities.subset_of(policy.grant(cap).capabilities),
        policy.grant(cap).allowed == policy.allowed,
        policy.grant(cap).pid == policy.pid,
{
    assert(policy.capabilities.insert(cap).insert(cap) =~= policy.capabilities.insert(cap));
}

/// Whether a path is permitted depends on its canonical form alone: two
/// spellings of one path are permitted or refused together.
pub proof fn lemma_permits_by_canonical_form(policy: SandboxPolicy, path: Seq<u8>, other: Seq<u8>)
    requires
        canonical(path) == canonical(other),
    ensures
        policy.permits(path) == policy.permits(other),
{
}

/// A path whose canonical form lies under no allowed prefix is refused, and
/// so is every path that is not absolute.
pub proof fn lemma_escaping_path_refused(policy: SandboxPolicy, path: Seq<u8>)
    requires
        canonical(path) matches Some(names) ==> forall|i: int|
            0 <= i < policy.allowed.len() ==> !is_within(names, #[trigger] policy.allowed[i]),
    ensures
        !policy.permits(path),
{
}

/// A fresh sandbox permits no path at all.
pub proof fn lemma_preset_permits_nothing(pid: u32, profile: TrustProfile, path: Seq<u8>)
    ensures
        !SandboxPolicy::preset(pid, profile).permits(path),
{
}

} // verus!
