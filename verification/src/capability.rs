//! Capabilities, sets of capabilities, and the named trust profiles.

use vstd::prelude::*;

verus! {

/// An atomic permission that a sandboxed process may or may not hold.
///
/// The set is closed: every place that maps a request to the capability it
/// needs matches on all variants.
#[derive(Clone, Copy, Debug, PartialEq, Eq, Hash, Structural)]
pub enum Capability {
    /// Reading files and asking whether they exist.
    FileRead,
    /// Creating and overwriting files.
    FileWrite,
    /// Starting child processes.
    ProcessSpawn,
    /// Opening network connections.
    NetworkAccess,
    /// Reading information about the host system.
    SystemInfoRead,
}

impl Capability {
    /// The single bit that stands for this capability in a [`CapabilitySet`].
    pub open spec fn mask(self) -> u8 {
        match self {
            Capability::FileRead => 1,
            Capability::FileWrite => 2,
            Capability::ProcessSpawn => 4,
            Capability::NetworkAccess => 8,
            Capability::SystemInfoRead => 16,
        }
    }

    fn bit(self) -> (m: u8)
        ensures
            m == self.mask(),
    {
        match self {
            Capability::FileRead => 1,
            Capability::FileWrite => 2,
            Capability::ProcessSpawn => 4,
            Capability::NetworkAccess => 8,
            Capability::SystemInfoRead => 16,
        }
    }
}

/// `m` has exactly one of the five capability bits set.
spec fn is_capability_bit(m: u8) -> bool {
    m == 1 || m == 2 || m == 4 || m == 8 || m == 16
}

/// Setting the bit `m` in `b` makes `m` present and changes no other bit.
proof fn lemma_set_bit(b: u8, m: u8, n: u8)
    requires
        is_capability_bit(m),
        is_capability_bit(n),
    ensures
        ((b | m) & n != 0) == (b & n != 0 || m == n),
{
    assert(((b | m) & n != 0) == (b & n != 0 || m == n)) by (bit_vector)
        requires
            m == 1 || m == 2 || m == 4 || m == 8 || m == 16,
            n == 1 || n == 2 || n == 4 || n == 8 || n == 16,
    ;
}

/// A set of capabilities, kept as a bit set over the closed enumeration.
#[derive(Clone, Copy, Debug)]
pub struct CapabilitySet {
    bits: u8,
}

impl View for CapabilitySet {
    type V = Set<Capability>;

    closed spec fn view(&self) -> Set<Capability> {
        Set::new(|c: Capability| self.bits & c.mask() != 0)
    }
}

impl CapabilitySet {
    /// The set that holds no capability.
    pub fn empty() -> (s: Self)
        ensures
            s@ == Set::<Capability>::empty(),
    {
        let s = CapabilitySet { bits: 0 };
        proof {
            assert forall|c: Capability| !s@.contains(c) by {
                let n: u8 = c.mask();
                assert(0u8 & n == 0) by (bit_vector);
            }
            assert(s@ =~= Set::<Capability>::empty());
        }
        s
    }

    /// The set that holds every capability.
    pub fn all() -> (s: Self)
        ensures
            s@ == Set::<Capability>::full(),
    {
        let s = CapabilitySet { bits: 31 };
        proof {
            assert forall|c: Capability| s@.contains(c) by {
                let n: u8 = c.mask();
                assert(31u8 & n != 0) by (bit_vector)
                    requires
                        n == 1 || n == 2 || n == 4 || n == 8 || n == 16,
                ;
            }
            assert(s@ =~= Set::<Capability>::full());
        }
        s
    }

    /// Adds `cap` to the set. Adding a capability that is already there
    /// changes nothing.
    pub fn insert(&mut self, cap: Capability)
        ensures
            final(self)@ == old(self)@.insert(cap),
    {
        let m: u8 = cap.bit();
        self.bits = self.bits | m;
        proof {
            assert forall|c: Capability|
                final(self)@.contains(c) == old(self)@.insert(cap).contains(c) by {
                lemma_set_bit(old(self).bits, m, c.mask());
            }
            assert(final(self)@ =~= old(self)@.insert(cap));
        }
    }

    /// Whether `cap` is in the set.
    pub fn contains(&self, cap: Capability) -> (held: bool)
        ensures
            held == self@.contains(cap),
    {
        self.bits & cap.bit() != 0
    }
}

/// A named preset of capabilities, used only to construct a sandbox.
#[derive(Clone, Copy, Debug, PartialEq, Eq, Structural)]
pub enum TrustProfile {
    /// Reading files and system information; no writing, spawning or network.
    Standard,
    /// No capability at all.
    Strict,
    /// Every capability.
    Privileged,
}

impl TrustProfile {
    /// The capabilities that a sandbox built from this profile starts with.
    pub open spec fn granted(self) -> Set<Capability> {
        match self {
            TrustProfile::Standard => set![Capability::FileRead, Capability::SystemInfoRead],
            TrustProfile::Strict => Set::empty(),
            TrustProfile::Privileged => Set::full(),
        }
    }

    /// The capability set of this profile.
    pub fn capabilities(self) -> (caps: CapabilitySet)
        ensures
            caps@ == self.granted(),
    {
        match self {
            TrustProfile::Standard => {
                let mut caps = CapabilitySet::empty();
                caps.insert(Capability::FileRead);
                caps.insert(Capability::SystemInfoRead);
                assert(caps@ =~= self.granted());
                caps
            },
            TrustProfile::Strict => CapabilitySet::empty(),
            TrustProfile::Privileged => CapabilitySet::all(),
        }
    }
}

} // verus!
