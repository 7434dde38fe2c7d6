//! The provider registry: given an entry, find the one provider that
//! handles it. The built-in providers are tried most specific first, with
//! the generic chainloader last as the catch-all.
use vstd::prelude::*;
use crate::graph::{BootEntry, BootMethod, EntryRole, Health, OsKind};
use crate::graph::entry::BootEntryV;
use crate::providers::{BootProvider, LaunchPlan, PlanError, askable, consistent, spec_handles,
    spec_validate, spec_plan, plan_view};
use crate::providers::windows::Windows;
use crate::providers::linux::Linux;
use crate::providers::nixos::NixOs;
use crate::providers::generic::Generic;
use crate::providers::recovery::Recovery;

verus! {

/// One of the built-in providers.
#[derive(Clone, Copy, Debug, PartialEq, Eq, Structural)]
pub enum Provider {
    Windows,
    NixOs,
    Linux,
    Recovery,
    Generic,
}

/// The OS family a provider serves.
pub open spec fn provider_kind(p: Provider) -> OsKind {
    match p {
        Provider::Windows => OsKind::Windows,
        Provider::NixOs => OsKind::NixOs,
        Provider::Linux => OsKind::Linux,
        Provider::Recovery => OsKind::Recovery,
        Provider::Generic => OsKind::GenericEfi,
    }
}

impl BootProvider for Provider {
    fn kind(&self) -> (r: OsKind)
        ensures
            r == provider_kind(*self),
    {
        match self {
            Provider::Windows => Windows.kind(),
            Provider::NixOs => NixOs.kind(),
            Provider::Linux => Linux.kind(),
            Provider::Recovery => Recovery.kind(),
            Provider::Generic => Generic.kind(),
        }
    }

    fn handles(&self, entry: &BootEntry) -> (r: bool)
        ensures
            r == spec_handles(provider_kind(*self), entry@),
    {
        match self {
            Provider::Windows => Windows.handles(entry),
            Provider::NixOs => NixOs.handles(entry),
            Provider::Linux => Linux.handles(entry),
            Provider::Recovery => Recovery.handles(entry),
            Provider::Generic => Generic.handles(entry),
        }
    }

    fn validate<P: Fn(&str) -> bool>(&self, entry: &BootEntry, present: &P) -> (h: Health)
        ensures
            exists|lb: bool, kb: bool, ib: bool|
                consistent(*present, provider_kind(*self), entry@, lb, kb, ib) && h@ == spec_validate(
                    provider_kind(*self),
                    entry@,
                    lb,
                    kb,
                    ib,
                ),
    {
        match self {
            Provider::Windows => Windows.validate(entry, present),
            Provider::NixOs => NixOs.validate(entry, present),
            Provider::Linux => Linux.validate(entry, present),
            Provider::Recovery => Recovery.validate(entry, present),
            Provider::Generic => Generic.validate(entry, present),
        }
    }

    fn plan(&self, entry: &BootEntry) -> (r: Result<LaunchPlan, PlanError>)
        ensures
            plan_view(r) == spec_plan(provider_kind(*self), entry@),
    {
        match self {
            Provider::Windows => Windows.plan(entry),
            Provider::NixOs => NixOs.plan(entry),
            Provider::Linux => Linux.plan(entry),
            Provider::Recovery => Recovery.plan(entry),
            Provider::Generic => Generic.plan(entry),
        }
    }
}

/// The built-in providers in resolution order, most specific first.
pub open spec fn builtins() -> Seq<Provider> {
    seq![Provider::Windows, Provider::NixOs, Provider::Linux, Provider::Recovery, Provider::Generic]
}

/// The first provider of `ps` that handles `e`.
pub open spec fn first_handler(ps: Seq<Provider>, e: BootEntryV) -> Option<Provider>
    decreases ps.len(),
{
    if ps.len() == 0 {
        None
    } else if spec_handles(provider_kind(ps[0]), e) {
        Some(ps[0])
    } else {
        first_handler(ps.drop_first(), e)
    }
}

/// The provider for an entry, chosen by its boot method (and, for
/// chainloaded entries, its role).
pub open spec fn spec_provider_for(e: BootEntryV) -> Provider {
    match e.method {
        BootMethod::WindowsBootManager => Provider::Windows,
        BootMethod::NixGeneration => Provider::NixOs,
        BootMethod::LinuxEfiStub | BootMethod::LinuxDirect => Provider::Linux,
        BootMethod::EfiChainload => if e.role is Recovery {
            Provider::Recovery
        } else {
            Provider::Generic
        },
    }
}

/// Holds the built-in providers.
pub struct Registry {
    providers: Vec<Provider>,
}

impl Registry {
    /// The providers, in resolution order.
    pub closed spec fn providers(&self) -> Seq<Provider> {
        self.providers@
    }

    /// The built-in providers, in resolution order.
    pub fn with_builtins() -> (r: Registry)
        ensures
            r.providers() == builtins(),
    {
        let providers = vec![Provider::Windows, Provider::NixOs, Provider::Linux, Provider::Recovery, Provider::Generic];
        assert(providers@ == builtins());
        Registry { providers }
    }

    /// The first provider that handles `entry`, if any.
    pub fn resolve(&self, entry: &BootEntry) -> (r: Option<Provider>)
        ensures
            r == first_handler(self.providers(), entry@),
    {
        let mut i: usize = 0;
        assert(self.providers@.skip(0) == self.providers@);
        while i < self.providers.len()
            invariant
                i <= self.providers@.len(),
                first_handler(self.providers@, entry@) == first_handler(self.providers@.skip(i as int), entry@),
            decreases self.providers@.len() - i,
        {
            let p = self.providers[i];
            assert(self.providers@.skip(i as int)[0] == p);
            if p.handles(entry) {
                return Some(p);
            }
            assert(self.providers@.skip(i as int).drop_first() == self.providers@.skip(i + 1));
            i = i + 1;
        }
        None
    }
}

impl Default for Registry {
    fn default() -> (r: Registry)
        ensures
            r.providers() == builtins(),
    {
        Registry::with_builtins()
    }
}

/// The provider for one entry, without a registry.
pub fn provider_for(entry: &BootEntry) -> (r: Option<Provider>)
    ensures
        r == Some(spec_provider_for(entry@)),
{
    match entry.method {
        BootMethod::WindowsBootManager => Some(Provider::Windows),
        BootMethod::NixGeneration => Some(Provider::NixOs),
        BootMethod::LinuxEfiStub | BootMethod::LinuxDirect => Some(Provider::Linux),
        BootMethod::EfiChainload => {
            if matches!(entry.role, EntryRole::Recovery) {
                Some(Provider::Recovery)
            } else {
                Some(Provider::Generic)
            }
        },
    }
}

} // verus!
