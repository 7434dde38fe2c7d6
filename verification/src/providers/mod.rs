//! The OS adapters. Each provider holds everything specific to one OS
//! family behind one trait, so adding an OS means adding a provider, never
//! editing the core; a provider knows nothing about any other.
//!
//! Launching is a firmware action expressed as a [`LaunchPlan`] that the
//! engine hands to the platform adapter, so the providers' decisions stay
//! pure, while loading and starting images happens in one audited place.
use vstd::prelude::*;
use crate::graph::{BootEntry, EfiPath, Health, OsKind, Reason, BootMethod};
use crate::graph::entry::BootEntryV;
use crate::graph::health::HealthV;
use crate::text::concat;

pub mod windows;
pub mod linux;
pub mod nixos;
pub mod generic;
pub mod recovery;
pub mod registry;
pub mod laws;

pub use registry::{Registry, Provider, provider_for};

verus! {

/// A firmware-agnostic description of how to launch an entry.
#[derive(Clone, Debug, PartialEq, Eq)]
pub enum LaunchPlan {
    /// Load and start an EFI image through the firmware (which verifies it
    /// under Secure Boot). `options` go to the image as its load options (the
    /// kernel command line for EFI-stub kernels); `initrd`, when present, is
    /// offered through the firmware's initrd media.
    Chainload { image: EfiPath, options: Option<String>, initrd: Option<EfiPath> },
    /// Load a kernel (and initrd) directly and hand off to it; used only for
    /// `LinuxDirect`, and gated by the launch policy.
    DirectKernel { kernel: EfiPath, initrd: Option<EfiPath>, cmdline: Option<String> },
}

/// The mathematical value of a [`LaunchPlan`].
pub enum LaunchPlanV {
    Chainload { image: Seq<char>, options: Option<Seq<char>>, initrd: Option<Seq<char>> },
    DirectKernel { kernel: Seq<char>, initrd: Option<Seq<char>>, cmdline: Option<Seq<char>> },
}

impl View for LaunchPlan {
    type V = LaunchPlanV;

    open spec fn view(&self) -> LaunchPlanV {
        match self {
            LaunchPlan::Chainload { image, options, initrd } => LaunchPlanV::Chainload {
                image: image.0@,
                options: crate::graph::entry::opt_text(*options),
                initrd: crate::graph::entry::path_text(*initrd),
            },
            LaunchPlan::DirectKernel { kernel, initrd, cmdline } => LaunchPlanV::DirectKernel {
                kernel: kernel.0@,
                initrd: crate::graph::entry::path_text(*initrd),
                cmdline: crate::graph::entry::opt_text(*cmdline),
            },
        }
    }
}

/// Why a launch plan could not be produced.
#[derive(Clone, Debug, PartialEq, Eq)]
pub enum PlanError {
    NotLaunchable(Reason),
    WrongProvider,
}

/// The mathematical value of a [`PlanError`].
pub enum PlanErrorV {
    NotLaunchable(Seq<char>),
    WrongProvider,
}

impl View for PlanError {
    type V = PlanErrorV;

    open spec fn view(&self) -> PlanErrorV {
        match self {
            PlanError::NotLaunchable(r) => PlanErrorV::NotLaunchable(r.0@),
            PlanError::WrongProvider => PlanErrorV::WrongProvider,
        }
    }
}

/// The view of a plan result.
pub open spec fn plan_view(r: Result<LaunchPlan, PlanError>) -> Result<LaunchPlanV, PlanErrorV> {
    match r {
        Ok(p) => Ok(p@),
        Err(e) => Err(e@),
    }
}

/// `present` may answer `b` when asked about `path`.
pub open spec fn answers<P: Fn(&str) -> bool>(present: P, path: Seq<char>, b: bool) -> bool {
    exists|s: &str| s@ == path && #[trigger] call_ensures(present, (s,), b)
}

/// `present` can be asked about any path.
pub open spec fn askable<P: Fn(&str) -> bool>(present: P) -> bool {
    forall|s: &str| #[trigger] call_requires(present, (s,))
}

/// The answers about an entry's loader (`lb`), kernel (`kb`) and initrd
/// (`ib`) are ones `present` may give, for each path the provider for `k`
/// asks about: the loader for a chainloading provider; the kernel, and the
/// initrd once the kernel is there, for a kernel-booting one.
pub open spec fn consistent<P: Fn(&str) -> bool>(present: P, k: OsKind, e: BootEntryV, lb: bool, kb: bool, ib: bool) -> bool {
    match k {
        OsKind::Windows | OsKind::GenericEfi | OsKind::Recovery => e.loader is Some ==> answers(present, e.loader->0, lb),
        OsKind::Linux | OsKind::NixOs => {
            &&& e.kernel is Some ==> answers(present, e.kernel->0, kb)
            &&& e.kernel is Some && kb && e.initrd is Some ==> answers(present, e.initrd->0, ib)
        },
        OsKind::Bsd => true,
    }
}

/// Healthy when the required file is present, else Unbootable saying which
/// file is missing.
pub open spec fn required_health(what: Seq<char>, path: Seq<char>, present: bool) -> HealthV {
    if present {
        HealthV::Healthy
    } else {
        HealthV::Unbootable(what + " missing: "@ + path)
    }
}

/// Which entries the provider for OS family `k` claims.
pub open spec fn spec_handles(k: OsKind, e: BootEntryV) -> bool {
    match k {
        OsKind::Windows => e.method == BootMethod::WindowsBootManager,
        OsKind::NixOs => e.method == BootMethod::NixGeneration,
        OsKind::Linux => e.method == BootMethod::LinuxEfiStub || e.method == BootMethod::LinuxDirect,
        OsKind::Recovery => e.role is Recovery,
        OsKind::GenericEfi => e.method == BootMethod::EfiChainload && !(e.role is Recovery),
        OsKind::Bsd => false,
    }
}

/// The health a kernel-booting provider gives: a kernel is required, a
/// missing initrd only degrades.
pub open spec fn kernel_health(no_kernel: Seq<char>, e: BootEntryV, kb: bool, ib: bool) -> HealthV {
    match e.kernel {
        None => HealthV::Unbootable(no_kernel),
        Some(k) => if !kb {
            required_health("kernel"@, k, kb)
        } else if e.initrd is Some && !ib {
            HealthV::Degraded("initrd missing: "@ + e.initrd->0)
        } else {
            HealthV::Healthy
        },
    }
}

/// The health a loader-chainloading provider gives.
pub open spec fn loader_health(what: Seq<char>, none: HealthV, e: BootEntryV, lb: bool) -> HealthV {
    match e.loader {
        Some(p) => required_health(what, p, lb),
        None => none,
    }
}

/// The health the provider for `k` gives an entry, given the answers about
/// its loader (`lb`), kernel (`kb`) and initrd (`ib`).
pub open spec fn spec_validate(k: OsKind, e: BootEntryV, lb: bool, kb: bool, ib: bool) -> HealthV {
    match k {
        OsKind::Windows => loader_health("Windows loader"@, HealthV::Unbootable("no Windows loader path"@), e, lb),
        OsKind::GenericEfi => loader_health("EFI image"@, HealthV::Unbootable("no EFI image path"@), e, lb),
        OsKind::Recovery => loader_health("recovery image"@, HealthV::Degraded("recovery image path unknown"@), e, lb),
        OsKind::Linux => kernel_health("no kernel path"@, e, kb, ib),
        OsKind::NixOs => kernel_health("generation has no kernel"@, e, kb, ib),
        OsKind::Bsd => HealthV::Unknown,
    }
}

/// Chainload the entry's loader, or say it has none.
pub open spec fn loader_plan(none: Seq<char>, e: BootEntryV) -> Result<LaunchPlanV, PlanErrorV> {
    match e.loader {
        Some(l) => Ok(LaunchPlanV::Chainload { image: l, options: None, initrd: None }),
        None => Err(PlanErrorV::NotLaunchable(none)),
    }
}

/// The plan the provider for `k` produces for an entry.
pub open spec fn spec_plan(k: OsKind, e: BootEntryV) -> Result<LaunchPlanV, PlanErrorV> {
    match k {
        OsKind::Windows => loader_plan("no Windows loader path"@, e),
        OsKind::GenericEfi => loader_plan("no EFI image path"@, e),
        OsKind::Recovery => loader_plan("no recovery image path"@, e),
        OsKind::NixOs => match e.kernel {
            Some(kn) => Ok(LaunchPlanV::Chainload { image: kn, options: e.cmdline, initrd: e.initrd }),
            None => Err(PlanErrorV::NotLaunchable("generation has no kernel"@)),
        },
        OsKind::Linux => match e.kernel {
            Some(kn) => if e.method == BootMethod::LinuxEfiStub {
                Ok(LaunchPlanV::Chainload { image: kn, options: e.cmdline, initrd: e.initrd })
            } else if e.method == BootMethod::LinuxDirect {
                Ok(LaunchPlanV::DirectKernel { kernel: kn, initrd: e.initrd, cmdline: e.cmdline })
            } else {
                Err(PlanErrorV::WrongProvider)
            },
            None => Err(PlanErrorV::NotLaunchable("no kernel path"@)),
        },
        OsKind::Bsd => Err(PlanErrorV::WrongProvider),
    }
}

/// The OS-adapter interface: one provider, one OS family. File existence is
/// resolved by the caller and handed in as `present`, so providers stay pure.
pub trait BootProvider {
    /// The OS family this provider serves.
    fn kind(&self) -> OsKind;

    /// Whether this provider recognises and can launch the entry.
    fn handles(&self, entry: &BootEntry) -> bool;

    /// The entry's health, given which of its files exist.
    fn validate<P: Fn(&str) -> bool>(&self, entry: &BootEntry, present: &P) -> Health
        requires
            askable(*present),
    ;

    /// The launch plan for an entry this provider handles.
    fn plan(&self, entry: &BootEntry) -> Result<LaunchPlan, PlanError>;
}

/// Ask `present` about a path the entry requires.
pub(crate) fn health_from_required<P: Fn(&str) -> bool>(path: &EfiPath, present: &P, what: &str) -> (r: (Health, Ghost<bool>))
    requires
        askable(*present),
    ensures
        answers(*present, path.0@, r.1@),
        r.0@ == required_health(what@, path.0@, r.1@),
{
    let b = present(path.0.as_str());
    let h = if b {
        Health::Healthy
    } else {
        let w = concat(what, " missing: ");
        Health::Unbootable(Reason(concat(w.as_str(), path.0.as_str())))
    };
    (h, Ghost(b))
}

/// A plan error for an entry missing what its launch needs.
pub(crate) fn not_launchable(msg: &str) -> (r: PlanError)
    ensures
        r@ == PlanErrorV::NotLaunchable(msg@),
{
    PlanError::NotLaunchable(Reason::new(msg))
}

/// Validate a chainloaded image: its loader must be present; `none` is the
/// health of an entry without one.
pub(crate) fn validate_loader<P: Fn(&str) -> bool>(entry: &BootEntry, present: &P, what: &str, none: Health) -> (r: (Health, Ghost<bool>))
    requires
        askable(*present),
    ensures
        entry@.loader is Some ==> answers(*present, entry@.loader->0, r.1@),
        r.0@ == loader_health(what@, none@, entry@, r.1@),
{
    match &entry.loader {
        Some(p) => {
            let (h, Ghost(b)) = health_from_required(p, present, what);
            (h, Ghost(b))
        },
        None => (none, Ghost(true)),
    }
}

/// Validate a kernel-booting entry: a kernel is required and a missing
/// initrd only degrades; `no_kernel` says why an entry without one cannot
/// boot.
pub(crate) fn validate_kernel<P: Fn(&str) -> bool>(entry: &BootEntry, present: &P, no_kernel: &str) -> (r: (Health, Ghost<bool>, Ghost<bool>))
    requires
        askable(*present),
    ensures
        entry@.kernel is Some ==> answers(*present, entry@.kernel->0, r.1@),
        entry@.kernel is Some && r.1@ && entry@.initrd is Some ==> answers(*present, entry@.initrd->0, r.2@),
        r.0@ == kernel_health(no_kernel@, entry@, r.1@, r.2@),
{
    let kernel = match &entry.kernel {
        Some(k) => k,
        None => return (Health::Unbootable(Reason::new(no_kernel)), Ghost(true), Ghost(true)),
    };
    let (h, Ghost(kb)) = health_from_required(kernel, present, "kernel");
    if !matches!(h, Health::Healthy) {
        return (h, Ghost(kb), Ghost(true));
    }
    match &entry.initrd {
        Some(i) => {
            let ib = present(i.0.as_str());
            if !ib {
                (Health::Degraded(Reason(concat("initrd missing: ", i.0.as_str()))), Ghost(kb), Ghost(ib))
            } else {
                (Health::Healthy, Ghost(kb), Ghost(ib))
            }
        },
        None => (Health::Healthy, Ghost(kb), Ghost(true)),
    }
}

} // verus!
