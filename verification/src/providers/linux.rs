//! The Linux provider, with two launch styles:
//!   * EFI stub: the kernel is itself an EFI image; chainload it through the
//!     firmware with the command line as load options and the initrd offered
//!     as initrd media;
//!   * direct: load the kernel and hand off to it (for kernels that are not
//!     EFI stubs), gated by the launch policy.
use vstd::prelude::*;
use crate::graph::{BootEntry, BootMethod, Health, OsKind};
use crate::providers::{BootProvider, LaunchPlan, PlanError, validate_kernel, not_launchable,
    askable, consistent, spec_handles, spec_validate, spec_plan, plan_view};

verus! {

pub struct Linux;

impl BootProvider for Linux {
    fn kind(&self) -> (r: OsKind)
        ensures
            r == OsKind::Linux,
    {
        OsKind::Linux
    }

    fn handles(&self, entry: &BootEntry) -> (r: bool)
        ensures
            r == spec_handles(OsKind::Linux, entry@),
    {
        entry.method == BootMethod::LinuxEfiStub || entry.method == BootMethod::LinuxDirect
    }

    fn validate<P: Fn(&str) -> bool>(&self, entry: &BootEntry, present: &P) -> (h: Health)
        ensures
            exists|lb: bool, kb: bool, ib: bool|
                consistent(*present, OsKind::Linux, entry@, lb, kb, ib) && h@ == spec_validate(
                    OsKind::Linux,
                    entry@,
                    lb,
                    kb,
                    ib,
                ),
    {
        let (h, Ghost(kb), Ghost(ib)) = validate_kernel(entry, present, "no kernel path");
        assert(consistent(*present, OsKind::Linux, entry@, true, kb, ib));
        assert(h@ == spec_validate(OsKind::Linux, entry@, true, kb, ib));
        h
    }

    fn plan(&self, entry: &BootEntry) -> (r: Result<LaunchPlan, PlanError>)
        ensures
            plan_view(r) == spec_plan(OsKind::Linux, entry@),
    {
        let kernel = match &entry.kernel {
            Some(k) => k.duplicate(),
            None => return Err(not_launchable("no kernel path")),
        };
        let cmdline = entry.cmdline.clone();
        let initrd = match &entry.initrd {
            Some(i) => Some(i.duplicate()),
            None => None,
        };
        match entry.method {
            BootMethod::LinuxEfiStub => Ok(LaunchPlan::Chainload { image: kernel, options: cmdline, initrd }),
            BootMethod::LinuxDirect => Ok(LaunchPlan::DirectKernel { kernel, initrd, cmdline }),
            _ => Err(PlanError::WrongProvider),
        }
    }
}

} // verus!
