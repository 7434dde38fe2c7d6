//! The NixOS provider. A generation boots its kernel as an EFI stub with its
//! initrd and kernel parameters, chainloaded through the firmware. The
//! generation and specialisation structure is already in the entry's role;
//! this provider only turns it into a launch plan.
use vstd::prelude::*;
use crate::graph::{BootEntry, BootMethod, Health, OsKind};
use crate::providers::{BootProvider, LaunchPlan, PlanError, validate_kernel, not_launchable,
    askable, consistent, spec_handles, spec_validate, spec_plan, plan_view};

verus! {

pub struct NixOs;

impl BootProvider for NixOs {
    fn kind(&self) -> (r: OsKind)
        ensures
            r == OsKind::NixOs,
    {
        OsKind::NixOs
    }

    fn handles(&self, entry: &BootEntry) -> (r: bool)
        ensures
            r == spec_handles(OsKind::NixOs, entry@),
    {
        entry.method == BootMethod::NixGeneration
    }

    fn validate<P: Fn(&str) -> bool>(&self, entry: &BootEntry, present: &P) -> (h: Health)
        ensures
            exists|lb: bool, kb: bool, ib: bool|
                consistent(*present, OsKind::NixOs, entry@, lb, kb, ib) && h@ == spec_validate(
                    OsKind::NixOs,
                    entry@,
                    lb,
                    kb,
                    ib,
                ),
    {
        let (h, Ghost(kb), Ghost(ib)) = validate_kernel(entry, present, "generation has no kernel");
        assert(consistent(*present, OsKind::NixOs, entry@, true, kb, ib));
        assert(h@ == spec_validate(OsKind::NixOs, entry@, true, kb, ib));
        h
    }

    fn plan(&self, entry: &BootEntry) -> (r: Result<LaunchPlan, PlanError>)
        ensures
            plan_view(r) == spec_plan(OsKind::NixOs, entry@),
    {
        let kernel = match &entry.kernel {
            Some(k) => k.duplicate(),
            None => return Err(not_launchable("generation has no kernel")),
        };
        let cmdline = entry.cmdline.clone();
        let initrd = match &entry.initrd {
            Some(i) => Some(i.duplicate()),
            None => None,
        };
        Ok(LaunchPlan::Chainload { image: kernel, options: cmdline, initrd })
    }
}

} // verus!
