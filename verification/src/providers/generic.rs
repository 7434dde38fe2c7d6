//! The generic EFI provider: chainloads any other native `.efi` loader, the
//! catch-all that keeps unknown but valid EFI applications bootable.
use vstd::prelude::*;
use crate::graph::{BootEntry, BootMethod, EntryRole, Health, OsKind, Reason};
use crate::providers::{BootProvider, LaunchPlan, PlanError, validate_loader, not_launchable,
    askable, consistent, spec_handles, spec_validate, spec_plan, plan_view};

verus! {

pub struct Generic;

impl BootProvider for Generic {
    fn kind(&self) -> (r: OsKind)
        ensures
            r == OsKind::GenericEfi,
    {
        OsKind::GenericEfi
    }

    fn handles(&self, entry: &BootEntry) -> (r: bool)
        ensures
            r == spec_handles(OsKind::GenericEfi, entry@),
    {
        entry.method == BootMethod::EfiChainload && !matches!(entry.role, EntryRole::Recovery)
    }

    fn validate<P: Fn(&str) -> bool>(&self, entry: &BootEntry, present: &P) -> (h: Health)
        ensures
            exists|lb: bool, kb: bool, ib: bool|
                consistent(*present, OsKind::GenericEfi, entry@, lb, kb, ib) && h@ == spec_validate(
                    OsKind::GenericEfi,
                    entry@,
                    lb,
                    kb,
                    ib,
                ),
    {
        let (h, Ghost(lb)) = validate_loader(entry, present, "EFI image", Health::Unbootable(Reason::new("no EFI image path")));
        assert(consistent(*present, OsKind::GenericEfi, entry@, lb, true, true));
        assert(h@ == spec_validate(OsKind::GenericEfi, entry@, lb, true, true));
        h
    }

    fn plan(&self, entry: &BootEntry) -> (r: Result<LaunchPlan, PlanError>)
        ensures
            plan_view(r) == spec_plan(OsKind::GenericEfi, entry@),
    {
        match &entry.loader {
            Some(l) => Ok(LaunchPlan::Chainload { image: l.duplicate(), options: None, initrd: None }),
            None => Err(not_launchable("no EFI image path")),
        }
    }
}

} // verus!
