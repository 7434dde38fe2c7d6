//! The recovery provider: recovery environments (WinRE, a Linux recovery
//! target, a firmware shell registered as a recovery option), always
//! chainloaded and recognised by their Recovery role.
use vstd::prelude::*;
use crate::graph::{BootEntry, BootMethod, EntryRole, Health, OsKind, Reason};
use crate::providers::{BootProvider, LaunchPlan, PlanError, validate_loader, not_launchable,
    askable, consistent, spec_handles, spec_validate, spec_plan, plan_view};

verus! {

pub struct Recovery;

impl BootProvider for Recovery {
    fn kind(&self) -> (r: OsKind)
        ensures
            r == OsKind::Recovery,
    {
        OsKind::Recovery
    }

    fn handles(&self, entry: &BootEntry) -> (r: bool)
        ensures
            r == spec_handles(OsKind::Recovery, entry@),
    {
        matches!(entry.role, EntryRole::Recovery)
    }

    fn validate<P: Fn(&str) -> bool>(&self, entry: &BootEntry, present: &P) -> (h: Health)
        ensures
            exists|lb: bool, kb: bool, ib: bool|
                consistent(*present, OsKind::Recovery, entry@, lb, kb, ib) && h@ == spec_validate(
                    OsKind::Recovery,
                    entry@,
                    lb,
                    kb,
                    ib,
                ),
    {
        let (h, Ghost(lb)) = validate_loader(entry, present, "recovery image", Health::Degraded(Reason::new("recovery image path unknown")));
        assert(consistent(*present, OsKind::Recovery, entry@, lb, true, true));
        assert(h@ == spec_validate(OsKind::Recovery, entry@, lb, true, true));
        h
    }

    fn plan(&self, entry: &BootEntry) -> (r: Result<LaunchPlan, PlanError>)
        ensures
            plan_view(r) == spec_plan(OsKind::Recovery, entry@),
    {
        match &entry.loader {
            Some(l) => Ok(LaunchPlan::Chainload { image: l.duplicate(), options: None, initrd: None }),
            None => Err(not_launchable("no recovery image path")),
        }
    }
}

} // verus!
