//! The Windows provider: chainloads the Windows Boot Manager, delegating to
//! Windows' own boot chain rather than replacing it.
use vstd::prelude::*;
use crate::graph::{BootEntry, BootMethod, EntryRole, Health, OsKind, Reason};
use crate::providers::{BootProvider, LaunchPlan, PlanError, validate_loader, not_launchable,
    askable, consistent, spec_handles, spec_validate, spec_plan, plan_view};

verus! {

pub struct Windows;

impl BootProvider for Windows {
    fn kind(&self) -> (r: OsKind)
        ensures
            r == OsKind::Windows,
    {
        OsKind::Windows
    }

    fn handles(&self, entry: &BootEntry) -> (r: bool)
        ensures
            r == spec_handles(OsKind::Windows, entry@),
    {
        entry.method == BootMethod::WindowsBootManager
    }

    fn validate<P: Fn(&str) -> bool>(&self, entry: &BootEntry, present: &P) -> (h: Health)
        ensures
            exists|lb: bool, kb: bool, ib: bool|
                consistent(*present, OsKind::Windows, entry@, lb, kb, ib) && h@ == spec_validate(
                    OsKind::Windows,
                    entry@,
                    lb,
                    kb,
                    ib,
                ),
    {
        let (h, Ghost(lb)) = validate_loader(entry, present, "Windows loader", Health::Unbootable(Reason::new("no Windows loader path")));
        assert(consistent(*present, OsKind::Windows, entry@, lb, true, true));
        assert(h@ == spec_validate(OsKind::Windows, entry@, lb, true, true));
        h
    }

    fn plan(&self, entry: &BootEntry) -> (r: Result<LaunchPlan, PlanError>)
        ensures
            plan_view(r) == spec_plan(OsKind::Windows, entry@),
    {
        match &entry.loader {
            Some(l) => Ok(LaunchPlan::Chainload { image: l.duplicate(), options: None, initrd: None }),
            None => Err(not_launchable("no Windows loader path")),
        }
    }
}

} // verus!
