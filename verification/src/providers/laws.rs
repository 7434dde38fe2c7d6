//! How the providers divide the entries between them.
use vstd::prelude::*;
use crate::graph::BootMethod;
use crate::graph::entry::BootEntryV;
use crate::providers::{spec_handles, spec_plan, PlanErrorV};
use crate::providers::registry::{Provider, provider_kind, builtins, first_handler, spec_provider_for};

verus! {

/// The registry and `provider_for` pick the same provider for every entry,
/// and that provider handles it.
pub proof fn law_provider_for_agrees_with_registry(e: BootEntryV)
    ensures
        first_handler(builtins(), e) == Some(spec_provider_for(e)),
        spec_handles(provider_kind(spec_provider_for(e)), e),
{
    reveal_with_fuel(first_handler, 6);
}

/// Each entry is claimed by exactly one built-in provider, unless it has
/// the Recovery role and boots other than by chainloading (then the
/// Recovery provider claims it too).
pub proof fn law_one_claimant(e: BootEntryV, i: int, j: int)
    requires
        !(e.role is Recovery && e.method != BootMethod::EfiChainload),
        0 <= i < builtins().len(),
        0 <= j < builtins().len(),
        spec_handles(provider_kind(builtins()[i]), e),
        spec_handles(provider_kind(builtins()[j]), e),
    ensures
        i == j,
{
}

/// The provider chosen for an entry never answers that it is the wrong
/// provider.
pub proof fn law_chosen_provider_plans(e: BootEntryV)
    ensures
        spec_plan(provider_kind(spec_provider_for(e)), e) != Err::<crate::providers::LaunchPlanV, PlanErrorV>(
            PlanErrorV::WrongProvider,
        ),
{
}

} // verus!
