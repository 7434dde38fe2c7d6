//! The image-launch policy: given how an entry boots and the Secure Boot
//! posture, defer to firmware verification, require our own signature
//! check, or refuse.
use vstd::prelude::*;
use crate::graph::{BootEntry, BootMethod};
use crate::security::state::SecureBootState;

verus! {

/// The result of our own signature check of an image we load ourselves
/// (chainloaded images are checked by the firmware, not here).
#[derive(Clone, Copy, Debug, PartialEq, Eq, Structural)]
pub enum Verification {
    Valid,
    Invalid,
    NotChecked,
}

/// What the engine should do, security-wise, to launch an entry.
#[derive(Clone, Debug, PartialEq, Eq)]
pub enum LaunchDecision {
    /// Load through the firmware, which enforces Secure Boot: the default
    /// for chainloaded and EFI-stub entries.
    DeferToFirmware,
    /// We load the image ourselves and Secure Boot is enforcing, so its
    /// signature must be (and was) verified.
    RequireOwnVerification,
    /// We load the image ourselves and Secure Boot is not enforcing, so a
    /// signature check is advisory only.
    OwnLoadUnverified,
    /// Refuse to launch, with a reason.
    Refuse(&'static str),
}

/// The mathematical value of a [`LaunchDecision`].
pub enum LaunchDecisionV {
    DeferToFirmware,
    RequireOwnVerification,
    OwnLoadUnverified,
    Refuse(Seq<char>),
}

impl View for LaunchDecision {
    type V = LaunchDecisionV;

    open spec fn view(&self) -> LaunchDecisionV {
        match self {
            LaunchDecision::DeferToFirmware => LaunchDecisionV::DeferToFirmware,
            LaunchDecision::RequireOwnVerification => LaunchDecisionV::RequireOwnVerification,
            LaunchDecision::OwnLoadUnverified => LaunchDecisionV::OwnLoadUnverified,
            LaunchDecision::Refuse(r) => LaunchDecisionV::Refuse(r@),
        }
    }
}

/// The launch decision for an entry booted by `method`: every
/// firmware-launched method defers to the firmware; a direct kernel load
/// under enforcing Secure Boot goes ahead only with a valid signature.
pub open spec fn launch_decision(method: BootMethod, state: SecureBootState, verified: Verification) -> LaunchDecisionV {
    if method != BootMethod::LinuxDirect {
        LaunchDecisionV::DeferToFirmware
    } else if state != SecureBootState::Enabled {
        LaunchDecisionV::OwnLoadUnverified
    } else {
        match verified {
            Verification::Valid => LaunchDecisionV::RequireOwnVerification,
            Verification::Invalid => LaunchDecisionV::Refuse("signature invalid under Secure Boot"@),
            Verification::NotChecked => LaunchDecisionV::Refuse("unverified image under Secure Boot"@),
        }
    }
}

/// Decide how to launch `entry` under `state`, given any verification
/// already made of an image we load ourselves.
pub fn decide_launch(entry: &BootEntry, state: SecureBootState, verified: Verification) -> (r: LaunchDecision)
    ensures
        r@ == launch_decision(entry.method, state, verified),
{
    match entry.method {
        BootMethod::WindowsBootManager
        | BootMethod::LinuxEfiStub
        | BootMethod::NixGeneration
        | BootMethod::EfiChainload => LaunchDecision::DeferToFirmware,
        BootMethod::LinuxDirect => match (state.is_enforcing(), verified) {
            (true, Verification::Valid) => LaunchDecision::RequireOwnVerification,
            (true, Verification::Invalid) => LaunchDecision::Refuse("signature invalid under Secure Boot"),
            (true, Verification::NotChecked) => LaunchDecision::Refuse("unverified image under Secure Boot"),
            (false, _) => LaunchDecision::OwnLoadUnverified,
        },
    }
}

/// Under enforcing Secure Boot, an image the boot manager loads itself is
/// launched only when its signature was verified valid; every other method
/// leaves the check to the firmware.
pub proof fn law_no_unverified_direct_load_when_enforcing(method: BootMethod, verified: Verification)
    ensures
        method != BootMethod::LinuxDirect ==> launch_decision(method, SecureBootState::Enabled, verified)
            == LaunchDecisionV::DeferToFirmware,
        method == BootMethod::LinuxDirect ==> (launch_decision(method, SecureBootState::Enabled, verified) is Refuse
            <==> verified != Verification::Valid),
        !(launch_decision(method, SecureBootState::Enabled, verified) is OwnLoadUnverified),
{
}

} // verus!
