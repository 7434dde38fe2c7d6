//! The platform's Secure Boot posture, as the firmware variables
//! `SecureBoot` and `SetupMode` report it.
use vstd::prelude::*;

verus! {

#[derive(Clone, Copy, Debug, PartialEq, Eq, Structural)]
pub enum SecureBootState {
    /// Secure Boot is enforcing signatures.
    Enabled,
    /// Secure Boot is off: the firmware will launch anything.
    Disabled,
    /// Setup Mode: keys are being enrolled; not yet enforcing.
    SetupMode,
    /// The state could not be determined (variable missing or unreadable).
    Unknown,
}

/// The first byte of a variable, if it was read and is not empty.
pub open spec fn first_byte(v: Option<Seq<u8>>) -> Option<u8> {
    match v {
        Some(b) => if b.len() > 0 {
            Some(b[0])
        } else {
            None
        },
        None => None,
    }
}

/// The posture the two variables report. Both are one-byte booleans;
/// Setup Mode takes precedence.
pub open spec fn state_of(secure_boot: Option<Seq<u8>>, setup_mode: Option<Seq<u8>>) -> SecureBootState {
    if first_byte(setup_mode) == Some(1u8) {
        SecureBootState::SetupMode
    } else if first_byte(secure_boot) == Some(1u8) {
        SecureBootState::Enabled
    } else if first_byte(secure_boot) == Some(0u8) {
        SecureBootState::Disabled
    } else {
        SecureBootState::Unknown
    }
}

/// The view of an optional byte slice.
pub open spec fn bytes_opt(v: Option<&[u8]>) -> Option<Seq<u8>> {
    match v {
        Some(b) => Some(b@),
        None => None,
    }
}

fn first_of(v: Option<&[u8]>) -> (r: Option<u8>)
    ensures
        r == first_byte(bytes_opt(v)),
{
    match v {
        Some(b) => if b.len() > 0 {
            Some(b[0])
        } else {
            None
        },
        None => None,
    }
}

impl SecureBootState {
    /// Decode the raw `SecureBoot` and (optional) `SetupMode` variables.
    /// Total.
    pub fn from_vars(secure_boot: Option<&[u8]>, setup_mode: Option<&[u8]>) -> (r: SecureBootState)
        ensures
            r == state_of(bytes_opt(secure_boot), bytes_opt(setup_mode)),
    {
        let sb = first_of(secure_boot);
        let sm = first_of(setup_mode);
        match (sb, sm) {
            (_, Some(1)) => SecureBootState::SetupMode,
            (Some(1), _) => SecureBootState::Enabled,
            (Some(0), _) => SecureBootState::Disabled,
            _ => SecureBootState::Unknown,
        }
    }

    /// Whether signatures are being enforced.
    pub fn is_enforcing(self) -> (r: bool)
        ensures
            r == (self == SecureBootState::Enabled),
    {
        matches!(self, SecureBootState::Enabled)
    }
}

} // verus!
