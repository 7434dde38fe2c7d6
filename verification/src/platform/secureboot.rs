//! Read the platform's Secure Boot posture from firmware variables.
use vstd::prelude::*;
use crate::ports::{VarStore, VarNamespace};

verus! {

/// What reading variable `name` of the global namespace may give: its
/// value when read, nothing when it is absent.
pub open spec fn read_global(m: Map<Seq<char>, Seq<u8>>, name: Seq<char>, r: Option<Vec<u8>>) -> bool {
    &&& r matches Some(b) ==> m.contains_key(name) && m[name] == b@
    &&& !m.contains_key(name) ==> r is None
}

/// Query `SecureBoot` and `SetupMode` (global namespace) and return their
/// raw bytes, for [`SecureBootState::from_vars`](crate::security::SecureBootState::from_vars).
pub fn read_secure_boot<V: VarStore>(vars: &V) -> (r: (Option<Vec<u8>>, Option<Vec<u8>>))
    ensures
        vars.modelled() ==> (read_global(vars.vars(VarNamespace::Global), "SecureBoot"@, r.0)),
        vars.modelled() ==> (read_global(vars.vars(VarNamespace::Global), "SetupMode"@, r.1)),
        vars.modelled() ==> (vars.never_fails() && vars.vars(VarNamespace::Global).contains_key("SecureBoot"@) ==> r.0 is Some),
        vars.modelled() ==> (vars.never_fails() && vars.vars(VarNamespace::Global).contains_key("SetupMode"@) ==> r.1 is Some),
{
    let sb = match vars.get(VarNamespace::Global, "SecureBoot") {
        Ok(b) => Some(b),
        Err(_) => None,
    };
    let sm = match vars.get(VarNamespace::Global, "SetupMode") {
        Ok(b) => Some(b),
        Err(_) => None,
    };
    (sb, sm)
}

} // verus!
