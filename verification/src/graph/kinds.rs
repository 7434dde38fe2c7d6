//! What an entry is (its OS family and role) and how it boots. The slugs feed
//! the stable entry id and are fixed per variant.
use vstd::prelude::*;
use crate::text::{dec, extend_str, push_dec, chars_of_string, extend_chars};

verus! {

/// Operating-system family.
#[derive(Clone, Copy, PartialEq, Eq, Debug, Structural)]
pub enum OsKind {
    Windows,
    Linux,
    NixOs,
    Bsd,
    GenericEfi,
    Recovery,
}

/// The slug of each OS family, as it appears at the head of an entry id.
pub open spec fn kind_slug(k: OsKind) -> Seq<char> {
    match k {
        OsKind::Windows => "windows"@,
        OsKind::Linux => "linux"@,
        OsKind::NixOs => "nixos"@,
        OsKind::Bsd => "bsd"@,
        OsKind::GenericEfi => "efi"@,
        OsKind::Recovery => "recovery"@,
    }
}

impl OsKind {
    /// The id slug of this OS family.
    pub fn slug(self) -> (r: &'static str)
        ensures
            r@ == kind_slug(self),
    {
        match self {
            OsKind::Windows => "windows",
            OsKind::Linux => "linux",
            OsKind::NixOs => "nixos",
            OsKind::Bsd => "bsd",
            OsKind::GenericEfi => "efi",
            OsKind::Recovery => "recovery",
        }
    }
}

/// The role of an entry within its OS.
#[derive(Clone, PartialEq, Eq, Debug)]
pub enum EntryRole {
    Default,
    Generation(u32),
    Specialisation { parent: u32, name: String },
    Kernel(String),
    Recovery,
    Fallback,
}

/// The mathematical value of an [`EntryRole`].
pub enum RoleV {
    Default,
    Generation(u32),
    Specialisation { parent: u32, name: Seq<char> },
    Kernel(Seq<char>),
    Recovery,
    Fallback,
}

impl View for EntryRole {
    type V = RoleV;

    open spec fn view(&self) -> RoleV {
        match self {
            EntryRole::Default => RoleV::Default,
            EntryRole::Generation(g) => RoleV::Generation(*g),
            EntryRole::Specialisation { parent, name } => RoleV::Specialisation {
                parent: *parent,
                name: name@,
            },
            EntryRole::Kernel(k) => RoleV::Kernel(k@),
            EntryRole::Recovery => RoleV::Recovery,
            EntryRole::Fallback => RoleV::Fallback,
        }
    }
}

/// The id slug of a role: `default`, `gen<N>`, `gen<P>.<name>`, `kernel.<k>`,
/// `recovery`, `fallback`.
pub open spec fn role_slug(r: RoleV) -> Seq<char> {
    match r {
        RoleV::Default => "default"@,
        RoleV::Generation(g) => "gen"@ + dec(g as nat),
        RoleV::Specialisation { parent, name } => "gen"@ + dec(parent as nat) + "."@ + name,
        RoleV::Kernel(k) => "kernel."@ + k,
        RoleV::Recovery => "recovery"@,
        RoleV::Fallback => "fallback"@,
    }
}

/// Canonical sort key: lower sorts first (current generation before older).
pub open spec fn role_order_key(r: RoleV) -> (u8, int) {
    match r {
        RoleV::Default => (0, 0),
        RoleV::Generation(g) => (1, -(g as int)),
        RoleV::Specialisation { parent, .. } => (2, -(parent as int)),
        RoleV::Kernel(_) => (3, 0),
        RoleV::Recovery => (4, 0),
        RoleV::Fallback => (5, 0),
    }
}

impl EntryRole {
    /// A copy of this role.
    pub fn duplicate(&self) -> (r: EntryRole)
        ensures
            r@ == self@,
    {
        match self {
            EntryRole::Default => EntryRole::Default,
            EntryRole::Generation(g) => EntryRole::Generation(*g),
            EntryRole::Specialisation { parent, name } => EntryRole::Specialisation {
                parent: *parent,
                name: name.clone(),
            },
            EntryRole::Kernel(k) => EntryRole::Kernel(k.clone()),
            EntryRole::Recovery => EntryRole::Recovery,
            EntryRole::Fallback => EntryRole::Fallback,
        }
    }

    /// Append this role's id slug.
    pub(crate) fn write_slug(&self, s: &mut Vec<char>)
        ensures
            final(s)@ == old(s)@ + role_slug(self@),
    {
        proof {
            reveal_strlit("default");
            reveal_strlit("gen");
            reveal_strlit(".");
            reveal_strlit("kernel.");
            reveal_strlit("recovery");
            reveal_strlit("fallback");
        }
        match self {
            EntryRole::Default => {
                extend_str(s, "default");
            },
            EntryRole::Generation(g) => {
                extend_str(s, "gen");
                push_dec(s, *g as u64);
                assert(final(s)@ =~= old(s)@ + role_slug(self@)) by {
                }
            },
            EntryRole::Specialisation { parent, name } => {
                extend_str(s, "gen");
                push_dec(s, *parent as u64);
                s.push('.');
                let n = chars_of_string(name);
                extend_chars(s, &n);
                assert(s@ =~= old(s)@ + role_slug(self@));
            },
            EntryRole::Kernel(k) => {
                extend_str(s, "kernel.");
                let n = chars_of_string(k);
                extend_chars(s, &n);
                assert(s@ =~= old(s)@ + role_slug(self@));
            },
            EntryRole::Recovery => {
                extend_str(s, "recovery");
            },
            EntryRole::Fallback => {
                extend_str(s, "fallback");
            },
        }
    }

    /// Canonical sort key (see [`role_order_key`]).
    pub(crate) fn order_key(&self) -> (r: (u8, i64))
        ensures
            r.0 == role_order_key(self@).0,
            r.1 as int == role_order_key(self@).1,
    {
        match self {
            EntryRole::Default => (0, 0),
            EntryRole::Generation(g) => (1, -(*g as i64)),
            EntryRole::Specialisation { parent, .. } => (2, -(*parent as i64)),
            EntryRole::Kernel(_) => (3, 0),
            EntryRole::Recovery => (4, 0),
            EntryRole::Fallback => (5, 0),
        }
    }
}

/// How an entry is launched.
#[derive(Clone, Copy, PartialEq, Eq, Debug, Structural)]
pub enum BootMethod {
    WindowsBootManager,
    LinuxEfiStub,
    LinuxDirect,
    NixGeneration,
    EfiChainload,
}

} // verus!
