//! A single bootable target — the leaf of the Boot Graph.
use vstd::prelude::*;
use crate::graph::ids::{EntryId, derive_text, derive_scoped_text};
use crate::graph::kinds::{OsKind, EntryRole, BootMethod, RoleV};
use crate::graph::health::{Health, HealthV, BootResult, spec_bootable};

verus! {

/// Filesystem path to an EFI file, e.g. `\EFI\Microsoft\Boot\bootmgfw.efi`.
#[derive(Clone, PartialEq, Eq, Debug)]
pub struct EfiPath(pub String);

impl EfiPath {
    /// A copy of this path.
    pub fn duplicate(&self) -> (r: EfiPath)
        ensures
            r.0@ == self.0@,
    {
        EfiPath(self.0.clone())
    }
}

/// The text of an optional path.
pub open spec fn path_text(p: Option<EfiPath>) -> Option<Seq<char>> {
    match p {
        Some(x) => Some(x.0@),
        None => None,
    }
}

/// The text of an optional string.
pub open spec fn opt_text(s: Option<String>) -> Option<Seq<char>> {
    match s {
        Some(x) => Some(x@),
        None => None,
    }
}

/// A single bootable target.
#[derive(Clone, Debug)]
pub struct BootEntry {
    pub id: EntryId,
    pub title: String,
    pub role: EntryRole,
    pub method: BootMethod,
    pub loader: Option<EfiPath>,
    pub kernel: Option<EfiPath>,
    pub initrd: Option<EfiPath>,
    pub cmdline: Option<String>,
    /// Opaque id of the volume this entry was discovered on. `None` for
    /// firmware-variable entries with no volume.
    pub volume: Option<String>,
    pub health: Health,
    pub last_result: Option<BootResult>,
}

/// The mathematical value of a [`BootEntry`].
pub struct BootEntryV {
    pub id: Seq<char>,
    pub title: Seq<char>,
    pub role: RoleV,
    pub method: BootMethod,
    pub loader: Option<Seq<char>>,
    pub kernel: Option<Seq<char>>,
    pub initrd: Option<Seq<char>>,
    pub cmdline: Option<Seq<char>>,
    pub volume: Option<Seq<char>>,
    pub health: HealthV,
    pub last_result: Option<BootResult>,
}

impl View for BootEntry {
    type V = BootEntryV;

    open spec fn view(&self) -> BootEntryV {
        BootEntryV {
            id: self.id@,
            title: self.title@,
            role: self.role@,
            method: self.method,
            loader: path_text(self.loader),
            kernel: path_text(self.kernel),
            initrd: path_text(self.initrd),
            cmdline: opt_text(self.cmdline),
            volume: opt_text(self.volume),
            health: self.health@,
            last_result: self.last_result,
        }
    }
}

impl BootEntry {
    /// Construct an entry, deriving the stable id from its durable attributes.
    pub fn new(kind: OsKind, title: &str, role: EntryRole, method: BootMethod) -> (r: BootEntry)
        ensures
            r@ == (BootEntryV {
                id: derive_text(kind, role@, None),
                title: title@,
                role: role@,
                method,
                loader: None,
                kernel: None,
                initrd: None,
                cmdline: None,
                volume: None,
                health: HealthV::Unknown,
                last_result: None,
            }),
    {
        let id = EntryId::derive(kind, &role, None);
        BootEntry {
            id,
            title: title.to_owned(),
            role,
            method,
            loader: None,
            kernel: None,
            initrd: None,
            cmdline: None,
            volume: None,
            health: Health::Unknown,
            last_result: None,
        }
    }

    /// Recompute the stable id from the current durable attributes, including
    /// the volume.
    pub fn rederive_id(&mut self, kind: OsKind)
        ensures
            final(self)@ == (BootEntryV {
                id: derive_scoped_text(kind, old(self).role@, old(self)@.loader, old(self)@.volume),
                ..old(self)@
            }),
    {
        let loader: Option<&str> = match &self.loader {
            Some(p) => Some(p.0.as_str()),
            None => None,
        };
        let volume: Option<&str> = match &self.volume {
            Some(v) => Some(v.as_str()),
            None => None,
        };
        let id = EntryId::derive_scoped(kind, &self.role, loader, volume);
        self.id = id;
    }

    /// Attach a loader path and re-derive the id to include it.
    pub fn with_loader(self, kind: OsKind, p: EfiPath) -> (r: BootEntry)
        ensures
            r@ == (BootEntryV {
                id: derive_text(kind, self.role@, Some(p.0@)),
                loader: Some(p.0@),
                ..self@
            }),
    {
        let mut e = self;
        e.id = EntryId::derive(kind, &e.role, Some(p.0.as_str()));
        e.loader = Some(p);
        e
    }

    /// Is this entry a boot candidate (health permitting)?
    pub fn bootable(&self) -> (r: bool)
        ensures
            r == spec_bootable(self.health@),
    {
        self.health.is_bootable()
    }
}

} // verus!
