//! Discovery: reduce disks, firmware variables, loader entries and NixOS
//! generations to one uniform Boot Graph. Each source turns one kind of
//! evidence into raw entries; `build` merges them, de-duplicates them by
//! stable id and groups them into the graph.
use vstd::prelude::*;
use crate::graph::kinds::{OsKind, EntryRole, BootMethod, RoleV};

pub mod json;
pub mod variables;
pub mod esp;
pub mod distros;
pub mod bls;
pub mod bootspec;
pub mod pe;
pub mod refine;
pub mod assemble;
pub mod scan;
pub mod laws;

pub use assemble::build_graph;
pub use scan::{discover, scan_volume, discover_multi};

verus! {

/// A source-agnostic description of one bootable thing.
#[derive(Clone, Debug, PartialEq, Eq)]
pub struct RawEntry {
    pub kind: OsKind,
    pub os_name: String,
    pub title: String,
    pub role: EntryRole,
    pub method: BootMethod,
    pub loader: Option<String>,
    pub kernel: Option<String>,
    pub initrd: Option<String>,
    pub cmdline: Option<String>,
    /// Opaque id of the volume this entry came from; filesystem sources leave
    /// it `None` and per-volume scanning tags it.
    pub volume: Option<String>,
}

pub struct RawEntryV {
    pub kind: OsKind,
    pub os_name: Seq<char>,
    pub title: Seq<char>,
    pub role: RoleV,
    pub method: BootMethod,
    pub loader: Option<Seq<char>>,
    pub kernel: Option<Seq<char>>,
    pub initrd: Option<Seq<char>>,
    pub cmdline: Option<Seq<char>>,
    pub volume: Option<Seq<char>>,
}

pub open spec fn ostr(o: Option<String>) -> Option<Seq<char>> {
    match o {
        Some(s) => Some(s@),
        None => None,
    }
}

impl View for RawEntry {
    type V = RawEntryV;

    open spec fn view(&self) -> RawEntryV {
        RawEntryV {
            kind: self.kind,
            os_name: self.os_name@,
            title: self.title@,
            role: self.role@,
            method: self.method,
            loader: ostr(self.loader),
            kernel: ostr(self.kernel),
            initrd: ostr(self.initrd),
            cmdline: ostr(self.cmdline),
            volume: ostr(self.volume),
        }
    }
}

/// A raw entry with only its identity and title.
pub open spec fn raw_new(kind: OsKind, os_name: Seq<char>, title: Seq<char>, role: RoleV, method: BootMethod) -> RawEntryV {
    RawEntryV {
        kind,
        os_name,
        title,
        role,
        method,
        loader: None,
        kernel: None,
        initrd: None,
        cmdline: None,
        volume: None,
    }
}

pub open spec fn raws_view(s: Seq<RawEntry>) -> Seq<RawEntryV> {
    s.map_values(|r: RawEntry| r@)
}

impl RawEntry {
    pub fn new(kind: OsKind, os_name: &str, title: &str, role: EntryRole, method: BootMethod) -> (r: RawEntry)
        ensures
            r@ == raw_new(kind, os_name@, title@, role@, method),
    {
        RawEntry {
            kind,
            os_name: os_name.to_owned(),
            title: title.to_owned(),
            role,
            method,
            loader: None,
            kernel: None,
            initrd: None,
            cmdline: None,
            volume: None,
        }
    }
}

/// Append `b` to `a`.
pub fn extend_raws(a: &mut Vec<RawEntry>, b: Vec<RawEntry>)
    ensures
        raws_view(final(a)@) == raws_view(old(a)@) + raws_view(b@),
{
    let mut rest = b;
    let ghost orig = rest@;
    let mut i: usize = 0;
    let n = rest.len();
    while i < n
        invariant
            n == orig.len(),
            i <= n,
            rest@ == orig.skip(i as int),
            raws_view(a@) == raws_view(old(a)@) + raws_view(orig.take(i as int)),
        decreases n - i,
    {
        let x = rest.remove(0);
        assert(x == orig[i as int]);
        let ghost before = a@;
        a.push(x);
        assert(raws_view(a@) =~= raws_view(before).push(x@));
        assert(orig.take(i + 1) == orig.take(i as int).push(x));
        assert(raws_view(orig.take(i + 1)) =~= raws_view(orig.take(i as int)).push(x@));
        i = i + 1;
        assert(rest@ =~= orig.skip(i as int));
        assert(raws_view(a@) =~= raws_view(old(a)@) + raws_view(orig.take(i as int)));
    }
    assert(orig.take(n as int) == orig);
}

} // verus!
