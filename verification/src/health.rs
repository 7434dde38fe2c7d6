//! Validation and health scoring for Boot Graph entries: turns "an entry
//! exists" into "an entry is Healthy / Degraded / Unbootable, and here is
//! why", which the policy engine and the menus then consume. Whether the
//! files an entry needs exist is asked of the [`FileStore`] port.
use vstd::prelude::*;
use crate::ports::FileStore;
use crate::graph::{BootGraph, BootEntry, Health, Reason, BootResult};
use crate::graph::entry::BootEntryV;
use crate::graph::health::HealthV;
use crate::graph::tree::{OsNode, DiskNode, os_entries, disk_entries};
use crate::text::concat;

verus! {

/// The health an entry has on a volume holding `files`:
///   * a loader or kernel it names that is missing makes it Unbootable;
///   * a missing initrd makes it Degraded (it stays a warned option);
///   * a last recorded failure makes it Degraded;
///   * otherwise it is Healthy.
pub open spec fn assessed(e: BootEntryV, files: Map<Seq<char>, Seq<u8>>) -> HealthV {
    if e.loader is Some && !files.contains_key(e.loader->0) {
        HealthV::Unbootable("loader missing: "@ + e.loader->0)
    } else if e.kernel is Some && !files.contains_key(e.kernel->0) {
        HealthV::Unbootable("kernel missing: "@ + e.kernel->0)
    } else if e.initrd is Some && !files.contains_key(e.initrd->0) {
        HealthV::Degraded("initrd missing: "@ + e.initrd->0)
    } else if e.last_result == Some(BootResult::Failed) {
        HealthV::Degraded("previous boot did not confirm"@)
    } else {
        HealthV::Healthy
    }
}

/// Assess a single entry against the files of its volume.
pub fn assess_entry<F: FileStore>(entry: &BootEntry, fs: &F) -> (h: Health)
    ensures
        fs.modelled() ==> (h@ == assessed(entry@, fs.files())),
{
    if let Some(p) = &entry.loader {
        if !fs.path_exists(p.0.as_str()) {
            return Health::Unbootable(Reason(concat("loader missing: ", p.0.as_str())));
        }
    }
    if let Some(p) = &entry.kernel {
        if !fs.path_exists(p.0.as_str()) {
            return Health::Unbootable(Reason(concat("kernel missing: ", p.0.as_str())));
        }
    }
    if let Some(p) = &entry.initrd {
        if !fs.path_exists(p.0.as_str()) {
            return Health::Degraded(Reason(concat("initrd missing: ", p.0.as_str())));
        }
    }
    match entry.last_result {
        Some(BootResult::Failed) => Health::Degraded(Reason::new("previous boot did not confirm")),
        _ => Health::Healthy,
    }
}

/// `e` with its health replaced by `h`.
pub open spec fn with_health(e: BootEntryV, h: HealthV) -> BootEntryV {
    BootEntryV { health: h, ..e }
}

/// `b` is the run `a` with each entry's health assessed on `files`; every
/// other field of every entry is kept.
pub open spec fn entries_assessed(a: Seq<BootEntry>, b: Seq<BootEntry>, files: Map<Seq<char>, Seq<u8>>) -> bool {
    &&& b.len() == a.len()
    &&& forall|k: int|
        0 <= k < a.len() ==> (#[trigger] b[k])@ == with_health(a[k]@, assessed(a[k]@, files))
}

/// `b` is the OS node `a` with its entries assessed.
pub open spec fn os_assessed(a: OsNode, b: OsNode, files: Map<Seq<char>, Seq<u8>>) -> bool {
    &&& b.kind == a.kind
    &&& b.name == a.name
    &&& entries_assessed(a.entries@, b.entries@, files)
}

/// `b` is the disk `a` with the entries of all its OS nodes assessed.
pub open spec fn disk_assessed(a: DiskNode, b: DiskNode, files: Map<Seq<char>, Seq<u8>>) -> bool {
    &&& b.id == a.id
    &&& b.label == a.label
    &&& b.systems@.len() == a.systems@.len()
    &&& forall|o: int|
        0 <= o < a.systems@.len() ==> os_assessed(a.systems@[o], #[trigger] b.systems@[o], files)
}

/// The disks `b` are the disks `a` with every entry assessed: the same
/// disks, OS nodes and entries in the same order, only the health changed.
pub open spec fn graph_assessed(a: Seq<DiskNode>, b: Seq<DiskNode>, files: Map<Seq<char>, Seq<u8>>) -> bool {
    &&& b.len() == a.len()
    &&& forall|d: int| 0 <= d < a.len() ==> disk_assessed(a[d], #[trigger] b[d], files)
}

proof fn lemma_entries_assessed_concat(
    a1: Seq<BootEntry>,
    b1: Seq<BootEntry>,
    a2: Seq<BootEntry>,
    b2: Seq<BootEntry>,
    files: Map<Seq<char>, Seq<u8>>,
)
    requires
        entries_assessed(a1, b1, files),
        entries_assessed(a2, b2, files),
    ensures
        entries_assessed(a1 + a2, b1 + b2, files),
{
    assert forall|k: int| 0 <= k < (a1 + a2).len() implies (#[trigger] (b1 + b2)[k])@ == with_health(
        (a1 + a2)[k]@,
        assessed((a1 + a2)[k]@, files),
    ) by {
        if k < a1.len() {
            assert((b1 + b2)[k] == b1[k]);
            assert((a1 + a2)[k] == a1[k]);
        } else {
            assert((b1 + b2)[k] == b2[k - a1.len()]);
            assert((a1 + a2)[k] == a2[k - a1.len()]);
        }
    }
}

proof fn lemma_os_entries_assessed(sa: Seq<OsNode>, sb: Seq<OsNode>, files: Map<Seq<char>, Seq<u8>>)
    requires
        sb.len() == sa.len(),
        forall|o: int| 0 <= o < sa.len() ==> os_assessed(sa[o], #[trigger] sb[o], files),
    ensures
        entries_assessed(os_entries(sa), os_entries(sb), files),
    decreases sa.len(),
{
    if sa.len() > 0 {
        lemma_os_entries_assessed(sa.drop_last(), sb.drop_last(), files);
        assert(os_assessed(sa.last(), sb.last(), files));
        lemma_entries_assessed_concat(
            os_entries(sa.drop_last()),
            os_entries(sb.drop_last()),
            sa.last().entries@,
            sb.last().entries@,
            files,
        );
    }
}

proof fn lemma_disk_entries_assessed(da: Seq<DiskNode>, db: Seq<DiskNode>, files: Map<Seq<char>, Seq<u8>>)
    requires
        graph_assessed(da, db, files),
    ensures
        entries_assessed(disk_entries(da), disk_entries(db), files),
    decreases da.len(),
{
    if da.len() > 0 {
        assert(graph_assessed(da.drop_last(), db.drop_last(), files));
        lemma_disk_entries_assessed(da.drop_last(), db.drop_last(), files);
        let a = da.last();
        let b = db.last();
        assert(disk_assessed(a, b, files));
        lemma_os_entries_assessed(a.systems@, b.systems@, files);
        lemma_entries_assessed_concat(
            disk_entries(da.drop_last()),
            disk_entries(db.drop_last()),
            os_entries(a.systems@),
            os_entries(b.systems@),
            files,
        );
    }
}

/// The entries with their health assessed.
fn assess_entries<F: FileStore>(v: Vec<BootEntry>, fs: &F) -> (r: Vec<BootEntry>)
    ensures
        fs.modelled() ==> (entries_assessed(v@, r@, fs.files())),
{
    let ghost orig = v@;
    let mut rest = v;
    let mut out: Vec<BootEntry> = Vec::new();
    let n = rest.len();
    let mut i: usize = 0;
    while i < n
        invariant
            n == orig.len(),
            i <= n,
            rest@ == orig.skip(i as int),
            out@.len() == i,
            fs.modelled() ==> entries_assessed(orig.take(i as int), out@, fs.files()),
        decreases n - i,
    {
        let mut e = rest.remove(0);
        assert(e == orig[i as int]);
        let h = assess_entry(&e, fs);
        e.health = h;
        let ghost before = out@;
        out.push(e);
        proof {
            if fs.modelled() {
                assert forall|k: int| 0 <= k < i + 1 implies (#[trigger] out@[k])@ == with_health(
                    orig.take(i + 1)[k]@,
                    assessed(orig.take(i + 1)[k]@, fs.files()),
                ) by {
                    if k < i {
                        assert(out@[k] == before[k]);
                        assert(orig.take(i + 1)[k] == orig.take(i as int)[k]);
                    }
                }
            }
        }
        i = i + 1;
        assert(rest@ =~= orig.skip(i as int));
    }
    assert(orig.take(n as int) == orig);
    out
}

/// The disk with the entries of all its OS nodes assessed.
fn assess_disk<F: FileStore>(disk: DiskNode, fs: &F) -> (r: DiskNode)
    ensures
        fs.modelled() ==> (disk_assessed(disk, r, fs.files())),
{
    let DiskNode { id, label, systems } = disk;
    let ghost orig = systems@;
    let mut rest = systems;
    let mut out: Vec<OsNode> = Vec::new();
    let n = rest.len();
    let mut i: usize = 0;
    while i < n
        invariant
            n == orig.len(),
            i <= n,
            rest@ == orig.skip(i as int),
            out@.len() == i,
            fs.modelled() ==> forall|o: int| 0 <= o < i ==> os_assessed(orig[o], #[trigger] out@[o], fs.files()),
        decreases n - i,
    {
        let os = rest.remove(0);
        assert(os == orig[i as int]);
        let OsNode { kind, name, entries } = os;
        let assessed_entries = assess_entries(entries, fs);
        out.push(OsNode { kind, name, entries: assessed_entries });
        i = i + 1;
        assert(rest@ =~= orig.skip(i as int));
    }
    DiskNode { id, label, systems: out }
}

/// Assess every entry of the graph and write the result into it, in place:
/// each entry gets the health [`assessed`] gives for it on the volume's
/// files; the disks, OS nodes and entries, their order and every other
/// field stay as they were.
pub fn assess_all<F: FileStore>(graph: &mut BootGraph, fs: &F)
    ensures
        fs.modelled() ==> (graph_assessed(old(graph).disks@, final(graph).disks@, fs.files())),
        fs.modelled() ==> (entries_assessed(old(graph).flat(), final(graph).flat(), fs.files())),
{
    let mut rest: Vec<DiskNode> = Vec::new();
    core::mem::swap(&mut rest, &mut graph.disks);
    let ghost orig = rest@;
    let n = rest.len();
    let mut i: usize = 0;
    while i < n
        invariant
            n == orig.len(),
            i <= n,
            orig == old(graph).disks@,
            rest@ == orig.skip(i as int),
            graph.disks@.len() == i,
            fs.modelled() ==> forall|d: int| 0 <= d < i ==> disk_assessed(orig[d], #[trigger] graph.disks@[d], fs.files()),
        decreases n - i,
    {
        let d = rest.remove(0);
        assert(d == orig[i as int]);
        let ad = assess_disk(d, fs);
        graph.disks.push(ad);
        i = i + 1;
        assert(rest@ =~= orig.skip(i as int));
    }
    proof {
        if fs.modelled() {
            lemma_disk_entries_assessed(orig, graph.disks@, fs.files());
        }
    }
}

} // verus!
