//! The Boot Graph container: disks → operating systems → entries.
use vstd::prelude::*;
use crate::text::{chars_of_string, text_lt, text_lt_exec};
use crate::graph::ids::{EntryId, DiskId};
use crate::graph::kinds::{OsKind, role_order_key};
use crate::graph::entry::BootEntry;
use crate::graph::health::spec_bootable;

verus! {

/// An operating system installed on a disk, grouping its entries.
#[derive(Clone, Debug)]
pub struct OsNode {
    pub kind: OsKind,
    pub name: String,
    pub entries: Vec<BootEntry>,
}

impl OsNode {
    pub fn new(kind: OsKind, name: &str) -> (r: OsNode)
        ensures
            r.kind == kind,
            r.name@ == name@,
            r.entries@.len() == 0,
    {
        OsNode { kind, name: name.to_owned(), entries: Vec::new() }
    }

    pub fn push(&mut self, e: BootEntry)
        ensures
            final(self).kind == old(self).kind,
            final(self).name == old(self).name,
            final(self).entries@ == old(self).entries@.push(e),
    {
        self.entries.push(e);
    }
}

/// A physical disk holding one or more operating systems.
#[derive(Clone, Debug)]
pub struct DiskNode {
    pub id: DiskId,
    pub label: String,
    pub systems: Vec<OsNode>,
}

/// The Boot Graph: disks → OS → entries.
#[derive(Clone, Debug, Default)]
pub struct BootGraph {
    pub disks: Vec<DiskNode>,
}

/// The entries of a run of OS nodes, in traversal order.
pub open spec fn os_entries(sys: Seq<OsNode>) -> Seq<BootEntry>
    decreases sys.len(),
{
    if sys.len() == 0 {
        seq![]
    } else {
        os_entries(sys.drop_last()) + sys.last().entries@
    }
}

/// The entries of a run of disks, in traversal order.
pub open spec fn disk_entries(disks: Seq<DiskNode>) -> Seq<BootEntry>
    decreases disks.len(),
{
    if disks.len() == 0 {
        seq![]
    } else {
        disk_entries(disks.drop_last()) + os_entries(disks.last().systems@)
    }
}

/// Position of the first entry whose id is `id`.
pub open spec fn first_with_id(s: Seq<BootEntry>, id: Seq<char>) -> Option<int>
    decreases s.len(),
{
    if s.len() == 0 {
        None
    } else if s[0].id@ == id {
        Some(0)
    } else {
        match first_with_id(s.drop_first(), id) {
            Some(i) => Some(i + 1),
            None => None,
        }
    }
}

/// The entries that are boot candidates, in order.
pub open spec fn bootable_entries(s: Seq<BootEntry>) -> Seq<BootEntry>
    decreases s.len(),
{
    if s.len() == 0 {
        seq![]
    } else if spec_bootable(s.last().health@) {
        bootable_entries(s.drop_last()).push(s.last())
    } else {
        bootable_entries(s.drop_last())
    }
}

/// `s` restricted to the positions where `keep` is true.
pub open spec fn select(s: Seq<BootEntry>, keep: Seq<bool>) -> Seq<BootEntry>
    decreases s.len(),
{
    if s.len() == 0 || keep.len() == 0 {
        seq![]
    } else if keep.last() {
        select(s.drop_last(), keep.drop_last()).push(s.last())
    } else {
        select(s.drop_last(), keep.drop_last())
    }
}

/// The canonical order: by role key, then by title.
pub open spec fn entry_lt(a: BootEntry, b: BootEntry) -> bool {
    let ka = role_order_key(a.role@);
    let kb = role_order_key(b.role@);
    ||| ka.0 < kb.0
    ||| ka.0 == kb.0 && ka.1 < kb.1
    ||| ka.0 == kb.0 && ka.1 == kb.1 && text_lt(a.title@, b.title@)
}

/// Where a stable insertion puts `x` into sorted `s`: before the first
/// element that `x` orders strictly before.
pub open spec fn insert_pos(s: Seq<BootEntry>, x: BootEntry) -> int
    decreases s.len(),
{
    if s.len() == 0 {
        0
    } else if entry_lt(x, s[0]) {
        0
    } else {
        1 + insert_pos(s.drop_first(), x)
    }
}

/// Stable sort in canonical order (what `sort_by` with the canonical
/// comparator produces).
pub open spec fn canonical_sort(s: Seq<BootEntry>) -> Seq<BootEntry>
    decreases s.len(),
{
    if s.len() == 0 {
        seq![]
    } else {
        let t = canonical_sort(s.drop_last());
        t.insert(insert_pos(t, s.last()), s.last())
    }
}

pub proof fn lemma_first_with_id(s: Seq<BootEntry>, id: Seq<char>)
    ensures
        match first_with_id(s, id) {
            Some(i) => 0 <= i < s.len() && s[i].id@ == id && forall|k: int|
                0 <= k < i ==> s[k].id@ != id,
            None => forall|k: int| 0 <= k < s.len() ==> s[k].id@ != id,
        },
    decreases s.len(),
{
    if s.len() > 0 {
        lemma_first_with_id(s.drop_first(), id);
        if s[0].id@ != id {
            assert forall|k: int| 1 <= k < s.len() implies s[k] == s.drop_first()[k - 1] by {}
        }
    }
}

pub proof fn lemma_first_with_id_at(s: Seq<BootEntry>, id: Seq<char>, i: int)
    requires
        0 <= i < s.len(),
        s[i].id@ == id,
        forall|k: int| 0 <= k < i ==> s[k].id@ != id,
    ensures
        first_with_id(s, id) == Some(i),
{
    lemma_first_with_id(s, id);
    match first_with_id(s, id) {
        Some(j) => {
            if j < i {
                assert(s[j].id@ != id);
            }
        },
        None => {
            assert(s[i].id@ != id);
        },
    }
}

proof fn lemma_select_append(a: Seq<BootEntry>, fa: Seq<bool>, b: Seq<BootEntry>, fb: Seq<bool>)
    requires
        a.len() == fa.len(),
        b.len() == fb.len(),
    ensures
        select(a + b, fa + fb) == select(a, fa) + select(b, fb),
    decreases b.len(),
{
    if b.len() == 0 {
        assert(a + b == a);
        assert(fa + fb == fa);
    } else {
        lemma_select_append(a, fa, b.drop_last(), fb.drop_last());
        assert((a + b).drop_last() == a + b.drop_last());
        assert((fa + fb).drop_last() == fa + fb.drop_last());
    }
}


/// Position in the flattened graph of entry `k` of system `o` of disk `d`.
pub open spec fn flat_pos(disks: Seq<DiskNode>, d: int, o: int, k: int) -> int {
    disk_entries(disks.take(d)).len() + os_entries(disks[d].systems@.take(o)).len() + k
}

proof fn lemma_os_entries_take(sys: Seq<OsNode>, o: int)
    requires
        0 <= o < sys.len(),
    ensures
        os_entries(sys) == os_entries(sys.take(o)) + sys[o].entries@ + os_entries(sys.skip(o + 1)),
    decreases sys.len(),
{
    if o == sys.len() - 1 {
        assert(sys.take(o) == sys.drop_last());
        assert(sys.skip(o + 1) =~= Seq::<OsNode>::empty());
    } else {
        lemma_os_entries_take(sys.drop_last(), o);
        assert(sys.drop_last().take(o) == sys.take(o));
        assert(sys.skip(o + 1).drop_last() == sys.drop_last().skip(o + 1));
        assert(sys.skip(o + 1).last() == sys.last());
    }
}

proof fn lemma_disk_entries_take(disks: Seq<DiskNode>, d: int)
    requires
        0 <= d < disks.len(),
    ensures
        disk_entries(disks) == disk_entries(disks.take(d)) + os_entries(disks[d].systems@)
            + disk_entries(disks.skip(d + 1)),
    decreases disks.len(),
{
    if d == disks.len() - 1 {
        assert(disks.take(d) == disks.drop_last());
        assert(disks.skip(d + 1) =~= Seq::<DiskNode>::empty());
    } else {
        lemma_disk_entries_take(disks.drop_last(), d);
        assert(disks.drop_last().take(d) == disks.take(d));
        assert(disks.skip(d + 1).drop_last() == disks.drop_last().skip(d + 1));
        assert(disks.skip(d + 1).last() == disks.last());
    }
}

proof fn lemma_flat_pos(disks: Seq<DiskNode>, d: int, o: int, k: int)
    requires
        0 <= d < disks.len(),
        0 <= o < disks[d].systems@.len(),
        0 <= k < disks[d].systems@[o].entries@.len(),
    ensures
        0 <= flat_pos(disks, d, o, k) < disk_entries(disks).len(),
        disk_entries(disks)[flat_pos(disks, d, o, k)] == disks[d].systems@[o].entries@[k],
        disk_entries(disks).take(flat_pos(disks, d, o, k)) == disk_entries(disks.take(d))
            + os_entries(disks[d].systems@.take(o)) + disks[d].systems@[o].entries@.take(k),
{
    lemma_disk_entries_take(disks, d);
    lemma_os_entries_take(disks[d].systems@, o);
    let a = disk_entries(disks.take(d));
    let b = os_entries(disks[d].systems@.take(o));
    let e = disks[d].systems@[o].entries@;
    let c = os_entries(disks[d].systems@.skip(o + 1));
    let z = disk_entries(disks.skip(d + 1));
    assert(disk_entries(disks) == a + (b + e + c) + z);
    assert(disk_entries(disks)[a.len() + b.len() + k] == e[k]);
    assert(disk_entries(disks).take(a.len() + b.len() + k) =~= a + b + e.take(k));
}

broadcast proof fn lemma_flat_update(
    old_disks: Seq<DiskNode>,
    new_disks: Seq<DiskNode>,
    d: int,
    o: int,
    k: int,
)
    requires
        0 <= d < old_disks.len(),
        0 <= o < old_disks[d].systems@.len(),
        0 <= k < old_disks[d].systems@[o].entries@.len(),
        new_disks.len() == old_disks.len(),
        forall|i: int| 0 <= i < old_disks.len() && i != d ==> new_disks[i] == old_disks[i],
        new_disks[d].systems@.len() == old_disks[d].systems@.len(),
        forall|i: int|
            0 <= i < old_disks[d].systems@.len() && i != o ==> new_disks[d].systems@[i]
                == old_disks[d].systems@[i],
        new_disks[d].systems@[o].entries@.len() == old_disks[d].systems@[o].entries@.len(),
        forall|i: int|
            0 <= i < old_disks[d].systems@[o].entries@.len() && i != k
                ==> new_disks[d].systems@[o].entries@[i] == old_disks[d].systems@[o].entries@[i],
    ensures
        #[trigger] disk_entries(new_disks) == disk_entries(old_disks).update(
            #[trigger] flat_pos(old_disks, d, o, k),
            new_disks[d].systems@[o].entries@[k],
        ),
{
    let x = new_disks[d].systems@[o].entries@[k];
    assert(new_disks[d].systems@[o].entries@ == old_disks[d].systems@[o].entries@.update(k, x));
    lemma_disk_entries_take(old_disks, d);
    lemma_disk_entries_take(new_disks, d);
    lemma_os_entries_take(old_disks[d].systems@, o);
    lemma_os_entries_take(new_disks[d].systems@, o);
    assert(new_disks.take(d) == old_disks.take(d));
    assert(new_disks.skip(d + 1) == old_disks.skip(d + 1));
    assert(new_disks[d].systems@.take(o) == old_disks[d].systems@.take(o));
    assert(new_disks[d].systems@.skip(o + 1) == old_disks[d].systems@.skip(o + 1));
    assert(disk_entries(new_disks) =~= disk_entries(old_disks).update(
        flat_pos(old_disks, d, o, k),
        x,
    ));
}

/// Does `keep` say to keep each element of `s` as recorded in `flags`?
pub open spec fn keep_flags<F: Fn(&BootEntry) -> bool>(keep: F, s: Seq<BootEntry>, flags: Seq<
    bool,
>) -> bool {
    &&& flags.len() == s.len()
    &&& forall|i: int| 0 <= i < s.len() ==> call_ensures(keep, (&s[i],), flags[i])
}

/// Every node of the graph holds at least one entry.
pub open spec fn no_empty_nodes(disks: Seq<DiskNode>) -> bool {
    forall|d: int|
        0 <= d < disks.len() ==> {
            &&& disks[d].systems@.len() > 0
            &&& forall|o: int|
                0 <= o < disks[d].systems@.len() ==> disks[d].systems@[o].entries@.len() > 0
        }
}

/// An OS node as kind, name and entries.
pub open spec fn os_shape(sys: Seq<OsNode>) -> Seq<(OsKind, Seq<char>, Seq<BootEntry>)> {
    sys.map_values(|o: OsNode| (o.kind, o.name@, o.entries@))
}

/// A disk as id, label and OS nodes.
pub open spec fn disk_shape(disks: Seq<DiskNode>) -> Seq<(DiskId, Seq<char>, Seq<(OsKind, Seq<char>, Seq<BootEntry>)>)> {
    disks.map_values(|d: DiskNode| (d.id, d.label@, os_shape(d.systems@)))
}

/// The OS nodes `sys` after keeping the entries `flags` marks (one flag per
/// entry, in traversal order): each node keeps its kind and name and the
/// entries kept, and a node left with none is dropped.
pub open spec fn pruned_os(sys: Seq<OsNode>, flags: Seq<bool>) -> Seq<(OsKind, Seq<char>, Seq<BootEntry>)>
    decreases sys.len(),
{
    if sys.len() == 0 {
        seq![]
    } else {
        let cut = flags.len() - sys.last().entries@.len();
        let rest = pruned_os(sys.drop_last(), flags.take(cut));
        let kept = select(sys.last().entries@, flags.skip(cut));
        if kept.len() > 0 {
            rest.push((sys.last().kind, sys.last().name@, kept))
        } else {
            rest
        }
    }
}

/// The disks after keeping the entries `flags` marks: each disk keeps its
/// id and label and its pruned OS nodes, and a disk left with none is
/// dropped.
pub open spec fn pruned_disks(disks: Seq<DiskNode>, flags: Seq<bool>) -> Seq<
    (DiskId, Seq<char>, Seq<(OsKind, Seq<char>, Seq<BootEntry>)>),
>
    decreases disks.len(),
{
    if disks.len() == 0 {
        seq![]
    } else {
        let cut = flags.len() - os_entries(disks.last().systems@).len();
        let rest = pruned_disks(disks.drop_last(), flags.take(cut));
        let nodes = pruned_os(disks.last().systems@, flags.skip(cut));
        if nodes.len() > 0 {
            rest.push((disks.last().id, disks.last().label@, nodes))
        } else {
            rest
        }
    }
}

proof fn lemma_pruned_os_push(sys: Seq<OsNode>, flags: Seq<bool>, o: OsNode, f: Seq<bool>)
    requires
        flags.len() == os_entries(sys).len(),
        f.len() == o.entries@.len(),
    ensures
        pruned_os(sys.push(o), flags + f) == (if select(o.entries@, f).len() > 0 {
            pruned_os(sys, flags).push((o.kind, o.name@, select(o.entries@, f)))
        } else {
            pruned_os(sys, flags)
        }),
{
    lemma_os_entries_push(sys, o);
    assert(sys.push(o).drop_last() == sys);
    assert(sys.push(o).last() == o);
    assert((flags + f).take(flags.len() as int) == flags);
    assert((flags + f).skip(flags.len() as int) == f);
}

proof fn lemma_pruned_disks_push(disks: Seq<DiskNode>, flags: Seq<bool>, d: DiskNode, f: Seq<bool>)
    requires
        flags.len() == disk_entries(disks).len(),
        f.len() == os_entries(d.systems@).len(),
    ensures
        pruned_disks(disks.push(d), flags + f) == (if pruned_os(d.systems@, f).len() > 0 {
            pruned_disks(disks, flags).push((d.id, d.label@, pruned_os(d.systems@, f)))
        } else {
            pruned_disks(disks, flags)
        }),
{
    lemma_disk_entries_push(disks, d);
    assert(disks.push(d).drop_last() == disks);
    assert(disks.push(d).last() == d);
    assert((flags + f).take(flags.len() as int) == flags);
    assert((flags + f).skip(flags.len() as int) == f);
}

fn retain_in_os<F: Fn(&BootEntry) -> bool>(os: &mut OsNode, keep: &F) -> (flags: Ghost<Seq<bool>>)
    requires
        forall|e: &BootEntry| call_requires(*keep, (e,)),
    ensures
        final(os).kind == old(os).kind,
        final(os).name == old(os).name,
        keep_flags(*keep, old(os).entries@, flags@),
        final(os).entries@ == select(old(os).entries@, flags@),
{
    let mut rest: Vec<BootEntry> = Vec::new();
    core::mem::swap(&mut rest, &mut os.entries);
    let ghost orig = rest@;
    let ghost mut flags: Seq<bool> = seq![];
    let mut i: usize = 0;
    let n = rest.len();
    while i < n
        invariant
            n == orig.len(),
            i <= n,
            rest@ == orig.skip(i as int),
            keep_flags(*keep, orig.take(i as int), flags),
            os.entries@ == select(orig.take(i as int), flags),
            os.kind == old(os).kind,
            os.name == old(os).name,
            forall|e: &BootEntry| call_requires(*keep, (e,)),
        decreases n - i,
    {
        let e = rest.remove(0);
        assert(e == orig[i as int]);
        let k = keep(&e);
        let ghost old_flags = flags;
        proof {
            assert(orig.take(i + 1).drop_last() == orig.take(i as int));
            assert(orig.take(i + 1).last() == e);
            flags = flags.push(k);
            assert(flags.drop_last() == old_flags);
        }
        if k {
            os.entries.push(e);
        }
        i = i + 1;
        assert(rest@ =~= orig.skip(i as int));
        assert forall|j: int| 0 <= j < i implies call_ensures(*keep, (&orig.take(i as int)[j],), flags[j]) by {
            if j < i - 1 {
                assert(orig.take(i as int)[j] == orig.take(i - 1)[j]);
                assert(flags[j] == flags.drop_last()[j]);
            }
        }
    }
    assert(orig.take(n as int) == orig);
    Ghost(flags)
}

proof fn lemma_os_entries_push(sys: Seq<OsNode>, o: OsNode)
    ensures
        os_entries(sys.push(o)) == os_entries(sys) + o.entries@,
{
    assert(sys.push(o).drop_last() == sys);
}

proof fn lemma_disk_entries_push(disks: Seq<DiskNode>, d: DiskNode)
    ensures
        disk_entries(disks.push(d)) == disk_entries(disks) + os_entries(d.systems@),
{
    assert(disks.push(d).drop_last() == disks);
}

fn retain_in_disk<F: Fn(&BootEntry) -> bool>(disk: &mut DiskNode, keep: &F) -> (flags: Ghost<
    Seq<bool>,
>)
    requires
        forall|e: &BootEntry| call_requires(*keep, (e,)),
    ensures
        final(disk).id == old(disk).id,
        final(disk).label == old(disk).label,
        keep_flags(*keep, os_entries(old(disk).systems@), flags@),
        os_entries(final(disk).systems@) == select(os_entries(old(disk).systems@), flags@),
        os_shape(final(disk).systems@) == pruned_os(old(disk).systems@, flags@),
        forall|o: int|
            0 <= o < final(disk).systems@.len() ==> final(disk).systems@[o].entries@.len() > 0,
{
    let mut rest: Vec<OsNode> = Vec::new();
    core::mem::swap(&mut rest, &mut disk.systems);
    let ghost orig = rest@;
    let ghost mut flags: Seq<bool> = seq![];
    let mut i: usize = 0;
    let n = rest.len();
    while i < n
        invariant
            n == orig.len(),
            i <= n,
            rest@ == orig.skip(i as int),
            keep_flags(*keep, os_entries(orig.take(i as int)), flags),
            os_entries(disk.systems@) == select(os_entries(orig.take(i as int)), flags),
            os_shape(disk.systems@) == pruned_os(orig.take(i as int), flags),
            forall|o: int| 0 <= o < disk.systems@.len() ==> disk.systems@[o].entries@.len() > 0,
            disk.id == old(disk).id,
            disk.label == old(disk).label,
            forall|e: &BootEntry| call_requires(*keep, (e,)),
        decreases n - i,
    {
        let mut o = rest.remove(0);
        assert(o == orig[i as int]);
        let ghost before = o.entries@;
        let Ghost(f) = retain_in_os(&mut o, keep);
        proof {
            assert(orig.take(i + 1) == orig.take(i as int).push(orig[i as int]));
            lemma_os_entries_push(orig.take(i as int), orig[i as int]);
            let prev = os_entries(orig.take(i as int));
            lemma_select_append(prev, flags, before, f);
            lemma_pruned_os_push(orig.take(i as int), flags, orig[i as int], f);
            assert forall|j: int| 0 <= j < (prev + before).len() implies call_ensures(
                *keep,
                (&(prev + before)[j],),
                (flags + f)[j],
            ) by {
                if j < prev.len() {
                } else {
                    assert((prev + before)[j] == before[j - prev.len()]);
                    assert((flags + f)[j] == f[j - prev.len()]);
                }
            }
            flags = flags + f;
        }
        if o.entries.len() > 0 {
            let ghost before_sys = disk.systems@;
            disk.systems.push(o);
            proof {
                lemma_os_entries_push(before_sys, o);
                assert(os_shape(disk.systems@) =~= os_shape(before_sys).push((o.kind, o.name@, o.entries@)));
            }
        } else {
            assert(select(before, f) =~= Seq::<BootEntry>::empty());
        }
        i = i + 1;
        assert(rest@ =~= orig.skip(i as int));
    }
    assert(orig.take(n as int) == orig);
    Ghost(flags)
}


/// `entry_lt` computed on two entries.
fn entry_lt_exec(a: &BootEntry, b: &BootEntry) -> (r: bool)
    ensures
        r == entry_lt(*a, *b),
{
    let ka = a.role.order_key();
    let kb = b.role.order_key();
    if ka.0 != kb.0 {
        return ka.0 < kb.0;
    }
    if ka.1 != kb.1 {
        return ka.1 < kb.1;
    }
    let ta = chars_of_string(&a.title);
    let tb = chars_of_string(&b.title);
    text_lt_exec(&ta, &tb)
}

proof fn lemma_insert_pos(t: Seq<BootEntry>, x: BootEntry, j: int)
    requires
        0 <= j <= t.len(),
        forall|k: int| 0 <= k < j ==> !entry_lt(x, #[trigger] t[k]),
        j < t.len() ==> entry_lt(x, t[j]),
    ensures
        insert_pos(t, x) == j,
    decreases t.len(),
{
    if t.len() > 0 && j > 0 {
        assert(!entry_lt(x, t[0]));
        assert forall|k: int| 0 <= k < j - 1 implies !entry_lt(x, #[trigger] t.drop_first()[k]) by {
            assert(t.drop_first()[k] == t[k + 1]);
        }
        lemma_insert_pos(t.drop_first(), x, j - 1);
    }
}

/// The entries of `v` in canonical order.
fn sort_entries(v: Vec<BootEntry>) -> (r: Vec<BootEntry>)
    ensures
        r@ == canonical_sort(v@),
{
    let mut rest = v;
    let ghost orig = rest@;
    let mut out: Vec<BootEntry> = Vec::new();
    let mut i: usize = 0;
    let n = rest.len();
    while i < n
        invariant
            n == orig.len(),
            i <= n,
            rest@ == orig.skip(i as int),
            out@ == canonical_sort(orig.take(i as int)),
        decreases n - i,
    {
        let x = rest.remove(0);
        assert(x == orig[i as int]);
        let mut j: usize = 0;
        while j < out.len()
            invariant
                j <= out@.len(),
                forall|k: int| 0 <= k < j ==> !entry_lt(x, #[trigger] out@[k]),
            ensures
                j <= out@.len(),
                forall|k: int| 0 <= k < j ==> !entry_lt(x, #[trigger] out@[k]),
                j < out@.len() ==> entry_lt(x, out@[j as int]),
            decreases out@.len() - j,
        {
            if entry_lt_exec(&x, &out[j]) {
                break;
            }
            j = j + 1;
        }
        proof {
            lemma_insert_pos(out@, x, j as int);
            assert(orig.take(i + 1).drop_last() == orig.take(i as int));
            assert(orig.take(i + 1).last() == x);
        }
        out.insert(j, x);
        i = i + 1;
        assert(rest@ =~= orig.skip(i as int));
    }
    assert(orig.take(n as int) == orig);
    out
}

/// `new` is `old` with the entries of every OS node in canonical order.
pub open spec fn sorted_from(old: Seq<DiskNode>, new: Seq<DiskNode>) -> bool {
    &&& new.len() == old.len()
    &&& forall|d: int|
        0 <= d < old.len() ==> {
            &&& #[trigger] new[d].id == old[d].id
            &&& new[d].label == old[d].label
            &&& new[d].systems@.len() == old[d].systems@.len()
            &&& forall|o: int|
                0 <= o < old[d].systems@.len() ==> {
                    &&& #[trigger] new[d].systems@[o].kind == old[d].systems@[o].kind
                    &&& new[d].systems@[o].name == old[d].systems@[o].name
                    &&& new[d].systems@[o].entries@ == canonical_sort(
                        old[d].systems@[o].entries@,
                    )
                }
        }
}

fn sort_disk(disk: DiskNode) -> (r: DiskNode)
    ensures
        r.id == disk.id,
        r.label == disk.label,
        r.systems@.len() == disk.systems@.len(),
        forall|o: int|
            0 <= o < disk.systems@.len() ==> {
                &&& #[trigger] r.systems@[o].kind == disk.systems@[o].kind
                &&& r.systems@[o].name == disk.systems@[o].name
                &&& r.systems@[o].entries@ == canonical_sort(disk.systems@[o].entries@)
            },
{
    let DiskNode { id, label, systems } = disk;
    let mut rest = systems;
    let ghost orig = rest@;
    let mut out: Vec<OsNode> = Vec::new();
    let mut i: usize = 0;
    let n = rest.len();
    while i < n
        invariant
            n == orig.len(),
            i <= n,
            rest@ == orig.skip(i as int),
            out@.len() == i,
            forall|o: int|
                0 <= o < i ==> {
                    &&& #[trigger] out@[o].kind == orig[o].kind
                    &&& out@[o].name == orig[o].name
                    &&& out@[o].entries@ == canonical_sort(orig[o].entries@)
                },
        decreases n - i,
    {
        let os = rest.remove(0);
        assert(os == orig[i as int]);
        let OsNode { kind, name, entries } = os;
        let sorted = sort_entries(entries);
        out.push(OsNode { kind, name, entries: sorted });
        i = i + 1;
        assert(rest@ =~= orig.skip(i as int));
    }
    DiskNode { id, label, systems: out }
}

impl BootGraph {
    /// All entries of the graph in traversal order (disks, then systems, then
    /// entries).
    pub open spec fn flat(&self) -> Seq<BootEntry> {
        disk_entries(self.disks@)
    }

    pub fn new() -> (r: BootGraph)
        ensures
            r.disks@.len() == 0,
    {
        BootGraph { disks: Vec::new() }
    }

    pub fn add_disk(&mut self, disk: DiskNode)
        ensures
            final(self).disks@ == old(self).disks@.push(disk),
    {
        self.disks.push(disk);
    }

    /// Every entry in the graph, flattened, in traversal order.
    pub fn entries(&self) -> (r: Vec<&BootEntry>)
        ensures
            r@.len() == self.flat().len(),
            forall|i: int| 0 <= i < r@.len() ==> *r@[i] == self.flat()[i],
    {
        let mut out: Vec<&BootEntry> = Vec::new();
        let mut d: usize = 0;
        while d < self.disks.len()
            invariant
                d <= self.disks@.len(),
                out@.len() == disk_entries(self.disks@.take(d as int)).len(),
                forall|i: int|
                    0 <= i < out@.len() ==> *out@[i] == disk_entries(self.disks@.take(d as int))[i],
            decreases self.disks@.len() - d,
        {
            let disk = &self.disks[d];
            let mut o: usize = 0;
            let ghost base = disk_entries(self.disks@.take(d as int));
            while o < disk.systems.len()
                invariant
                    o <= disk.systems@.len(),
                    out@.len() == base.len() + os_entries(disk.systems@.take(o as int)).len(),
                    forall|i: int|
                        0 <= i < out@.len() ==> *out@[i] == (base + os_entries(
                            disk.systems@.take(o as int),
                        ))[i],
                decreases disk.systems@.len() - o,
            {
                let os = &disk.systems[o];
                let mut k: usize = 0;
                let ghost base2 = base + os_entries(disk.systems@.take(o as int));
                while k < os.entries.len()
                    invariant
                        k <= os.entries@.len(),
                        out@.len() == base2.len() + k,
                        forall|i: int|
                            0 <= i < out@.len() ==> *out@[i] == (base2 + os.entries@.take(
                                k as int,
                            ))[i],
                    decreases os.entries@.len() - k,
                {
                    out.push(&os.entries[k]);
                    k = k + 1;
                    assert forall|i: int| 0 <= i < out@.len() implies *out@[i] == (base2
                        + os.entries@.take(k as int))[i] by {
                        if i < out@.len() - 1 {
                            assert((base2 + os.entries@.take(k as int))[i] == (base2
                                + os.entries@.take(k - 1))[i]);
                        }
                    }
                }
                proof {
                    assert(os.entries@.take(k as int) == os.entries@);
                    assert(disk.systems@.take(o + 1) == disk.systems@.take(o as int).push(
                        disk.systems@[o as int],
                    ));
                    lemma_os_entries_push(disk.systems@.take(o as int), disk.systems@[o as int]);
                    assert(base2 + os.entries@ == base + os_entries(disk.systems@.take(o + 1)));
                }
                o = o + 1;
            }
            proof {
                assert(disk.systems@.take(o as int) == disk.systems@);
                assert(self.disks@.take(d + 1) == self.disks@.take(d as int).push(
                    self.disks@[d as int],
                ));
                lemma_disk_entries_push(self.disks@.take(d as int), self.disks@[d as int]);
            }
            d = d + 1;
        }
        assert(self.disks@.take(d as int) == self.disks@);
        out
    }

    /// Look up an entry by its stable id: the first entry carrying it.
    pub fn find(&self, id: &EntryId) -> (r: Option<&BootEntry>)
        ensures
            match first_with_id(self.flat(), id@) {
                Some(i) => r matches Some(e) && *e == self.flat()[i],
                None => r is None,
            },
    {
        let all = self.entries();
        let mut i: usize = 0;
        while i < all.len()
            invariant
                all@.len() == self.flat().len(),
                forall|j: int| 0 <= j < all@.len() ==> *all@[j] == self.flat()[j],
                i <= all@.len(),
                forall|k: int| 0 <= k < i ==> self.flat()[k].id@ != id@,
            decreases all@.len() - i,
        {
            if all[i].id == *id {
                proof {
                    lemma_first_with_id_at(self.flat(), id@, i as int);
                }
                return Some(all[i]);
            }
            i = i + 1;
        }
        proof {
            lemma_first_with_id(self.flat(), id@);
            if let Some(j) = first_with_id(self.flat(), id@) {
                assert(self.flat()[j].id@ != id@);
            }
        }
        None
    }

    /// Where the first entry with `id` sits: disk, system and entry index.
    fn locate(&self, id: &EntryId) -> (r: Option<(usize, usize, usize)>)
        ensures
            match r {
                Some((d, o, k)) => {
                    &&& d < self.disks@.len()
                    &&& o < self.disks@[d as int].systems@.len()
                    &&& k < self.disks@[d as int].systems@[o as int].entries@.len()
                    &&& first_with_id(self.flat(), id@) == Some(
                        flat_pos(self.disks@, d as int, o as int, k as int),
                    )
                },
                None => first_with_id(self.flat(), id@) is None,
            },
    {
        let mut d: usize = 0;
        while d < self.disks.len()
            invariant
                d <= self.disks@.len(),
                forall|x: int|
                    0 <= x < disk_entries(self.disks@.take(d as int)).len() ==> disk_entries(
                        self.disks@.take(d as int),
                    )[x].id@ != id@,
            decreases self.disks@.len() - d,
        {
            let disk = &self.disks[d];
            let ghost base = disk_entries(self.disks@.take(d as int));
            let mut o: usize = 0;
            while o < disk.systems.len()
                invariant
                    o <= disk.systems@.len(),
                    disk == self.disks@[d as int],
                    d < self.disks@.len(),
                    base == disk_entries(self.disks@.take(d as int)),
                    forall|x: int|
                        0 <= x < (base + os_entries(disk.systems@.take(o as int))).len() ==> (base
                            + os_entries(disk.systems@.take(o as int)))[x].id@ != id@,
                decreases disk.systems@.len() - o,
            {
                let os = &disk.systems[o];
                let ghost base2 = base + os_entries(disk.systems@.take(o as int));
                let mut k: usize = 0;
                while k < os.entries.len()
                    invariant
                        k <= os.entries@.len(),
                        d < self.disks@.len(),
                        disk == self.disks@[d as int],
                        o < disk.systems@.len(),
                        os == disk.systems@[o as int],
                        base == disk_entries(self.disks@.take(d as int)),
                        base2 == base + os_entries(disk.systems@.take(o as int)),
                        forall|x: int|
                            0 <= x < (base2 + os.entries@.take(k as int)).len() ==> (base2
                                + os.entries@.take(k as int))[x].id@ != id@,
                    decreases os.entries@.len() - k,
                {
                    if os.entries[k].id == *id {
                        proof {
                            lemma_flat_pos(self.disks@, d as int, o as int, k as int);
                            let p = flat_pos(self.disks@, d as int, o as int, k as int);
                            assert forall|x: int| 0 <= x < p implies self.flat()[x].id@ != id@ by {
                                assert(self.flat()[x] == (base2 + os.entries@.take(k as int))[x]);
                            }
                            lemma_first_with_id_at(self.flat(), id@, p);
                        }
                        return Some((d, o, k));
                    }
                    k = k + 1;
                    assert forall|x: int| 0 <= x < (base2 + os.entries@.take(k as int)).len() implies (
                    base2 + os.entries@.take(k as int))[x].id@ != id@ by {
                        if x < (base2 + os.entries@.take(k - 1)).len() {
                            assert((base2 + os.entries@.take(k as int))[x] == (base2
                                + os.entries@.take(k - 1))[x]);
                        }
                    }
                }
                proof {
                    assert(os.entries@.take(k as int) == os.entries@);
                    assert(disk.systems@.take(o + 1) == disk.systems@.take(o as int).push(
                        disk.systems@[o as int],
                    ));
                    lemma_os_entries_push(disk.systems@.take(o as int), disk.systems@[o as int]);
                    assert(base2 + os.entries@ == base + os_entries(disk.systems@.take(o + 1)));
                }
                o = o + 1;
            }
            proof {
                assert(disk.systems@.take(o as int) == disk.systems@);
                assert(self.disks@.take(d + 1) == self.disks@.take(d as int).push(
                    self.disks@[d as int],
                ));
                lemma_disk_entries_push(self.disks@.take(d as int), self.disks@[d as int]);
            }
            d = d + 1;
        }
        proof {
            assert(self.disks@.take(d as int) == self.disks@);
            lemma_first_with_id(self.flat(), id@);
            if let Some(j) = first_with_id(self.flat(), id@) {
                assert(self.flat()[j].id@ != id@);
            }
        }
        None
    }

    /// Mutable lookup for annotating health or results: the first entry with
    /// `id`; every other entry and node is left as it was.
    pub fn find_mut(&mut self, id: &EntryId) -> (r: Option<&mut BootEntry>)
        ensures
            final(self).disks@.len() == old(self).disks@.len(),
            forall|d: int|
                0 <= d < old(self).disks@.len() ==> {
                    &&& #[trigger] final(self).disks@[d].id == old(self).disks@[d].id
                    &&& final(self).disks@[d].label == old(self).disks@[d].label
                    &&& final(self).disks@[d].systems@.len() == old(self).disks@[d].systems@.len()
                },
            match first_with_id(old(self).flat(), id@) {
                Some(i) => r matches Some(e) && *e == old(self).flat()[i] && final(self).flat()
                    == old(self).flat().update(i, *final(e)),
                None => r is None && final(self).disks@ == old(self).disks@,
            },
    {
        broadcast use lemma_flat_update;

        match self.locate(id) {
            Some((d, o, k)) => {
                let ghost old_disks = self.disks@;
                proof {
                    lemma_flat_pos(old_disks, d as int, o as int, k as int);
                }
                let r = &mut self.disks[d].systems[o].entries[k];
                Some(r)
            },
            None => None,
        }
    }

    /// Number of entries in the graph.
    pub fn len(&self) -> (r: usize)
        ensures
            r == self.flat().len(),
    {
        self.entries().len()
    }

    pub fn is_empty(&self) -> (r: bool)
        ensures
            r == (self.flat().len() == 0),
    {
        self.len() == 0
    }

    /// Keep only the entries for which `keep` returns true, pruning any OS or
    /// disk node left empty; the nodes that remain keep their order, ids,
    /// labels, kinds and names.
    pub fn retain_entries<F: Fn(&BootEntry) -> bool>(&mut self, keep: F)
        requires
            forall|e: &BootEntry| call_requires(keep, (e,)),
        ensures
            exists|flags: Seq<bool>|
                {
                    &&& keep_flags(keep, old(self).flat(), flags)
                    &&& final(self).flat() == select(old(self).flat(), flags)
                    &&& disk_shape(final(self).disks@) == pruned_disks(old(self).disks@, flags)
                },
            no_empty_nodes(final(self).disks@),
    {
        let mut rest: Vec<DiskNode> = Vec::new();
        core::mem::swap(&mut rest, &mut self.disks);
        let ghost orig = rest@;
        let ghost mut flags: Seq<bool> = seq![];
        let mut i: usize = 0;
        let n = rest.len();
        while i < n
            invariant
                n == orig.len(),
                i <= n,
                rest@ == orig.skip(i as int),
                keep_flags(keep, disk_entries(orig.take(i as int)), flags),
                disk_entries(self.disks@) == select(disk_entries(orig.take(i as int)), flags),
                disk_shape(self.disks@) == pruned_disks(orig.take(i as int), flags),
                no_empty_nodes(self.disks@),
                forall|e: &BootEntry| call_requires(keep, (e,)),
            decreases n - i,
        {
            let mut d = rest.remove(0);
            assert(d == orig[i as int]);
            let ghost before = os_entries(d.systems@);
            let Ghost(f) = retain_in_disk(&mut d, &keep);
            proof {
                assert(orig.take(i + 1) == orig.take(i as int).push(orig[i as int]));
                lemma_disk_entries_push(orig.take(i as int), orig[i as int]);
                let prev = disk_entries(orig.take(i as int));
                lemma_select_append(prev, flags, before, f);
                lemma_pruned_disks_push(orig.take(i as int), flags, orig[i as int], f);
                assert forall|j: int| 0 <= j < (prev + before).len() implies call_ensures(
                    keep,
                    (&(prev + before)[j],),
                    (flags + f)[j],
                ) by {
                    if j < prev.len() {
                    } else {
                        assert((prev + before)[j] == before[j - prev.len()]);
                        assert((flags + f)[j] == f[j - prev.len()]);
                    }
                }
                flags = flags + f;
            }
            if d.systems.len() > 0 {
                let ghost before_disks = self.disks@;
                self.disks.push(d);
                proof {
                    lemma_disk_entries_push(before_disks, d);
                    assert(disk_shape(self.disks@) =~= disk_shape(before_disks).push(
                        (d.id, d.label@, os_shape(d.systems@)),
                    ));
                    assert forall|x: int| 0 <= x < self.disks@.len() implies {
                        &&& self.disks@[x].systems@.len() > 0
                        &&& forall|o: int|
                            0 <= o < self.disks@[x].systems@.len()
                                ==> self.disks@[x].systems@[o].entries@.len() > 0
                    } by {
                        if x < before_disks.len() {
                            assert(self.disks@[x] == before_disks[x]);
                        }
                    }
                }
            } else {
                assert(os_entries(d.systems@) == Seq::<BootEntry>::empty());
                assert(os_shape(d.systems@).len() == 0);
            }
            i = i + 1;
            assert(rest@ =~= orig.skip(i as int));
        }
        assert(orig.take(n as int) == orig);
        assert(orig == old(self).disks@);
        assert(keep_flags(keep, old(self).flat(), flags));
        assert(self.flat() == select(old(self).flat(), flags));
    }

    /// Every currently bootable entry, in traversal order.
    pub fn bootable(&self) -> (r: Vec<&BootEntry>)
        ensures
            r@.len() == bootable_entries(self.flat()).len(),
            forall|i: int| 0 <= i < r@.len() ==> *r@[i] == bootable_entries(self.flat())[i],
    {
        let all = self.entries();
        let mut out: Vec<&BootEntry> = Vec::new();
        let mut i: usize = 0;
        while i < all.len()
            invariant
                all@.len() == self.flat().len(),
                forall|j: int| 0 <= j < all@.len() ==> *all@[j] == self.flat()[j],
                i <= all@.len(),
                out@.len() == bootable_entries(self.flat().take(i as int)).len(),
                forall|j: int|
                    0 <= j < out@.len() ==> *out@[j] == bootable_entries(
                        self.flat().take(i as int),
                    )[j],
            decreases all@.len() - i,
        {
            assert(self.flat().take(i + 1).drop_last() == self.flat().take(i as int));
            if all[i].bootable() {
                out.push(all[i]);
            }
            i = i + 1;
        }
        assert(self.flat().take(i as int) == self.flat());
        out
    }
    /// Order the entries within each OS canonically (by role key, then
    /// title, keeping the discovered order among equals). The same graph
    /// always orders the same way.
    pub fn sort_canonical(&mut self)
        ensures
            sorted_from(old(self).disks@, final(self).disks@),
    {
        let mut rest: Vec<DiskNode> = Vec::new();
        core::mem::swap(&mut rest, &mut self.disks);
        let ghost orig = rest@;
        let mut i: usize = 0;
        let n = rest.len();
        while i < n
            invariant
                n == orig.len(),
                i <= n,
                rest@ == orig.skip(i as int),
                orig == old(self).disks@,
                sorted_from(orig.take(i as int), self.disks@),
            decreases n - i,
        {
            let d = rest.remove(0);
            assert(d == orig[i as int]);
            let sd = sort_disk(d);
            let ghost before = self.disks@;
            self.disks.push(sd);
            proof {
                let o2 = orig.take(i + 1);
                assert forall|x: int| 0 <= x < i + 1 implies o2[x] == orig[x] by {}
                assert forall|x: int| 0 <= x < i implies self.disks@[x] == before[x] by {}
                assert forall|x: int| 0 <= x < i implies orig.take(i as int)[x] == orig[x] by {}
                assert forall|x: int| 0 <= x < o2.len() implies {
                    &&& #[trigger] self.disks@[x].id == o2[x].id
                    &&& self.disks@[x].label == o2[x].label
                    &&& self.disks@[x].systems@.len() == o2[x].systems@.len()
                    &&& forall|o: int|
                        0 <= o < o2[x].systems@.len() ==> {
                            &&& #[trigger] self.disks@[x].systems@[o].kind == o2[x].systems@[o].kind
                            &&& self.disks@[x].systems@[o].name == o2[x].systems@[o].name
                            &&& self.disks@[x].systems@[o].entries@ == canonical_sort(
                                o2[x].systems@[o].entries@,
                            )
                        }
                } by {
                    if x < i {
                        assert(before[x].id == orig.take(i as int)[x].id);
                    }
                }
                assert(sorted_from(o2, self.disks@));
            }
            i = i + 1;
            assert(rest@ =~= orig.skip(i as int));
        }
        assert(orig.take(n as int) == orig);
    }
}

} // verus!
