//! Merge raw entries from all sources into one Boot Graph. De-duplication
//! by stable id keeps one entry per target: two sources describing the same
//! target (a firmware Boot#### and an ESP probe for Windows, say) collapse
//! into one, the richer description winning.
use vstd::prelude::*;
use vstd::utf8::encode_utf8;
use crate::graph::ids::{EntryId, DiskId, derive_scoped_text};
use crate::graph::kinds::{OsKind, RoleV, role_order_key};
use crate::graph::entry::{BootEntry, BootEntryV, EfiPath};
use crate::graph::health::HealthV;
use crate::graph::tree::{BootGraph, DiskNode, OsNode, canonical_sort, entry_lt, insert_pos, sorted_from};
use crate::discovery::{RawEntry, RawEntryV, raws_view};
use crate::text::{contains_seq, find_char, text_lt, chars_of, string_of, contains_chars, extend_str,
    extend_chars, chars_of_string, find_char_exec, slice_of, lemma_find_char_props, eq_chars};

verus! {

/// The number of bytes of a character in UTF-8.
pub open spec fn utf8_width(c: char) -> nat {
    let u = c as u32;
    if u < 0x80 {
        1
    } else if u < 0x800 {
        2
    } else if u < 0x10000 {
        3
    } else {
        4
    }
}

/// The characters of the last `n` bytes of `v` (all of `v` if it is
/// shorter), when that cut falls on a character boundary.
pub open spec fn byte_tail(v: Seq<char>, n: nat) -> Option<Seq<char>>
    decreases v.len(),
{
    if n == 0 || v.len() == 0 {
        Some(seq![])
    } else if utf8_width(v.last()) <= n {
        match byte_tail(v.drop_last(), (n - utf8_width(v.last())) as nat) {
            Some(t) => Some(t.push(v.last())),
            None => None,
        }
    } else {
        None
    }
}

/// A generic fallback title tagged with the end of its volume id, so
/// entries from several volumes can be told apart.
pub open spec fn tagged_title(title: Seq<char>, volume: Option<Seq<char>>) -> Seq<char> {
    match volume {
        Some(v) => if contains_seq(title, "Fallback Loader"@) {
            title + " ["@ + byte_tail(v, 6)->0 + "]"@
        } else {
            title
        },
        None => title,
    }
}

/// A fallback loader's title can be tagged with its volume: the id's last
/// six bytes start on a character boundary.
pub open spec fn tag_ok(r: RawEntryV) -> bool {
    r.volume is Some && contains_seq(r.title, "Fallback Loader"@) ==> byte_tail(r.volume->0, 6) is Some
}

/// A raw entry as a graph entry: its id derived from kind, role, loader and
/// volume; health unknown.
pub open spec fn to_entry(r: RawEntryV) -> BootEntryV {
    BootEntryV {
        id: derive_scoped_text(r.kind, r.role, r.loader, r.volume),
        title: tagged_title(r.title, r.volume),
        role: r.role,
        method: r.method,
        loader: r.loader,
        kernel: r.kernel,
        initrd: r.initrd,
        cmdline: r.cmdline,
        volume: r.volume,
        health: HealthV::Unknown,
        last_result: None,
    }
}

/// Two descriptions of one id: keep every concrete path either has (the
/// first's first) and the longer title (in bytes).
pub open spec fn merge(a: BootEntryV, b: BootEntryV) -> BootEntryV {
    BootEntryV {
        loader: if a.loader is None { b.loader } else { a.loader },
        kernel: if a.kernel is None { b.kernel } else { a.kernel },
        initrd: if a.initrd is None { b.initrd } else { a.initrd },
        cmdline: if a.cmdline is None { b.cmdline } else { a.cmdline },
        title: if encode_utf8(b.title).len() > encode_utf8(a.title).len() { b.title } else { a.title },
        ..a
    }
}

/// Position of the first entry with id `id`.
pub open spec fn id_pos(es: Seq<BootEntryV>, id: Seq<char>) -> Option<int>
    decreases es.len(),
{
    if es.len() == 0 {
        None
    } else if es[0].id == id {
        Some(0)
    } else {
        match id_pos(es.drop_first(), id) {
            Some(i) => Some(i + 1),
            None => None,
        }
    }
}

/// Entries de-duplicated by id, first-seen order, merged.
pub open spec fn dedup(es: Seq<BootEntryV>) -> Seq<BootEntryV>
    decreases es.len(),
{
    if es.len() == 0 {
        seq![]
    } else {
        let acc = dedup(es.drop_last());
        match id_pos(acc, es.last().id) {
            Some(i) => acc.update(i, merge(acc[i], es.last())),
            None => acc.push(es.last()),
        }
    }
}

/// The entries that have something to launch: a loader or a kernel.
pub open spec fn launchable(es: Seq<BootEntryV>) -> Seq<BootEntryV>
    decreases es.len(),
{
    if es.len() == 0 {
        seq![]
    } else if es.last().loader is Some || es.last().kernel is Some {
        launchable(es.drop_last()).push(es.last())
    } else {
        launchable(es.drop_last())
    }
}

/// The part of an id before its first `@` (the id without its volume).
pub open spec fn base_of(id: Seq<char>) -> Seq<char> {
    match find_char(id, '@') {
        Some(i) => id.take(i),
        None => id,
    }
}

/// `id` is the base of some volume-bearing entry of `es`.
pub open spec fn is_volumed_base(es: Seq<BootEntryV>, id: Seq<char>) -> bool {
    exists|j: int| 0 <= j < es.len() && es[j].volume is Some && base_of(#[trigger] es[j].id) == id
}

/// `es` without the volume-less entries that duplicate a volume-bearing one.
pub open spec fn drop_twins(all: Seq<BootEntryV>, es: Seq<BootEntryV>) -> Seq<BootEntryV>
    decreases es.len(),
{
    if es.len() == 0 {
        seq![]
    } else if es.last().volume is Some || !is_volumed_base(all, es.last().id) {
        drop_twins(all, es.drop_last()).push(es.last())
    } else {
        drop_twins(all, es.drop_last())
    }
}

/// The OS family an id names by its slug (`<kind>:...`).
pub open spec fn kind_of_id(id: Seq<char>) -> OsKind {
    let slug = match find_char(id, ':') {
        Some(i) => id.take(i),
        None => id,
    };
    if slug == "windows"@ {
        OsKind::Windows
    } else if slug == "linux"@ {
        OsKind::Linux
    } else if slug == "nixos"@ {
        OsKind::NixOs
    } else if slug == "bsd"@ {
        OsKind::Bsd
    } else if slug == "recovery"@ {
        OsKind::Recovery
    } else {
        OsKind::GenericEfi
    }
}

pub open spec fn display_name(kind: OsKind) -> Seq<char> {
    match kind {
        OsKind::Windows => "Windows"@,
        OsKind::Linux => "Linux"@,
        OsKind::NixOs => "NixOS"@,
        OsKind::Bsd => "BSD"@,
        OsKind::GenericEfi => "EFI"@,
        OsKind::Recovery => "Recovery"@,
    }
}

/// Position of the group of `kind`.
pub open spec fn group_pos(gs: Seq<(OsKind, Seq<BootEntryV>)>, kind: OsKind) -> Option<int>
    decreases gs.len(),
{
    if gs.len() == 0 {
        None
    } else if gs[0].0 == kind {
        Some(0)
    } else {
        match group_pos(gs.drop_first(), kind) {
            Some(i) => Some(i + 1),
            None => None,
        }
    }
}

/// Entries grouped by OS family, families in first-seen order.
pub open spec fn group(es: Seq<BootEntryV>) -> Seq<(OsKind, Seq<BootEntryV>)>
    decreases es.len(),
{
    if es.len() == 0 {
        seq![]
    } else {
        let gs = group(es.drop_last());
        let k = kind_of_id(es.last().id);
        match group_pos(gs, k) {
            Some(i) => gs.update(i, (k, gs[i].1.push(es.last()))),
            None => gs.push((k, seq![es.last()])),
        }
    }
}

/// The entries of the graph before grouping: converted, de-duplicated,
/// launchable, without volume-less twins.
pub open spec fn assembled(raw: Seq<RawEntryV>) -> Seq<BootEntryV> {
    let l = launchable(dedup(raw.map_values(|r: RawEntryV| to_entry(r))));
    drop_twins(l, l)
}

/// The canonical order on entry values (see `entry_lt`).
pub open spec fn entry_lt_v(a: BootEntryV, b: BootEntryV) -> bool {
    let ka = role_order_key(a.role);
    let kb = role_order_key(b.role);
    ||| ka.0 < kb.0
    ||| ka.0 == kb.0 && ka.1 < kb.1
    ||| ka.0 == kb.0 && ka.1 == kb.1 && text_lt(a.title, b.title)
}

pub open spec fn insert_pos_v(s: Seq<BootEntryV>, x: BootEntryV) -> int
    decreases s.len(),
{
    if s.len() == 0 {
        0
    } else if entry_lt_v(x, s[0]) {
        0
    } else {
        1 + insert_pos_v(s.drop_first(), x)
    }
}

/// Stable sort in canonical order, on entry values.
pub open spec fn canonical_sort_v(s: Seq<BootEntryV>) -> Seq<BootEntryV>
    decreases s.len(),
{
    if s.len() == 0 {
        seq![]
    } else {
        let t = canonical_sort_v(s.drop_last());
        t.insert(insert_pos_v(t, s.last()), s.last())
    }
}

pub open spec fn views_of(s: Seq<BootEntry>) -> Seq<BootEntryV> {
    s.map_values(|e: BootEntry| e@)
}

proof fn lemma_insert_pos_view(t: Seq<BootEntry>, x: BootEntry)
    ensures
        insert_pos(t, x) == insert_pos_v(views_of(t), x@),
        0 <= insert_pos(t, x) <= t.len(),
    decreases t.len(),
{
    if t.len() > 0 {
        lemma_insert_pos_view(t.drop_first(), x);
        assert(views_of(t.drop_first()) == views_of(t).drop_first());
        assert(views_of(t)[0] == t[0]@);
    }
}

/// Sorting commutes with taking views.
proof fn lemma_sort_view(s: Seq<BootEntry>)
    ensures
        views_of(canonical_sort(s)) == canonical_sort_v(views_of(s)),
        canonical_sort(s).len() == s.len(),
    decreases s.len(),
{
    if s.len() > 0 {
        lemma_sort_view(s.drop_last());
        let t = canonical_sort(s.drop_last());
        lemma_insert_pos_view(t, s.last());
        assert(views_of(s.drop_last()) == views_of(s).drop_last());
        assert(views_of(s).last() == s.last()@);
        assert(views_of(t.insert(insert_pos(t, s.last()), s.last())) =~= views_of(t).insert(
            insert_pos(t, s.last()),
            s.last()@,
        ));
    }
}


fn utf8_width_exec(c: char) -> (r: usize)
    ensures
        r as nat == utf8_width(c),
{
    let u = c as u32;
    if u < 0x80 {
        1
    } else if u < 0x800 {
        2
    } else if u < 0x10000 {
        3
    } else {
        4
    }
}

fn byte_tail_exec(v: &[char], n: usize) -> (r: Option<Vec<char>>)
    ensures
        match byte_tail(v@, n as nat) {
            Some(t) => r matches Some(x) && x@ == t,
            None => r is None,
        },
{
    let mut j: usize = v.len();
    let mut rem: usize = n;
    assert(v@.take(j as int) == v@);
    assert(v@.skip(j as int) =~= Seq::<char>::empty());
    while rem > 0 && j > 0
        invariant
            j <= v@.len(),
            byte_tail(v@, n as nat) == match byte_tail(v@.take(j as int), rem as nat) {
                Some(t) => Some(t + v@.skip(j as int)),
                None => None::<Seq<char>>,
            },
        decreases j,
    {
        let w = utf8_width_exec(v[j - 1]);
        let ghost t = v@.take(j as int);
        assert(t.last() == v@[j - 1]);
        assert(t.drop_last() == v@.take(j - 1));
        if w > rem {
            return None;
        }
        proof {
            match byte_tail(v@.take(j - 1), (rem - w) as nat) {
                Some(x) => {
                    assert(x.push(v@[j - 1]) + v@.skip(j as int) =~= x + v@.skip(j - 1));
                },
                None => {},
            }
        }
        rem = rem - w;
        j = j - 1;
    }
    assert(byte_tail(v@.take(j as int), rem as nat) == Some(Seq::<char>::empty()));
    assert(Seq::<char>::empty() + v@.skip(j as int) =~= v@.skip(j as int));
    Some(slice_of(v, j, v.len()))
}

fn opt_path(o: Option<String>) -> (r: Option<EfiPath>)
    ensures
        crate::graph::entry::path_text(r) == crate::discovery::ostr(o),
{
    match o {
        Some(s) => Some(EfiPath(s)),
        None => None,
    }
}

/// A raw entry as a graph entry (see [`to_entry`]).
fn to_entry_exec(r: RawEntry) -> (e: BootEntry)
    requires
        tag_ok(r@),
    ensures
        e@ == to_entry(r@),
{
    proof {
        reveal_strlit("Fallback Loader");
        reveal_strlit(" [");
        reveal_strlit("]");
    }
    let ghost rv = r@;
    let RawEntry { kind, os_name, title, role, method, loader, kernel, initrd, cmdline, volume } = r;
    let mut e = BootEntry::new(kind, title.as_str(), role, method);
    e.loader = opt_path(loader);
    e.kernel = opt_path(kernel);
    e.initrd = opt_path(initrd);
    e.cmdline = cmdline;
    let tc = chars_of_string(&e.title);
    let fb = chars_of("Fallback Loader");
    let tagged = match &volume {
        Some(v) => {
            if contains_chars(&tc, &fb) {
                let vc = chars_of_string(v);
                match byte_tail_exec(&vc, 6) {
                    Some(tail) => {
                        let mut t = tc;
                        extend_str(&mut t, " [");
                        extend_chars(&mut t, &tail);
                        extend_str(&mut t, "]");
                        Some(string_of(&t))
                    },
                    None => None,
                }
            } else {
                None
            }
        },
        None => None,
    };
    match tagged {
        Some(t) => {
            e.title = t;
        },
        None => {},
    }
    e.volume = volume;
    e.rederive_id(kind);
    e
}

/// Merge `b` into `a` (see [`merge`]).
fn merge_into(a: &mut BootEntry, b: BootEntry)
    ensures
        final(a)@ == merge(old(a)@, b@),
{
    let BootEntry { id: _, title, role: _, method: _, loader, kernel, initrd, cmdline, volume: _, health: _, last_result: _ } = b;
    if a.loader.is_none() {
        a.loader = loader;
    }
    if a.kernel.is_none() {
        a.kernel = kernel;
    }
    if a.initrd.is_none() {
        a.initrd = initrd;
    }
    if a.cmdline.is_none() {
        a.cmdline = cmdline;
    }
    if title.as_str().as_bytes().len() > a.title.as_str().as_bytes().len() {
        a.title = title;
    }
}

fn id_pos_exec(es: &Vec<BootEntry>, id: &EntryId) -> (r: Option<usize>)
    ensures
        match r {
            Some(i) => id_pos(views_of(es@), id@) == Some(i as int) && i < es@.len(),
            None => id_pos(views_of(es@), id@) is None,
        },
{
    let ghost vs = views_of(es@);
    let mut i: usize = 0;
    assert(vs.skip(0) == vs);
    while i < es.len()
        invariant
            i <= es@.len(),
            vs == views_of(es@),
            id_pos(vs, id@) == match id_pos(vs.skip(i as int), id@) {
                Some(k) => Some(k + i),
                None => None::<int>,
            },
        decreases es@.len() - i,
    {
        assert(vs.skip(i as int)[0] == es@[i as int]@);
        if es[i].id == *id {
            return Some(i);
        }
        assert(vs.skip(i as int).drop_first() == vs.skip(i + 1));
        i = i + 1;
    }
    assert(vs.skip(i as int).len() == 0);
    None
}

fn kind_of_id_exec(id: &EntryId) -> (r: OsKind)
    ensures
        r == kind_of_id(id@),
{
    let cs = chars_of(id.as_str());
    proof {
        lemma_find_char_props(cs@, ':');
    }
    let slug = match find_char_exec(&cs, ':') {
        Some(i) => slice_of(&cs, 0, i),
        None => slice_of(&cs, 0, cs.len()),
    };
    assert(slug@ == match find_char(id@, ':') {
        Some(i) => id@.take(i),
        None => id@,
    });
    if eq_chars(&slug, &chars_of("windows")) {
        OsKind::Windows
    } else if eq_chars(&slug, &chars_of("linux")) {
        OsKind::Linux
    } else if eq_chars(&slug, &chars_of("nixos")) {
        OsKind::NixOs
    } else if eq_chars(&slug, &chars_of("bsd")) {
        OsKind::Bsd
    } else if eq_chars(&slug, &chars_of("recovery")) {
        OsKind::Recovery
    } else {
        OsKind::GenericEfi
    }
}

fn display_name_exec(kind: OsKind) -> (r: &'static str)
    ensures
        r@ == display_name(kind),
{
    match kind {
        OsKind::Windows => "Windows",
        OsKind::Linux => "Linux",
        OsKind::NixOs => "NixOS",
        OsKind::Bsd => "BSD",
        OsKind::GenericEfi => "EFI",
        OsKind::Recovery => "Recovery",
    }
}

fn base_of_exec(id: &EntryId) -> (r: Vec<char>)
    ensures
        r@ == base_of(id@),
{
    let cs = chars_of(id.as_str());
    proof {
        lemma_find_char_props(cs@, '@');
    }
    match find_char_exec(&cs, '@') {
        Some(i) => slice_of(&cs, 0, i),
        None => slice_of(&cs, 0, cs.len()),
    }
}


/// The graph `g` is what `raw` assembles to: one disk (id 0, "system")
/// whose OS nodes are the families of the assembled entries, in first-seen
/// order, each named for its family and holding its entries in canonical
/// order.
pub open spec fn graph_of(raw: Seq<RawEntryV>, g: BootGraph) -> bool {
    let gs = group(assembled(raw));
    &&& g.disks@.len() == 1
    &&& g.disks@[0].id == DiskId(0)
    &&& g.disks@[0].label@ == "system"@
    &&& g.disks@[0].systems@.len() == gs.len()
    &&& forall|o: int|
        0 <= o < gs.len() ==> {
            &&& (#[trigger] g.disks@[0].systems@[o]).kind == gs[o].0
            &&& g.disks@[0].systems@[o].name@ == display_name(gs[o].0)
            &&& views_of(g.disks@[0].systems@[o].entries@) == canonical_sort_v(gs[o].1)
        }
}

fn dedup_entries(raw: Vec<RawEntry>) -> (r: Vec<BootEntry>)
    requires
        forall|i: int| 0 <= i < raw@.len() ==> tag_ok(#[trigger] raw@[i]@),
    ensures
        views_of(r@) == dedup(raws_view(raw@).map_values(|r: RawEntryV| to_entry(r))),
{
    let ghost rv = raws_view(raw@);
    let ghost conv = rv.map_values(|r: RawEntryV| to_entry(r));
    let mut rest = raw;
    let ghost orig = rest@;
    let mut entries: Vec<BootEntry> = Vec::new();
    let mut i: usize = 0;
    let n = rest.len();
    assert(conv.take(0) =~= Seq::<BootEntryV>::empty());
    assert(views_of(entries@) =~= Seq::<BootEntryV>::empty());
    while i < n
        invariant
            n == orig.len(),
            i <= n,
            rest@ == orig.skip(i as int),
            rv == raws_view(orig),
            conv == rv.map_values(|r: RawEntryV| to_entry(r)),
            forall|k: int| 0 <= k < orig.len() ==> tag_ok(#[trigger] orig[k]@),
            views_of(entries@) == dedup(conv.take(i as int)),
        decreases n - i,
    {
        let r = rest.remove(0);
        assert(r == orig[i as int]);
        assert(rv[i as int] == r@);
        let e = to_entry_exec(r);
        assert(conv.take(i + 1).drop_last() == conv.take(i as int));
        assert(conv.take(i + 1).last() == e@);
        let ghost before = views_of(entries@);
        match id_pos_exec(&entries, &e.id) {
            Some(k) => {
                let mut x = entries.remove(k);
                assert(x@ == before[k as int]);
                merge_into(&mut x, e);
                entries.insert(k, x);
                assert(views_of(entries@) =~= before.update(k as int, merge(before[k as int], e@)));
            },
            None => {
                entries.push(e);
                assert(views_of(entries@) =~= before.push(e@));
            },
        }
        i = i + 1;
        assert(rest@ =~= orig.skip(i as int));
    }
    assert(conv.take(n as int) == conv);
    entries
}

fn keep_launchable(entries: Vec<BootEntry>) -> (r: Vec<BootEntry>)
    ensures
        views_of(r@) == launchable(views_of(entries@)),
{
    let ghost d = views_of(entries@);
    let mut kept: Vec<BootEntry> = Vec::new();
    let mut rest = entries;
    let ghost orig2 = rest@;
    let n2 = rest.len();
    let mut i: usize = 0;
    assert(views_of(kept@) =~= launchable(d.take(0)));
    while i < n2
        invariant
            n2 == orig2.len(),
            i <= n2,
            rest@ == orig2.skip(i as int),
            d == views_of(orig2),
            views_of(kept@) == launchable(d.take(i as int)),
        decreases n2 - i,
    {
        let e = rest.remove(0);
        assert(e == orig2[i as int]);
        assert(d.take(i + 1).drop_last() == d.take(i as int));
        assert(d.take(i + 1).last() == e@);
        if e.loader.is_some() || e.kernel.is_some() {
            let ghost before = views_of(kept@);
            kept.push(e);
            assert(views_of(kept@) =~= before.push(e@));
        }
        i = i + 1;
        assert(rest@ =~= orig2.skip(i as int));
    }
    assert(d.take(n2 as int) == d);
    kept
}

/// The bases of the ids of the volume-bearing entries.
fn volumed_bases(kept: &Vec<BootEntry>) -> (bases: Vec<Vec<char>>)
    ensures
        forall|b: int| #![trigger bases@[b]] 0 <= b < bases@.len() ==> is_volumed_base(views_of(kept@), bases@[b]@),
        forall|x: int| #![trigger kept@[x]] 0 <= x < kept@.len() && kept@[x].volume is Some ==> exists|b: int| #![trigger bases@[b]] 0 <= b < bases@.len() && bases@[b]@ == base_of(kept@[x].id@),
{
    let ghost l = views_of(kept@);
    let mut bases: Vec<Vec<char>> = Vec::new();
    let mut j: usize = 0;
    while j < kept.len()
        invariant
            j <= kept@.len(),
            l == views_of(kept@),
            forall|b: int| #![trigger bases@[b]] 0 <= b < bases@.len() ==> is_volumed_base(l, bases@[b]@),
            forall|x: int| #![trigger kept@[x]] 0 <= x < j && kept@[x].volume is Some ==> exists|b: int| #![trigger bases@[b]] 0 <= b < bases@.len() && bases@[b]@ == base_of(kept@[x].id@),
        decreases kept@.len() - j,
    {
        assert(l[j as int] == kept@[j as int]@);
        if kept[j].volume.is_some() {
            let b = base_of_exec(&kept[j].id);
            let ghost old_b = bases@;
            bases.push(b);
            assert(bases@[bases@.len() - 1]@ == base_of(l[j as int].id));
            assert(is_volumed_base(l, b@));
            assert forall|x: int| #![trigger kept@[x]] 0 <= x < j + 1 && kept@[x].volume is Some implies exists|b2: int| #![trigger bases@[b2]] 0 <= b2 < bases@.len() && bases@[b2]@ == base_of(kept@[x].id@) by {
                if x < j {
                    let b2 = choose|b2: int| #![trigger old_b[b2]] 0 <= b2 < old_b.len() && old_b[b2]@ == base_of(kept@[x].id@);
                    assert(bases@[b2] == old_b[b2]);
                } else {
                    assert(bases@[old_b.len() as int]@ == base_of(kept@[x].id@));
                }
            }
        }
        j = j + 1;
    }
    bases
}

fn drop_volumeless_twins(kept: Vec<BootEntry>) -> (r: Vec<BootEntry>)
    ensures
        views_of(r@) == drop_twins(views_of(kept@), views_of(kept@)),
{
    let ghost l = views_of(kept@);
    let bases = volumed_bases(&kept);
    let mut finals: Vec<BootEntry> = Vec::new();
    let mut rest = kept;
    let ghost orig3 = rest@;
    let n3 = rest.len();
    let mut i: usize = 0;
    assert(views_of(finals@) =~= drop_twins(l, l.take(0)));
    while i < n3
        invariant
            n3 == orig3.len(),
            i <= n3,
            rest@ == orig3.skip(i as int),
            l == views_of(orig3),
            forall|b: int| #![trigger bases@[b]] 0 <= b < bases@.len() ==> is_volumed_base(l, bases@[b]@),
            forall|x: int| #![trigger orig3[x]] 0 <= x < orig3.len() && orig3[x].volume is Some ==> exists|b: int| #![trigger bases@[b]] 0 <= b < bases@.len() && bases@[b]@ == base_of(orig3[x].id@),
            views_of(finals@) == drop_twins(l, l.take(i as int)),
        decreases n3 - i,
    {
        let e = rest.remove(0);
        assert(e == orig3[i as int]);
        assert(l.take(i + 1).drop_last() == l.take(i as int));
        assert(l.take(i + 1).last() == e@);
        let keep = if e.volume.is_some() {
            true
        } else {
            let idc = chars_of(e.id.as_str());
            let mut found = false;
            let mut b: usize = 0;
            while b < bases.len()
                invariant
                    b <= bases@.len(),
                    idc@ == e@.id,
                    found ==> exists|x: int| #![trigger bases@[x]] 0 <= x < bases@.len() && bases@[x]@ == idc@,
                    !found ==> forall|x: int| 0 <= x < b ==> bases@[x]@ != idc@,
                decreases bases@.len() - b,
            {
                if eq_chars(&bases[b], &idc) {
                    found = true;
                }
                b = b + 1;
            }
            proof {
                if found {
                    let x = choose|x: int| #![trigger bases@[x]] 0 <= x < bases@.len() && bases@[x]@ == idc@;
                    assert(is_volumed_base(l, bases@[x]@));
                } else {
                    if is_volumed_base(l, e@.id) {
                        let y = choose|y: int| 0 <= y < l.len() && l[y].volume is Some && base_of(#[trigger] l[y].id) == e@.id;
                        assert(l[y] == orig3[y]@);
                        let x = choose|x: int| #![trigger bases@[x]] 0 <= x < bases@.len() && bases@[x]@ == base_of(orig3[y].id@);
                        assert(bases@[x]@ == idc@);
                    }
                }
            }
            !found
        };
        if keep {
            let ghost before = views_of(finals@);
            finals.push(e);
            assert(views_of(finals@) =~= before.push(e@));
        }
        i = i + 1;
        assert(rest@ =~= orig3.skip(i as int));
    }
    assert(l.take(n3 as int) == l);
    finals
}

proof fn lemma_group_pos(gs: Seq<(OsKind, Seq<BootEntryV>)>, k: OsKind)
    ensures
        group_pos(gs, k) matches Some(i) ==> 0 <= i < gs.len() && gs[i].0 == k,
    decreases gs.len(),
{
    if gs.len() > 0 {
        lemma_group_pos(gs.drop_first(), k);
    }
}

/// Group entries into OS nodes (see [`group`]).
fn group_entries(finals: Vec<BootEntry>) -> (systems: Vec<OsNode>)
    ensures
        systems@.len() == group(views_of(finals@)).len(),
        forall|o: int|
            0 <= o < systems@.len() ==> {
                &&& (#[trigger] systems@[o]).kind == group(views_of(finals@))[o].0
                &&& systems@[o].name@ == display_name(group(views_of(finals@))[o].0)
                &&& views_of(systems@[o].entries@) == group(views_of(finals@))[o].1
            },
{
    let ghost a = views_of(finals@);
    let mut systems: Vec<OsNode> = Vec::new();
    let mut rest = finals;
    let ghost orig4 = rest@;
    let n4 = rest.len();
    let mut i: usize = 0;
    assert(group(a.take(0)) =~= Seq::<(OsKind, Seq<BootEntryV>)>::empty());
    while i < n4
        invariant
            n4 == orig4.len(),
            i <= n4,
            rest@ == orig4.skip(i as int),
            a == views_of(orig4),
            systems@.len() == group(a.take(i as int)).len(),
            forall|o: int|
                0 <= o < systems@.len() ==> {
                    &&& (#[trigger] systems@[o]).kind == group(a.take(i as int))[o].0
                    &&& systems@[o].name@ == display_name(group(a.take(i as int))[o].0)
                    &&& views_of(systems@[o].entries@) == group(a.take(i as int))[o].1
                },
        decreases n4 - i,
    {
        let e = rest.remove(0);
        assert(e == orig4[i as int]);
        assert(a.take(i + 1).drop_last() == a.take(i as int));
        assert(a.take(i + 1).last() == e@);
        let ghost gs = group(a.take(i as int));
        let k = kind_of_id_exec(&e.id);
        let mut p: usize = 0;
        assert(gs.skip(0) == gs);
        while p < systems.len()
            invariant
                p <= systems@.len(),
                systems@.len() == gs.len(),
                forall|o: int| 0 <= o < systems@.len() ==> (#[trigger] systems@[o]).kind == gs[o].0,
                group_pos(gs, k) == match group_pos(gs.skip(p as int), k) {
                    Some(x) => Some(x + p),
                    None => None::<int>,
                },
            ensures
                p <= systems@.len(),
                p < systems@.len() ==> group_pos(gs, k) == Some(p as int),
                p == systems@.len() ==> group_pos(gs, k) is None,
            decreases systems@.len() - p,
        {
            assert(gs.skip(p as int)[0] == gs[p as int]);
            if systems[p].kind == k {
                break;
            }
            assert(gs.skip(p as int).drop_first() == gs.skip(p + 1));
            p = p + 1;
        }
        proof {
            if p == systems@.len() {
                assert(gs.skip(p as int).len() == 0);
            }
        }
        let ghost old_sys = systems@;
        if p < systems.len() {
            let mut os = systems.remove(p);
            assert(os == old_sys[p as int]);
            let ghost ov = views_of(os.entries@);
            os.push(e);
            assert(views_of(os.entries@) =~= ov.push(e@));
            systems.insert(p, os);
            assert(systems@ =~= old_sys.update(p as int, os));
        } else {
            let mut os = OsNode::new(k, display_name_exec(k));
            os.push(e);
            assert(views_of(os.entries@) =~= seq![e@]);
            systems.push(os);
            assert(systems@ =~= old_sys.push(os));
        }
        i = i + 1;
        assert(rest@ =~= orig4.skip(i as int));
        let ghost g2 = group(a.take(i as int));
        assert(g2 == match group_pos(gs, k) {
            Some(x) => gs.update(x, (k, gs[x].1.push(e@))),
            None => gs.push((k, seq![e@])),
        });
        assert forall|o: int| 0 <= o < systems@.len() implies {
            &&& (#[trigger] systems@[o]).kind == g2[o].0
            &&& systems@[o].name@ == display_name(g2[o].0)
            &&& views_of(systems@[o].entries@) == g2[o].1
        } by {
            if o != p {
                assert(systems@[o] == old_sys[o]);
                assert(g2[o] == gs[o]);
            } else if p < old_sys.len() {
                lemma_group_pos(gs, k);
                assert(gs[p as int].0 == k);
                assert(g2[o] == (k, gs[p as int].1.push(e@)));
                assert(systems@[o].kind == old_sys[p as int].kind);
            } else {
                assert(g2[o] == (k, seq![e@]));
            }
        }
    }
    assert(a.take(n4 as int) == a);
    systems
}

/// Build the Boot Graph from raw entries: convert (deriving stable ids),
/// de-duplicate by id (merging), drop entries with nothing to launch and
/// volume-less twins of volume-bearing entries, group by OS family and order
/// each family canonically. All entries attach to one logical disk.
pub fn build_graph(raw: Vec<RawEntry>) -> (g: BootGraph)
    requires
        forall|i: int| 0 <= i < raw@.len() ==> tag_ok(#[trigger] raw@[i]@),
    ensures
        graph_of(raws_view(raw@), g),
{
    let ghost rv = raws_view(raw@);
    let entries = dedup_entries(raw);
    let kept = keep_launchable(entries);
    let finals = drop_volumeless_twins(kept);
    assert(views_of(finals@) == assembled(rv));
    let systems = group_entries(finals);
    let ghost gs = group(assembled(rv));
    let mut g = BootGraph::new();
    let disk = DiskNode { id: DiskId(0), label: "system".to_owned(), systems };
    let ghost pre = disk;
    g.add_disk(disk);
    let ghost before_sort = g.disks@;
    assert(before_sort[0] == pre);
    g.sort_canonical();
    proof {
        reveal_strlit("system");
        assert(g.disks@[0].id == before_sort[0].id);
        assert forall|o: int| 0 <= o < gs.len() implies {
            &&& (#[trigger] g.disks@[0].systems@[o]).kind == gs[o].0
            &&& g.disks@[0].systems@[o].name@ == display_name(gs[o].0)
            &&& views_of(g.disks@[0].systems@[o].entries@) == canonical_sort_v(gs[o].1)
        } by {
            assert(g.disks@[0].systems@[o].kind == pre.systems@[o].kind);
            lemma_sort_view(pre.systems@[o].entries@);
        }
    }
    g
}

} // verus!
