//! Running the sources: the filesystem sources against one volume, and the
//! firmware variables plus every volume into one Boot Graph.
use vstd::prelude::*;
use crate::ports::{VarStore, FileStore, VarNamespace};
use crate::discovery::{RawEntry, RawEntryV, raws_view, extend_raws};
use crate::discovery::{esp, distros, bls, bootspec, variables, refine};
use crate::discovery::esp::{esp_result, esp_entries, media_name};
use crate::discovery::distros::{distros_result, distros_exact};
use crate::discovery::bls::{bls_result, bls_exact};
use crate::discovery::bootspec::{bootspec_result, bootspec_exact};
use crate::discovery::refine::{refined, kernel_reads, refine_methods, kernel_of};
use crate::discovery::variables::{vars_result, vars_exact};
use crate::discovery::assemble::{build_graph, graph_of, tag_ok, byte_tail};
use crate::graph::BootGraph;
use crate::text::contains_seq;

verus! {

/// An entry tagged with the volume it was scanned on (the sources leave
/// the volume unset).
pub open spec fn tagged(e: RawEntryV, vol: Option<Seq<char>>) -> RawEntryV {
    RawEntryV { volume: vol, ..e }
}

/// What the filesystem sources give for one volume: the ESP probe,
/// distribution directories, BLS entries and bootspec generations, in that
/// order, each as its own result says, then refined by peeking kernels and
/// tagged with the volume.
pub open spec fn volume_result(files: Map<Seq<char>, Seq<u8>>, label: Option<Seq<char>>, vol: Option<Seq<char>>, r: Seq<RawEntryV>) -> bool {
    exists|a: Seq<RawEntryV>, b: Seq<RawEntryV>, c: Seq<RawEntryV>, d: Seq<RawEntryV>, reads: Seq<Option<Seq<u8>>>|
        {
            &&& esp_result(files, label, a)
            &&& distros_result(files, b)
            &&& bls_result(files, c)
            &&& bootspec_result(files, d)
            &&& kernel_reads(files, a + b + c + d, reads)
            &&& r.len() == (a + b + c + d).len()
            &&& forall|i: int| 0 <= i < r.len() ==> #[trigger] r[i] == tagged(refined((a + b + c + d)[i], reads[i]), vol)
        }
}

/// What the filesystem sources give for one volume whose store never
/// fails: the ESP probe naming the fallback from all the files, then the
/// distribution, BLS and bootspec entries of everything listed, each
/// refined by the kernel file it names and tagged with the volume.
pub open spec fn volume_exact(files: Map<Seq<char>, Seq<u8>>, label: Option<Seq<char>>, vol: Option<Seq<char>>, r: Seq<RawEntryV>) -> bool {
    exists|b: Seq<RawEntryV>, c: Seq<RawEntryV>, d: Seq<RawEntryV>|
        {
            &&& distros_exact(files, b)
            &&& bls_exact(files, c)
            &&& bootspec_exact(files, d)
            &&& r.len() == (esp_entries(files, media_name(files, label)) + b + c + d).len()
            &&& forall|i: int|
                0 <= i < r.len() ==> #[trigger] r[i] == tagged(
                    refined(
                        (esp_entries(files, media_name(files, label)) + b + c + d)[i],
                        kernel_of(files, (esp_entries(files, media_name(files, label)) + b + c + d)[i]),
                    ),
                    vol,
                )
        }
}

/// Run the filesystem sources against one volume, tagging every entry with
/// `volume_id`.
pub fn scan_volume<F: FileStore>(fs: &F, volume_id: Option<&str>) -> (r: Vec<RawEntry>)
    ensures
        fs.modelled() ==> (volume_result(fs.files(), fs.label(), match volume_id {
                Some(v) => Some(v@),
                None => None,
            }, raws_view(r@))),
        fs.modelled() ==> (fs.never_fails() ==> volume_exact(fs.files(), fs.label(), match volume_id {
                Some(v) => Some(v@),
                None => None,
            }, raws_view(r@))),
        forall|i: int| 0 <= i < r@.len() ==> (#[trigger] r@[i])@.volume == match volume_id {
            Some(v) => Some(v@),
            None => None::<Seq<char>>,
        },
{
    let mut raw: Vec<RawEntry> = Vec::new();
    let a = esp::discover(fs);
    let ghost av = raws_view(a@);
    extend_raws(&mut raw, a);
    let b = distros::discover(fs);
    let ghost bv = raws_view(b@);
    extend_raws(&mut raw, b);
    let c = bls::discover(fs);
    let ghost cv = raws_view(c@);
    extend_raws(&mut raw, c);
    let d = bootspec::discover(fs);
    let ghost dv = raws_view(d@);
    extend_raws(&mut raw, d);
    assert(raws_view(raw@) =~= av + bv + cv + dv);
    let ghost all = raws_view(raw@);
    let mut out = refine_methods(raw, fs);
    let ghost reads = choose|reads: Seq<Option<Seq<u8>>>|
        kernel_reads(fs.files(), all, reads) && forall|i: int|
            0 <= i < all.len() ==> (#[trigger] out@[i])@ == refined(all[i], reads[i]);
    let ghost vv = match volume_id {
        Some(v) => Some(v@),
        None => None,
    };
    proof {
        if fs.modelled() && fs.never_fails() {
            assert forall|k: int| 0 <= k < all.len() implies refined(all[k], reads[k]) == refined(
                all[k],
                kernel_of(fs.files(), all[k]),
            ) by {
                assert(out@[k]@ == refined(all[k], reads[k]));
                assert(raws_view(raw@)[k] == all[k]);
            }
        }
    }
    let mut i: usize = 0;
    while i < out.len()
        invariant
            i <= out@.len(),
            out@.len() == all.len(),
            vv == match volume_id {
                Some(v) => Some(v@),
                None => None::<Seq<char>>,
            },
            forall|k: int| 0 <= k < i ==> (#[trigger] out@[k])@.volume == vv,
            fs.modelled() ==> forall|k: int|
                0 <= k < i ==> (#[trigger] out@[k])@ == tagged(refined(all[k], reads[k]), vv),
            fs.modelled() ==> forall|k: int|
                i <= k < out@.len() ==> (#[trigger] out@[k])@ == refined(all[k], reads[k]),
            fs.modelled() && fs.never_fails() ==> forall|k: int|
                0 <= k < all.len() ==> refined(all[k], reads[k]) == refined(
                    all[k],
                    #[trigger] kernel_of(fs.files(), all[k]),
                ),
        decreases out@.len() - i,
    {
        let ghost before = out@;
        let mut e = out.remove(i);
        assert(e == before[i as int]);
        let vol: Option<String> = match volume_id {
            Some(v) => Some(v.to_owned()),
            None => None,
        };
        assert(crate::discovery::ostr(vol) == vv);
        e.volume = vol;
        assert(e@ == tagged(before[i as int]@, vv));
        out.insert(i, e);
        assert(out@ =~= before.update(i as int, e));
        assert(out@[i as int]@.volume == vv);
        i = i + 1;
    }
    proof {
        assert(forall|k: int| 0 <= k < out@.len() ==> #[trigger] raws_view(out@)[k] == out@[k]@);
        if fs.modelled() {
            assert(kernel_reads(fs.files(), av + bv + cv + dv, reads));
        }
        if fs.modelled() && fs.never_fails() {
            assert(av == esp_entries(fs.files(), media_name(fs.files(), fs.label())));
            assert(distros_exact(fs.files(), bv));
            assert(bls_exact(fs.files(), cv));
            assert(bootspec_exact(fs.files(), dv));
            assert forall|k: int| 0 <= k < raws_view(out@).len() implies #[trigger] raws_view(out@)[k] == tagged(
                refined(
                    (esp_entries(fs.files(), media_name(fs.files(), fs.label())) + bv + cv + dv)[k],
                    kernel_of(fs.files(), (esp_entries(fs.files(), media_name(fs.files(), fs.label())) + bv + cv + dv)[k]),
                ),
                vv,
            ) by {
                assert(raws_view(out@)[k] == out@[k]@);
                assert(all[k] == (av + bv + cv + dv)[k]);
            }
        }
    }
    out
}

/// Entries that carry no volume are all tagged as they should be.
proof fn lemma_raws_unscoped(r: Seq<RawEntry>)
    requires
        forall|i: int| 0 <= i < r.len() ==> (#[trigger] r[i])@.volume is None,
    ensures
        all_tagged(raws_view(r)),
{
    assert forall|k: int| 0 <= k < raws_view(r).len() implies tag_ok(#[trigger] raws_view(r)[k]) by {
        assert(raws_view(r)[k] == r[k]@);
    }
}

pub open spec fn all_tagged(s: Seq<RawEntryV>) -> bool {
    forall|k: int| 0 <= k < s.len() ==> tag_ok(#[trigger] s[k])
}

/// Some result the scan of a volume holding `files` may give has an entry
/// titled as a fallback loader, whose title then carries the end of the
/// volume id `vol`.
pub open spec fn may_tag(files: Map<Seq<char>, Seq<u8>>, label: Option<Seq<char>>, vol: Seq<char>) -> bool {
    exists|r: Seq<RawEntryV>|
        #[trigger] volume_result(files, label, Some(vol), r) && exists|j: int|
            0 <= j < r.len() && contains_seq(#[trigger] r[j].title, "Fallback Loader"@)
}

proof fn lemma_tagged_append(a: Seq<RawEntryV>, b: Seq<RawEntryV>, vol: Option<Seq<char>>)
    requires
        all_tagged(a),
        forall|j: int| 0 <= j < b.len() ==> (#[trigger] b[j]).volume == vol,
        vol is Some ==> byte_tail(vol->0, 6) is Some || forall|j: int|
            0 <= j < b.len() ==> !contains_seq(#[trigger] b[j].title, "Fallback Loader"@),
    ensures
        all_tagged(a + b),
{
    assert forall|k: int| 0 <= k < (a + b).len() implies tag_ok(#[trigger] (a + b)[k]) by {
        if k >= a.len() {
            assert((a + b)[k] == b[k - a.len()]);
        }
    }
}

proof fn lemma_tagged_raws(r: Seq<RawEntry>)
    requires
        all_tagged(raws_view(r)),
    ensures
        forall|k: int| 0 <= k < r.len() ==> tag_ok(#[trigger] r[k]@),
{
    assert forall|k: int| 0 <= k < r.len() implies tag_ok(#[trigger] r[k]@) by {
        assert(raws_view(r)[k] == r[k]@);
    }
}

proof fn lemma_scanned_volumes(r: Seq<RawEntry>, vol: Option<Seq<char>>)
    requires
        forall|i: int| 0 <= i < r.len() ==> (#[trigger] r[i])@.volume == vol,
    ensures
        forall|j: int| 0 <= j < raws_view(r).len() ==> (#[trigger] raws_view(r)[j]).volume == vol,
{
    assert forall|j: int| 0 <= j < raws_view(r).len() implies (#[trigger] raws_view(r)[j]).volume == vol by {
        assert(raws_view(r)[j] == r[j]@);
    }
}

/// Run every source against the firmware variables and one ESP file store,
/// and assemble the Boot Graph; the entries carry no volume.
pub fn discover<V: VarStore, F: FileStore>(vars: &V, esp_fs: &F) -> (g: BootGraph)
    ensures
        exists|v: Seq<RawEntryV>, s: Seq<RawEntryV>|
            {
                &&& vars.modelled() ==> vars_result(vars.vars(VarNamespace::Global), v)
                &&& vars.modelled() && vars.never_fails() ==> vars_exact(vars.vars(VarNamespace::Global), v)
                &&& esp_fs.modelled() ==> volume_result(esp_fs.files(), esp_fs.label(), None, s)
                &&& esp_fs.modelled() && esp_fs.never_fails() ==> volume_exact(
                    esp_fs.files(),
                    esp_fs.label(),
                    None,
                    s,
                )
                &&& graph_of(v + s, g)
            },
{
    let mut raw = variables::discover(vars);
    let ghost v = raws_view(raw@);
    let s = scan_volume(esp_fs, None);
    proof {
        lemma_raws_unscoped(raw@);
        lemma_scanned_volumes(s@, None);
        lemma_tagged_append(v, raws_view(s@), None);
    }
    let ghost sv = raws_view(s@);
    extend_raws(&mut raw, s);
    proof {
        lemma_tagged_raws(raw@);
    }
    build_graph(raw)
}

/// Scan the firmware variables once, then every volume, tagging each
/// filesystem entry with the id of the volume it came from, and assemble
/// one Boot Graph. A volume whose scan may yield a fallback loader must have
/// an id whose last six bytes start on a character boundary, since that
/// entry's title is tagged with them.
pub fn discover_multi<V: VarStore, F: FileStore>(vars: &V, volumes: &[(String, &F)]) -> (g: BootGraph)
    requires
        forall|i: int|
            0 <= i < volumes@.len() ==> byte_tail((#[trigger] volumes@[i]).0@, 6) is Some || (
            volumes@[i].1.modelled() && !may_tag(
                volumes@[i].1.files(),
                volumes@[i].1.label(),
                volumes@[i].0@,
            )),
    ensures
        exists|v: Seq<RawEntryV>, parts: Seq<Seq<RawEntryV>>|
            {
                &&& vars.modelled() ==> vars_result(vars.vars(VarNamespace::Global), v)
                &&& vars.modelled() && vars.never_fails() ==> vars_exact(vars.vars(VarNamespace::Global), v)
                &&& parts.len() == volumes@.len()
                &&& forall|i: int|
                    0 <= i < parts.len() && volumes@[i].1.modelled() ==> volume_result(
                        volumes@[i].1.files(),
                        volumes@[i].1.label(),
                        Some(volumes@[i].0@),
                        #[trigger] parts[i],
                    )
                &&& forall|i: int|
                    0 <= i < parts.len() && volumes@[i].1.modelled() && volumes@[i].1.never_fails()
                        ==> volume_exact(
                        volumes@[i].1.files(),
                        volumes@[i].1.label(),
                        Some(volumes@[i].0@),
                        #[trigger] parts[i],
                    )
                &&& graph_of(v + parts.flatten(), g)
            },
{
    let mut raw = variables::discover(vars);
    let ghost v = raws_view(raw@);
    let ghost mut parts: Seq<Seq<RawEntryV>> = Seq::empty();
    proof {
        lemma_raws_unscoped(raw@);
        assert(v + parts.flatten() =~= v);
    }
    let mut i: usize = 0;
    while i < volumes.len()
        invariant
            i <= volumes@.len(),
            forall|k: int|
                0 <= k < volumes@.len() ==> byte_tail((#[trigger] volumes@[k]).0@, 6) is Some || (
                volumes@[k].1.modelled() && !may_tag(
                    volumes@[k].1.files(),
                    volumes@[k].1.label(),
                    volumes@[k].0@,
                )),
            parts.len() == i,
            forall|k: int|
                0 <= k < i && volumes@[k].1.modelled() ==> volume_result(
                    volumes@[k].1.files(),
                    volumes@[k].1.label(),
                    Some(volumes@[k].0@),
                    #[trigger] parts[k],
                ),
            forall|k: int|
                0 <= k < i && volumes@[k].1.modelled() && volumes@[k].1.never_fails() ==> volume_exact(
                    volumes@[k].1.files(),
                    volumes@[k].1.label(),
                    Some(volumes@[k].0@),
                    #[trigger] parts[k],
                ),
            vars.modelled() && vars.never_fails() ==> vars_exact(vars.vars(VarNamespace::Global), v),
            vars.modelled() ==> vars_result(vars.vars(VarNamespace::Global), v),
            raws_view(raw@) == v + parts.flatten(),
            all_tagged(raws_view(raw@)),
        decreases volumes@.len() - i,
    {
        let (id, fs) = &volumes[i];
        let s = scan_volume(*fs, Some(id.as_str()));
        let ghost sv = raws_view(s@);
        proof {
            lemma_scanned_volumes(s@, Some(id@));
            if byte_tail(id@, 6) is None {
                assert(!may_tag(fs.files(), fs.label(), id@));
                assert(volume_result(fs.files(), fs.label(), Some(id@), sv));
                assert forall|j: int| 0 <= j < sv.len() implies !contains_seq(
                    #[trigger] sv[j].title,
                    "Fallback Loader"@,
                ) by {
                    if contains_seq(sv[j].title, "Fallback Loader"@) {
                        assert(may_tag(fs.files(), fs.label(), id@));
                    }
                }
            }
            lemma_tagged_append(raws_view(raw@), sv, Some(id@));
        }
        extend_raws(&mut raw, s);
        proof {
            parts.lemma_flatten_push(sv);
            assert(v + parts.push(sv).flatten() =~= (v + parts.flatten()) + sv);
            parts = parts.push(sv);
        }
        i = i + 1;
    }
    proof {
        lemma_tagged_raws(raw@);
    }
    build_graph(raw)
}

} // verus!
