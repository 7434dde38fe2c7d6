//! NixOS bootspec generations (RFC 0125), as Lanzaboote and modern NixOS
//! describe each generation: a generation directory holds `bootspec.json`
//! (or `boot.json`) with the `org.nixos.bootspec.v1` object and optional
//! `org.nixos.specialisation.v1` object of specialisations.
use vstd::prelude::*;
use vstd::utf8::{valid_utf8, decode_utf8, encode_utf8};
use crate::ports::{FileStore, names_each_once, children, stored_at, texts};
use crate::graph::kinds::{OsKind, EntryRole, BootMethod, RoleV};
use crate::discovery::{RawEntry, RawEntryV, raw_new, raws_view, extend_raws};
use crate::discovery::json::{self, Json, JsonV, json_get, json_path, parse_json, json_view};
use crate::text::{dec, is_digit, parse_unsigned, chars_of, string_of, push_dec, extend_str,
    extend_chars, chars_of_string, slice_of, parse_unsigned_exec, str_from_utf8};

verus! {

pub const BOOTSPEC_DIR: &'static str = "\\EFI\\nixos";

pub const V1: &'static str = "org.nixos.bootspec.v1";

pub const SPEC_V1: &'static str = "org.nixos.specialisation.v1";

/// How many digits a text ends with.
pub open spec fn trailing_digits(s: Seq<char>) -> int
    decreases s.len(),
{
    if s.len() > 0 && is_digit(s.last()) {
        1 + trailing_digits(s.drop_last())
    } else {
        0
    }
}

/// The generation number at the end of a directory name (`128`,
/// `nixos-128`, `generation-128`), if it fits a u32.
pub open spec fn generation_number(dir: Seq<char>) -> Option<u32> {
    let n = trailing_digits(dir);
    if n == 0 {
        None
    } else {
        match parse_unsigned(dir.skip(dir.len() - n), 0xffff_ffff) {
            Some(v) => Some(v as u32),
            None => None,
        }
    }
}

/// A store path in EFI form: `/` becomes `\`.
pub open spec fn to_efi(p: Seq<char>) -> Seq<char> {
    p.map_values(|c: char| if c == '/' { '\\' } else { c })
}

/// The text of a JSON string value.
pub open spec fn str_of(j: Option<JsonV>) -> Option<Seq<char>> {
    match j {
        Some(JsonV::Str(s)) => Some(s),
        _ => None,
    }
}

/// The kernel parameters joined by spaces: a space goes before every
/// string but one at position 0 (non-strings are skipped, their positions
/// still count).
pub open spec fn join_params(a: Seq<JsonV>) -> Seq<char>
    decreases a.len(),
{
    if a.len() == 0 {
        seq![]
    } else {
        let rest = join_params(a.drop_last());
        match a.last() {
            JsonV::Str(s) => if a.len() - 1 > 0 {
                rest + seq![' '] + s
            } else {
                rest + s
            },
            _ => rest,
        }
    }
}

/// The entry a bootspec object describes, for generation `gen` and
/// specialisation `spec`; none without a kernel.
pub open spec fn bootspec_entry(bs: JsonV, gen: Option<u32>, spec: Option<Seq<char>>) -> Option<RawEntryV> {
    match str_of(json_get(bs, "kernel"@)) {
        None => None,
        Some(kernel) => {
            let label = match str_of(json_get(bs, "label"@)) {
                Some(l) => l,
                None => "NixOS"@,
            };
            let cmdline = match json_get(bs, "kernelParams"@) {
                Some(JsonV::Arr(a)) => Some(join_params(a)),
                _ => None,
            };
            let (role, title) = match (gen, spec) {
                (Some(g), Some(name)) => (
                    RoleV::Specialisation { parent: g, name },
                    label + " (gen "@ + dec(g as nat) + ", "@ + name + ")"@,
                ),
                (Some(g), None) => (RoleV::Generation(g), label + " (gen "@ + dec(g as nat) + ")"@),
                (None, Some(name)) => (
                    RoleV::Specialisation { parent: 0, name },
                    label + " ("@ + name + ")"@,
                ),
                (None, None) => (RoleV::Default, label),
            };
            Some(RawEntryV {
                kernel: Some(to_efi(kernel)),
                initrd: match str_of(json_get(bs, "initrd"@)) {
                    Some(i) => Some(to_efi(i)),
                    None => None,
                },
                cmdline,
                ..raw_new(OsKind::NixOs, "NixOS"@, title, role, BootMethod::NixGeneration)
            })
        },
    }
}

/// The entries of the specialisations `specs[..]` of a document, in key order.
pub open spec fn spec_entries(specs: Seq<(Seq<char>, JsonV)>, gen: Option<u32>) -> Seq<RawEntryV>
    decreases specs.len(),
{
    if specs.len() == 0 {
        seq![]
    } else {
        let rest = spec_entries(specs.drop_last(), gen);
        match json_path(specs.last().1, seq![V1@]) {
            Some(inner) => match bootspec_entry(inner, gen, Some(specs.last().0)) {
                Some(e) => rest.push(e),
                None => rest,
            },
            None => rest,
        }
    }
}

/// The base generation entry and any specialisations of one document.
pub open spec fn doc_entries(doc: JsonV, gen: Option<u32>) -> Seq<RawEntryV> {
    let base: Seq<RawEntryV> = match json_path(doc, seq![V1@]) {
        Some(b) => match bootspec_entry(b, gen, None) {
            Some(e) => seq![e],
            None => seq![],
        },
        None => seq![],
    };
    let specs: Seq<RawEntryV> = match json_get(doc, SPEC_V1@) {
        Some(JsonV::Obj(m)) => spec_entries(m, gen),
        _ => seq![],
    };
    base + specs
}

/// The generation a directory name carries: `generation-128` or `128`.
pub fn generation_of(dir: &str) -> (r: Option<u32>)
    ensures
        r == generation_number(dir@),
{
    let cs = chars_of(dir);
    let mut n: usize = 0;
    assert(cs@.take(cs@.len() as int) == cs@);
    while n < cs.len() && '0' <= cs[cs.len() - 1 - n] && cs[cs.len() - 1 - n] <= '9'
        invariant
            n <= cs@.len(),
            cs@ == dir@,
            trailing_digits(cs@) == n + trailing_digits(cs@.take(cs@.len() - n)),
        decreases cs@.len() - n,
    {
        let ghost t = cs@.take(cs@.len() - n);
        assert(t.last() == cs@[cs@.len() - 1 - n]);
        assert(t.drop_last() == cs@.take(cs@.len() - n - 1));
        n = n + 1;
    }
    proof {
        let t = cs@.take(cs@.len() - n);
        if n < cs@.len() {
            assert(t.last() == cs@[cs@.len() - 1 - n]);
        }
    }
    if n == 0 {
        return None;
    }
    let tail = slice_of(&cs, cs.len() - n, cs.len());
    assert(tail@ == cs@.skip(cs@.len() - n));
    match parse_unsigned_exec(&tail, 0xffff_ffff) {
        Some(v) => Some(v as u32),
        None => None,
    }
}

fn to_efi_exec(p: &str) -> (r: String)
    ensures
        r@ == to_efi(p@),
{
    let cs = chars_of(p);
    let mut s: Vec<char> = Vec::new();
    let mut i: usize = 0;
    while i < cs.len()
        invariant
            i <= cs@.len(),
            cs@ == p@,
            s@ == cs@.take(i as int).map_values(|c: char| if c == '/' { '\\' } else { c }),
        decreases cs@.len() - i,
    {
        let c = cs[i];
        s.push(if c == '/' { '\\' } else { c });
        i = i + 1;
        assert(s@ =~= cs@.take(i as int).map_values(|c: char| if c == '/' { '\\' } else { c }));
    }
    assert(cs@.take(i as int) == cs@);
    string_of(&s)
}

fn str_value(j: Option<&Json>) -> (r: Option<&str>)
    ensures
        match str_of(match j {
            Some(x) => Some(x@),
            None => None,
        }) {
            Some(s) => r matches Some(x) && x@ == s,
            None => r is None,
        },
{
    match j {
        Some(x) => x.as_str(),
        None => None,
    }
}

fn join_params_exec(a: &[Json]) -> (r: Vec<char>)
    ensures
        r@ == join_params(a@.map_values(|j: Json| j@)),
{
    let ghost av = a@.map_values(|j: Json| j@);
    let mut s: Vec<char> = Vec::new();
    let mut i: usize = 0;
    while i < a.len()
        invariant
            i <= a@.len(),
            av == a@.map_values(|j: Json| j@),
            s@ == join_params(av.take(i as int)),
        decreases a@.len() - i,
    {
        assert(av.take(i + 1).drop_last() == av.take(i as int));
        assert(av.take(i + 1).last() == a@[i as int]@);
        if let Some(ps) = a[i].as_str() {
            if i > 0 {
                s.push(' ');
            }
            let ghost before = s@;
            extend_str(&mut s, ps);
        }
        i = i + 1;
    }
    assert(av.take(i as int) == av);
    s
}

fn entry_from_bootspec(bs: &Json, gen: Option<u32>, spec: Option<&String>) -> (r: Option<RawEntry>)
    ensures
        match bootspec_entry(bs@, gen, match spec {
            Some(n) => Some(n@),
            None => None,
        }) {
            Some(e) => r matches Some(x) && x@ == e,
            None => r is None,
        },
{
    proof {
        reveal_strlit("NixOS");
    }
    let kernel = match str_value(bs.get("kernel")) {
        Some(k) => k,
        None => return None,
    };
    let initrd = str_value(bs.get("initrd"));
    let label: &str = match str_value(bs.get("label")) {
        Some(l) => l,
        None => "NixOS",
    };
    let cmdline = match bs.get("kernelParams") {
        Some(j) => match j.as_array() {
            Some(arr) => {
                let js = join_params_exec(arr);
                assert(arr@.map_values(|j: Json| j@) =~= match j@ {
                    JsonV::Arr(a) => a,
                    _ => Seq::empty(),
                });
                Some(string_of(&js))
            },
            None => None,
        },
        None => None,
    };
    let mut t: Vec<char> = chars_of(label);
    let role = match (gen, spec) {
        (Some(g), Some(name)) => {
            extend_str(&mut t, " (gen ");
            push_dec(&mut t, g as u64);
            extend_str(&mut t, ", ");
            extend_str(&mut t, name.as_str());
            extend_str(&mut t, ")");
            EntryRole::Specialisation { parent: g, name: name.clone() }
        },
        (Some(g), None) => {
            extend_str(&mut t, " (gen ");
            push_dec(&mut t, g as u64);
            extend_str(&mut t, ")");
            EntryRole::Generation(g)
        },
        (None, Some(name)) => {
            extend_str(&mut t, " (");
            extend_str(&mut t, name.as_str());
            extend_str(&mut t, ")");
            EntryRole::Specialisation { parent: 0, name: name.clone() }
        },
        (None, None) => EntryRole::Default,
    };
    let mut e = RawEntry::new(OsKind::NixOs, "NixOS", string_of(&t).as_str(), role, BootMethod::NixGeneration);
    e.kernel = Some(to_efi_exec(kernel));
    e.initrd = match initrd {
        Some(i) => Some(to_efi_exec(i)),
        None => None,
    };
    e.cmdline = cmdline;
    Some(e)
}

fn push_entry(out: &mut Vec<RawEntry>, e: Option<RawEntry>)
    ensures
        raws_view(final(out)@) == match e {
            Some(x) => raws_view(old(out)@).push(x@),
            None => raws_view(old(out)@),
        },
{
    match e {
        Some(x) => {
            out.push(x);
            assert(raws_view(out@) =~= raws_view(old(out)@).push(x@));
        },
        None => {},
    }
}

/// Add the base generation entry and any specialisations of one document.
fn collect(doc: &Json, gen: Option<u32>, out: &mut Vec<RawEntry>)
    ensures
        raws_view(final(out)@) == raws_view(old(out)@) + doc_entries(doc@, gen),
{
    let v1: [&str; 1] = [V1];
    assert(v1@.map_values(|k: &str| k@) =~= seq![V1@]);
    let ghost start = raws_view(out@);
    match doc.path(v1.as_slice()) {
        Some(base) => {
            let e = entry_from_bootspec(base, gen, None);
            push_entry(out, e);
        },
        None => {},
    }
    let ghost after_base = raws_view(out@);
    assert(after_base == start + match json_path(doc@, seq![V1@]) {
        Some(b) => match bootspec_entry(b, gen, None) {
            Some(e) => seq![e],
            None => seq![],
        },
        None => seq![],
    });
    match doc.get(SPEC_V1) {
        Some(Json::Obj(specs)) => {
            let ghost sv = match json_view(Json::Obj(*specs)) {
                JsonV::Obj(m) => m,
                _ => Seq::empty(),
            };
            let mut i: usize = 0;
            while i < specs.len()
                invariant
                    i <= specs@.len(),
                    sv == match json_view(Json::Obj(*specs)) {
                        JsonV::Obj(m) => m,
                        _ => Seq::empty(),
                    },
                    raws_view(out@) == after_base + spec_entries(sv.take(i as int), gen),
                    v1@.map_values(|k: &str| k@) == seq![V1@],
                decreases specs@.len() - i,
            {
                assert(sv.take(i + 1).drop_last() == sv.take(i as int));
                assert(sv.take(i + 1).last() == (specs@[i as int].0@, specs@[i as int].1@));
                let (name, sdoc) = &specs[i];
                let ghost before = raws_view(out@);
                match sdoc.path(v1.as_slice()) {
                    Some(inner) => {
                        let e = entry_from_bootspec(inner, gen, Some(name));
                        push_entry(out, e);
                    },
                    None => {},
                }
                assert(raws_view(out@) =~= after_base + spec_entries(sv.take(i + 1), gen));
                i = i + 1;
            }
            assert(sv.take(i as int) == sv);
        },
        _ => {},
    }
}

/// `\EFI\nixos\<dir>\<file>`.
pub open spec fn spec_path(dir: Seq<char>, file: Seq<char>) -> Seq<char> {
    "\\EFI\\nixos"@ + seq!['\\'] + dir + seq!['\\'] + file
}

/// The contents read for generation directory `dir`: the first of
/// `bootspec.json`, `boot.json` whose read succeeded.
pub open spec fn spec_read(files: Map<Seq<char>, Seq<u8>>, dir: Seq<char>, r: Option<Seq<u8>>) -> bool {
    let p1 = spec_path(dir, "bootspec.json"@);
    let p2 = spec_path(dir, "boot.json"@);
    &&& r matches Some(b) ==> (files.contains_key(p1) && files[p1] == b) || (files.contains_key(p2) && files[p2] == b)
    &&& (!files.contains_key(p1) && !files.contains_key(p2)) ==> r is None
}

/// The bootspec a volume holding `files` has for generation directory
/// `dir`: `bootspec.json`, else `boot.json`, else nothing.
pub open spec fn bootspec_of(files: Map<Seq<char>, Seq<u8>>, dir: Seq<char>) -> Option<Seq<u8>> {
    match stored_at(files, spec_path(dir, "bootspec.json"@)) {
        Some(b) => Some(b),
        None => stored_at(files, spec_path(dir, "boot.json"@)),
    }
}

/// The entries of some generation directories whose bootspec contents were
/// read (none where no read succeeded), in order.
pub open spec fn gen_entries(dirs: Seq<Seq<char>>, reads: Seq<Option<Seq<u8>>>) -> Seq<RawEntryV>
    decreases dirs.len(),
{
    if dirs.len() == 0 || reads.len() == 0 {
        seq![]
    } else {
        let rest = gen_entries(dirs.drop_last(), reads.drop_last());
        match reads.last() {
            Some(b) => match parse_json(b) {
                Some(doc) => if valid_utf8(b) {
                    rest + doc_entries(doc, generation_number(dirs.last()))
                } else {
                    rest
                },
                None => rest,
            },
            None => rest,
        }
    }
}

fn spec_path_exec(dir: &str, file: &str) -> (r: String)
    ensures
        r@ == spec_path(dir@, file@),
{
    let mut s: Vec<char> = Vec::new();
    extend_str(&mut s, BOOTSPEC_DIR);
    s.push('\\');
    extend_str(&mut s, dir);
    s.push('\\');
    extend_str(&mut s, file);
    assert(s@ =~= spec_path(dir@, file@));
    string_of(&s)
}

proof fn lemma_gen_entries_push(dirs: Seq<Seq<char>>, reads: Seq<Option<Seq<u8>>>, d: Seq<char>, rd: Option<Seq<u8>>)
    requires
        dirs.len() == reads.len(),
    ensures
        gen_entries(dirs.push(d), reads.push(rd)) == gen_entries(dirs, reads) + gen_entries(seq![d], seq![rd]),
{
    assert(dirs.push(d).drop_last() =~= dirs);
    assert(reads.push(rd).drop_last() =~= reads);
    assert(seq![d].drop_last() =~= Seq::<Seq<char>>::empty());
    assert(seq![rd].drop_last() =~= Seq::<Option<Seq<u8>>>::empty());
    let e = gen_entries(Seq::<Seq<char>>::empty(), Seq::<Option<Seq<u8>>>::empty());
    assert(e =~= Seq::<RawEntryV>::empty());
    assert(gen_entries(dirs, reads) + e =~= gen_entries(dirs, reads));
    assert forall|x: Seq<RawEntryV>| #![auto] gen_entries(dirs, reads) + (e + x) =~= gen_entries(dirs, reads) + x by {}
}

/// The entries of one generation directory `dir` whose bootspec file holds
/// `bytes`: none unless it is UTF-8 JSON; else the generation (numbered by
/// the directory's name) and its specialisations, as [`doc_entries`] says.
pub fn generation_entries(dir: &str, bytes: &[u8]) -> (r: Vec<RawEntry>)
    ensures
        raws_view(r@) == gen_entries(seq![dir@], seq![Some(bytes@)]),
{
    let mut out: Vec<RawEntry> = Vec::new();
    let ghost empty = gen_entries(Seq::<Seq<char>>::empty(), Seq::<Option<Seq<u8>>>::empty());
    assert(seq![dir@].drop_last() =~= Seq::<Seq<char>>::empty());
    assert(seq![Some(bytes@)].drop_last() =~= Seq::<Option<Seq<u8>>>::empty());
    assert(raws_view(out@) =~= empty);
    match str_from_utf8(bytes) {
        Some(text) => {
            proof {
                vstd::utf8::decode_utf8_encode_utf8(bytes@);
            }
            match json::parse(text) {
                Ok(doc) => {
                    let g = generation_of(dir);
                    collect(&doc, g, &mut out);
                    assert(raws_view(out@) =~= empty + doc_entries(doc@, generation_number(dir@)));
                },
                Err(_) => {},
            }
        },
        None => {},
    }
    out
}

/// What the bootspec source can give for a volume holding `files`: the
/// entries of some listed generation directories, each parsed from what
/// reading its bootspec gave.
pub open spec fn bootspec_result(files: Map<Seq<char>, Seq<u8>>, r: Seq<RawEntryV>) -> bool {
    exists|dirs: Seq<Seq<char>>, reads: Seq<Option<Seq<u8>>>|
        {
            &&& dirs.len() == reads.len()
            &&& forall|i: int| 0 <= i < dirs.len() ==> spec_read(files, #[trigger] dirs[i], reads[i])
            &&& r == gen_entries(dirs, reads)
        }
}

/// What the bootspec source gives for a volume holding `files` whose store
/// never fails: the entries of every listed generation directory, each
/// parsed from its bootspec.
pub open spec fn bootspec_exact(files: Map<Seq<char>, Seq<u8>>, r: Seq<RawEntryV>) -> bool {
    exists|names: Seq<String>|
        {
            &&& names_each_once(names, children(files, BOOTSPEC_DIR@))
            &&& r == gen_entries(texts(names), texts(names).map_values(|d: Seq<char>| bootspec_of(files, d)))
        }
}

/// Scan `\EFI\nixos` for generation directories: what the store lists
/// there is read and parsed as [`gen_entries`] says.
pub fn discover<F: FileStore>(fs: &F) -> (r: Vec<RawEntry>)
    ensures
        fs.modelled() ==> (bootspec_result(fs.files(), raws_view(r@))),
        fs.modelled() ==> (fs.never_fails() ==> bootspec_exact(fs.files(), raws_view(r@))),
{
    let mut out: Vec<RawEntry> = Vec::new();
    let names = match fs.list_dir(BOOTSPEC_DIR) {
        Ok(n) => n,
        Err(_) => {
            assert(raws_view(out@) =~= gen_entries(Seq::empty(), Seq::empty()));
            proof {
                if fs.never_fails() {
                    let e: Seq<String> = seq![];
                    assert(children(fs.files(), BOOTSPEC_DIR@) =~= Set::empty());
                    assert(texts(e) =~= Seq::<Seq<char>>::empty());
                    assert(names_each_once(e, children(fs.files(), BOOTSPEC_DIR@)));
                }
            }
            return out;
        },
    };
    let ghost nv = names@.map_values(|s: String| s@);
    let ghost mut reads: Seq<Option<Seq<u8>>> = seq![];
    let mut i: usize = 0;
    while i < names.len()
        invariant
            i <= names@.len(),
            nv == names@.map_values(|s: String| s@),
            reads.len() == i,
            fs.modelled() ==> forall|k: int| 0 <= k < i ==> spec_read(fs.files(), #[trigger] nv[k], reads[k]),
            raws_view(out@) == gen_entries(nv.take(i as int), reads),
            fs.modelled() && fs.never_fails() ==> reads == nv.take(i as int).map_values(
                |d: Seq<char>| bootspec_of(fs.files(), d),
            ),
        decreases names@.len() - i,
    {
        let name = names[i].as_str();
        assert(nv[i as int] == name@);
        assert(nv.take(i + 1).drop_last() == nv.take(i as int));
        assert(nv.take(i + 1).last() == name@);
        let ghost old_reads = reads;
        let ghost before = raws_view(out@);
        let p1 = spec_path_exec(name, "bootspec.json");
        let p2 = spec_path_exec(name, "boot.json");
        let got = match fs.read(p1.as_str()) {
            Ok(b) => Some(b),
            Err(_) => match fs.read(p2.as_str()) {
                Ok(b) => Some(b),
                Err(_) => None,
            },
        };
        let ghost gv = match &got {
            Some(b) => Some(b@),
            None => None,
        };
        proof {
            reveal_strlit("bootspec.json");
            reveal_strlit("boot.json");
            reads = reads.push(gv);
            assert(reads.drop_last() == old_reads);
            if fs.modelled() && fs.never_fails() {
                assert(gv == bootspec_of(fs.files(), name@));
                assert(nv.take(i + 1) =~= nv.take(i as int).push(name@));
                assert(reads =~= nv.take(i + 1).map_values(|d: Seq<char>| bootspec_of(fs.files(), d)));
            }
        }
        match got {
            Some(bytes) => {
                let found = generation_entries(name, bytes.as_slice());
                proof {
                    lemma_gen_entries_push(nv.take(i as int), old_reads, name@, Some(bytes@));
                    assert(nv.take(i + 1) =~= nv.take(i as int).push(name@));
                }
                extend_raws(&mut out, found);
            },
            None => {},
        }
        i = i + 1;
    }
    assert(nv.take(i as int) == nv);
    assert(texts(names@) == nv);
    out
}

} // verus!
