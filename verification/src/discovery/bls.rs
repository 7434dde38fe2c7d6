//! Boot Loader Specification Type #1 entries: the `\loader\entries\*.conf`
//! format of systemd-boot and others. Each `.conf` is a set of `key value`
//! lines; `title`, `version`, `linux`, `initrd` and `options` are read.
//! Parsing is total: a malformed file is skipped.
use vstd::prelude::*;
use vstd::utf8::{valid_utf8, decode_utf8};
use crate::ports::{FileStore, names_each_once, children, stored_at, texts};
use crate::graph::kinds::{OsKind, EntryRole, BootMethod, RoleV};
use crate::discovery::{RawEntry, RawEntryV, raw_new, raws_view};
use crate::text::{lines, trim, is_ws, starts_with, ends_with, contains_seq, parse_unsigned,
    is_digit, chars_of, string_of, lines_chars, views, trim_chars, is_ws_exec, slice_of, eq_chars,
    starts_with_chars, ends_with_chars, contains_chars, parse_unsigned_exec, extend_str,
    extend_chars, str_from_utf8, chars_of_string};

verus! {

pub const ENTRIES_DIR: &'static str = "\\loader\\entries";

/// The keys of a conf read so far.
pub struct Conf {
    pub title: Option<Seq<char>>,
    pub version: Option<Seq<char>>,
    pub linux: Option<Seq<char>>,
    pub initrd: Option<Seq<char>>,
    pub options: Option<Seq<char>>,
}

/// The first whitespace position of a line.
pub open spec fn first_ws(l: Seq<char>) -> Option<int>
    decreases l.len(),
{
    if l.len() == 0 {
        None
    } else if is_ws(l[0]) {
        Some(0)
    } else {
        match first_ws(l.drop_first()) {
            Some(i) => Some(i + 1),
            None => None,
        }
    }
}

/// BLS paths are ESP-relative with `/`; in EFI form they use `\` and start
/// with one.
pub open spec fn to_efi_path(p: Seq<char>) -> Seq<char> {
    let s = p.map_values(|c: char| if c == '/' { '\\' } else { c });
    if s.len() > 0 && s[0] == '\\' {
        s
    } else {
        seq!['\\'] + s
    }
}

/// One line's effect on what a conf says (a later key wins).
pub open spec fn conf_step(st: Conf, raw: Seq<char>) -> Conf {
    let l = trim(raw);
    if l.len() == 0 || l[0] == '#' {
        st
    } else {
        match first_ws(l) {
            None => st,
            Some(w) => {
                let key = l.take(w);
                let val = trim(l.skip(w + 1));
                if key == "title"@ {
                    Conf { title: Some(val), ..st }
                } else if key == "version"@ {
                    Conf { version: Some(val), ..st }
                } else if key == "linux"@ {
                    Conf { linux: Some(to_efi_path(val)), ..st }
                } else if key == "initrd"@ {
                    Conf { initrd: Some(to_efi_path(val)), ..st }
                } else if key == "options"@ {
                    Conf { options: Some(val), ..st }
                } else {
                    st
                }
            },
        }
    }
}

pub open spec fn conf_fold(ls: Seq<Seq<char>>) -> Conf
    decreases ls.len(),
{
    if ls.len() == 0 {
        Conf { title: None, version: None, linux: None, initrd: None, options: None }
    } else {
        conf_step(conf_fold(ls.drop_last()), ls.last())
    }
}

/// The generation number a NixOS `version` line starts with
/// ("Generation 23 NixOS ..." gives 23).
pub open spec fn nixos_generation(version: Seq<char>) -> Option<u32> {
    if starts_with(version, "Generation "@) {
        let rest = version.skip(11);
        match parse_unsigned(rest.take(digit_run(rest)), 0xffff_ffff) {
            Some(n) => Some(n as u32),
            None => None,
        }
    } else {
        None
    }
}

/// How many digits a text starts with.
pub open spec fn digit_run(s: Seq<char>) -> int
    decreases s.len(),
{
    if s.len() > 0 && is_digit(s[0]) {
        1 + digit_run(s.drop_first())
    } else {
        0
    }
}

/// The entry a conf describes: none without a kernel. A NixOS generation
/// (told by its `version` line) is titled by that line; otherwise a
/// distinguishing version is folded into the title.
pub open spec fn conf_entry(c: Conf) -> Option<RawEntryV> {
    match c.linux {
        None => None,
        Some(linux) => {
            let base = match c.title {
                Some(t) => t,
                None => "Linux"@,
            };
            let (kind, os_name, role, display) = match c.version {
                Some(v) => match nixos_generation(v) {
                    Some(g) => (OsKind::NixOs, "NixOS"@, RoleV::Generation(g), v),
                    None => (
                        OsKind::Linux,
                        "Linux"@,
                        RoleV::Kernel(v),
                        if base != v && !contains_seq(base, v) {
                            base + " \u{2014} "@ + v
                        } else {
                            base
                        },
                    ),
                },
                None => (OsKind::Linux, "Linux"@, RoleV::Default, base),
            };
            Some(RawEntryV {
                kernel: Some(linux),
                initrd: c.initrd,
                cmdline: c.options,
                ..raw_new(kind, os_name, display, role, BootMethod::LinuxEfiStub)
            })
        },
    }
}

/// The entry a conf file's bytes describe (none if not UTF-8).
pub open spec fn bls_entry(b: Seq<u8>) -> Option<RawEntryV> {
    if valid_utf8(b) {
        conf_entry(conf_fold(lines(decode_utf8(b))))
    } else {
        None
    }
}

fn to_efi_path_exec(p: &[char]) -> (r: String)
    ensures
        r@ == to_efi_path(p@),
{
    let mut s: Vec<char> = Vec::new();
    let mut i: usize = 0;
    while i < p.len()
        invariant
            i <= p@.len(),
            s@ == p@.take(i as int).map_values(|c: char| if c == '/' { '\\' } else { c }),
        decreases p@.len() - i,
    {
        let c = p[i];
        s.push(if c == '/' { '\\' } else { c });
        i = i + 1;
        assert(s@ =~= p@.take(i as int).map_values(|c: char| if c == '/' { '\\' } else { c }));
    }
    assert(p@.take(i as int) == p@);
    if s.len() > 0 && s[0] == '\\' {
        string_of(&s)
    } else {
        let mut t: Vec<char> = Vec::new();
        t.push('\\');
        extend_chars(&mut t, &s);
        string_of(&t)
    }
}

fn first_ws_exec(l: &[char]) -> (r: Option<usize>)
    ensures
        match r {
            Some(w) => first_ws(l@) == Some(w as int) && w < l@.len(),
            None => first_ws(l@) is None,
        },
{
    let mut i: usize = 0;
    assert(l@.skip(0) == l@);
    while i < l.len()
        invariant
            i <= l@.len(),
            first_ws(l@) == match first_ws(l@.skip(i as int)) {
                Some(k) => Some(k + i),
                None => None::<int>,
            },
            forall|k: int| 0 <= k < i ==> !is_ws(l@[k]),
        decreases l@.len() - i,
    {
        assert(l@.skip(i as int)[0] == l@[i as int]);
        if is_ws_exec(l[i]) {
            return Some(i);
        }
        assert(l@.skip(i as int).drop_first() == l@.skip(i + 1));
        i = i + 1;
    }
    assert(l@.skip(i as int).len() == 0);
    None
}

fn digit_run_exec(s: &[char]) -> (r: usize)
    ensures
        r as int == digit_run(s@),
        r <= s@.len(),
{
    let mut i: usize = 0;
    assert(s@.skip(0) == s@);
    while i < s.len() && '0' <= s[i] && s[i] <= '9'
        invariant
            i <= s@.len(),
            digit_run(s@) == i + digit_run(s@.skip(i as int)),
        decreases s@.len() - i,
    {
        assert(s@.skip(i as int)[0] == s@[i as int]);
        assert(s@.skip(i as int).drop_first() == s@.skip(i + 1));
        i = i + 1;
    }
    proof {
        if i < s@.len() {
            assert(s@.skip(i as int)[0] == s@[i as int]);
        }
    }
    i
}

fn nixos_generation_exec(v: &[char]) -> (r: Option<u32>)
    ensures
        r == nixos_generation(v@),
{
    proof {
        reveal_strlit("Generation ");
    }
    let p = chars_of("Generation ");
    if !starts_with_chars(v, &p) {
        return None;
    }
    let rest = slice_of(v, 11, v.len());
    assert(rest@ == v@.skip(11));
    let n = digit_run_exec(&rest);
    let digits = slice_of(&rest, 0, n);
    assert(digits@ == rest@.take(n as int));
    match parse_unsigned_exec(&digits, 0xffff_ffff) {
        Some(x) => Some(x as u32),
        None => None,
    }
}

fn opt_string(o: &Option<Vec<char>>) -> (r: Option<String>)
    ensures
        match o {
            Some(v) => r matches Some(s) && s@ == v@,
            None => r is None,
        },
{
    match o {
        Some(v) => Some(string_of(v)),
        None => None,
    }
}

pub open spec fn ov(o: Option<Vec<char>>) -> Option<Seq<char>> {
    match o {
        Some(v) => Some(v@),
        None => None,
    }
}

/// Parse one BLS conf; none if it lacks a kernel (`linux`) or is not UTF-8.
pub fn parse_conf(bytes: &[u8]) -> (r: Option<RawEntry>)
    ensures
        match bls_entry(bytes@) {
            Some(e) => r matches Some(x) && x@ == e,
            None => r is None,
        },
{
    proof {
        reveal_strlit("title");
        reveal_strlit("version");
        reveal_strlit("linux");
        reveal_strlit("initrd");
        reveal_strlit("options");
        reveal_strlit("Linux");
        reveal_strlit("NixOS");
    }
    let text = match str_from_utf8(bytes) {
        Some(t) => t,
        None => return None,
    };
    let ls = lines_chars(&chars_of(text));
    let ghost all = views(ls@);
    let mut title: Option<Vec<char>> = None;
    let mut version: Option<Vec<char>> = None;
    let mut linux: Option<Vec<char>> = None;
    let mut initrd: Option<Vec<char>> = None;
    let mut options: Option<Vec<char>> = None;
    let k_title = chars_of("title");
    let k_version = chars_of("version");
    let k_linux = chars_of("linux");
    let k_initrd = chars_of("initrd");
    let k_options = chars_of("options");
    let mut i: usize = 0;
    while i < ls.len()
        invariant
            i <= ls@.len(),
            all == views(ls@),
            k_title@ == "title"@,
            k_version@ == "version"@,
            k_linux@ == "linux"@,
            k_initrd@ == "initrd"@,
            k_options@ == "options"@,
            conf_fold(all.take(i as int)) == (Conf {
                title: ov(title),
                version: ov(version),
                linux: ov(linux),
                initrd: ov(initrd),
                options: ov(options),
            }),
        decreases ls@.len() - i,
    {
        assert(all.take(i + 1).drop_last() == all.take(i as int));
        assert(all.take(i + 1).last() == ls@[i as int]@);
        let l = trim_chars(ls[i].as_slice());
        if l.len() == 0 || l[0] == '#' {
        } else {
            match first_ws_exec(&l) {
                None => {},
                Some(w) => {
                    let key = slice_of(&l, 0, w);
                    let vr = slice_of(&l, w + 1, l.len());
                    assert(key@ == l@.take(w as int));
                    assert(vr@ == l@.skip(w + 1));
                    let val = trim_chars(&vr);
                    if eq_chars(&key, &k_title) {
                        title = Some(val);
                    } else if eq_chars(&key, &k_version) {
                        version = Some(val);
                    } else if eq_chars(&key, &k_linux) {
                        linux = Some(chars_of_string(&to_efi_path_exec(&val)));
                    } else if eq_chars(&key, &k_initrd) {
                        initrd = Some(chars_of_string(&to_efi_path_exec(&val)));
                    } else if eq_chars(&key, &k_options) {
                        options = Some(val);
                    }
                },
            }
        }
        i = i + 1;
    }
    assert(all.take(i as int) == all);
    let linux = match linux {
        Some(l) => l,
        None => return None,
    };
    let base: Vec<char> = match &title {
        Some(t) => {
            let b = slice_of(t, 0, t.len());
            assert(b@ =~= t@);
            b
        },
        None => chars_of("Linux"),
    };
    let e = match &version {
        Some(v) => match nixos_generation_exec(v) {
            Some(g) => RawEntry::new(OsKind::NixOs, "NixOS", string_of(v).as_str(), EntryRole::Generation(g), BootMethod::LinuxEfiStub),
            None => {
                let display = if !eq_chars(&base, v) && !contains_chars(&base, v) {
                    let mut d = slice_of(&base, 0, base.len());
                    assert(d@ =~= base@);
                    extend_str(&mut d, " \u{2014} ");
                    extend_chars(&mut d, v);
                    assert(d@ == base@ + " \u{2014} "@ + v@);
                    d
                } else {
                    let b = slice_of(&base, 0, base.len());
                    assert(b@ =~= base@);
                    b
                };
                RawEntry::new(OsKind::Linux, "Linux", string_of(&display).as_str(), EntryRole::Kernel(string_of(v)), BootMethod::LinuxEfiStub)
            },
        },
        None => RawEntry::new(OsKind::Linux, "Linux", string_of(&base).as_str(), EntryRole::Default, BootMethod::LinuxEfiStub),
    };
    let mut e = e;
    e.kernel = Some(string_of(&linux));
    e.initrd = opt_string(&initrd);
    e.cmdline = opt_string(&options);
    Some(e)
}

/// The entries of some named conf files whose contents were read (`None`
/// where the read failed), in order: each `.conf` that describes one.
pub open spec fn conf_entries(names: Seq<Seq<char>>, reads: Seq<Option<Seq<u8>>>) -> Seq<RawEntryV>
    decreases names.len(),
{
    if names.len() == 0 || reads.len() == 0 {
        seq![]
    } else {
        let rest = conf_entries(names.drop_last(), reads.drop_last());
        if ends_with(names.last(), ".conf"@) {
            match reads.last() {
                Some(b) => match bls_entry(b) {
                    Some(e) => rest.push(e),
                    None => rest,
                },
                None => rest,
            }
        } else {
            rest
        }
    }
}

/// `\loader\entries\<name>`.
pub open spec fn entry_path(name: Seq<char>) -> Seq<char> {
    "\\loader\\entries"@ + seq!['\\'] + name
}

/// A read of `path` among `files`: its contents, or nothing when it failed
/// (always nothing for an absent file).
pub open spec fn read_of(files: Map<Seq<char>, Seq<u8>>, path: Seq<char>, r: Option<Seq<u8>>) -> bool {
    &&& r matches Some(b) ==> files.contains_key(path) && files[path] == b
    &&& !files.contains_key(path) ==> r is None
}

/// What the BLS source can give for a volume holding `files`: the entries
/// of some listed file names, each parsed from what reading it gave.
pub open spec fn bls_result(files: Map<Seq<char>, Seq<u8>>, r: Seq<RawEntryV>) -> bool {
    exists|names: Seq<Seq<char>>, reads: Seq<Option<Seq<u8>>>|
        {
            &&& names.len() == reads.len()
            &&& forall|i: int| 0 <= i < names.len() ==> read_of(files, entry_path(#[trigger] names[i]), reads[i])
            &&& r == conf_entries(names, reads)
        }
}

/// What the BLS source gives for a volume holding `files` whose store never
/// fails: the entries of every name listed in the entries directory, each
/// parsed from the file it names.
pub open spec fn bls_exact(files: Map<Seq<char>, Seq<u8>>, r: Seq<RawEntryV>) -> bool {
    exists|names: Seq<String>|
        {
            &&& names_each_once(names, children(files, ENTRIES_DIR@))
            &&& r == conf_entries(
                texts(names),
                texts(names).map_values(|n: Seq<char>| stored_at(files, entry_path(n))),
            )
        }
}

/// Scan `\loader\entries` for `.conf` files: what the store lists there is
/// read and parsed as [`conf_entries`] says.
pub fn discover<F: FileStore>(fs: &F) -> (r: Vec<RawEntry>)
    ensures
        fs.modelled() ==> (bls_result(fs.files(), raws_view(r@))),
        fs.modelled() ==> (fs.never_fails() ==> bls_exact(fs.files(), raws_view(r@))),
{
    proof {
        reveal_strlit(".conf");
    }
    let mut out: Vec<RawEntry> = Vec::new();
    let names = match fs.list_dir(ENTRIES_DIR) {
        Ok(n) => n,
        Err(_) => {
            assert(raws_view(out@) =~= conf_entries(Seq::empty(), Seq::empty()));
            proof {
                if fs.never_fails() {
                    let e: Seq<String> = seq![];
                    assert(children(fs.files(), ENTRIES_DIR@) =~= Set::empty());
                    assert(texts(e) =~= Seq::<Seq<char>>::empty());
                    assert(names_each_once(e, children(fs.files(), ENTRIES_DIR@)));
                }
            }
            return out;
        },
    };
    let ghost nv = names@.map_values(|s: String| s@);
    let ghost mut reads: Seq<Option<Seq<u8>>> = seq![];
    let suffix = chars_of(".conf");
    let mut i: usize = 0;
    while i < names.len()
        invariant
            i <= names@.len(),
            nv == names@.map_values(|s: String| s@),
            suffix@ == ".conf"@,
            reads.len() == i,
            fs.modelled() ==> forall|k: int|
                0 <= k < i ==> read_of(fs.files(), entry_path(#[trigger] nv[k]), reads[k]),
            raws_view(out@) == conf_entries(nv.take(i as int), reads),
            fs.modelled() && fs.never_fails() ==> reads == nv.take(i as int).map_values(
                |n: Seq<char>| stored_at(fs.files(), entry_path(n)),
            ),
        decreases names@.len() - i,
    {
        let name = names[i].as_str();
        assert(nv[i as int] == name@);
        let mut pc: Vec<char> = Vec::new();
        extend_str(&mut pc, ENTRIES_DIR);
        pc.push('\\');
        extend_str(&mut pc, name);
        assert(pc@ =~= entry_path(name@));
        let path = string_of(&pc);
        let ghost before = raws_view(out@);
        let ghost old_reads = reads;
        assert(nv.take(i + 1).drop_last() == nv.take(i as int));
        assert(nv.take(i + 1).last() == name@);
        let nc = chars_of(name);
        if !ends_with_chars(&nc, &suffix) {
            proof {
                let rd: Option<Seq<u8>> = if fs.files().contains_key(entry_path(name@)) {
                    Some(fs.files()[entry_path(name@)])
                } else {
                    None
                };
                reads = reads.push(rd);
                assert(reads.drop_last() == old_reads);
            }
        } else {
            match fs.read(path.as_str()) {
                Ok(b) => {
                    proof {
                        reads = reads.push(Some(b@));
                        assert(reads.drop_last() == old_reads);
                    }
                    match parse_conf(b.as_slice()) {
                        Some(e) => {
                            out.push(e);
                            assert(raws_view(out@) =~= before.push(e@));
                        },
                        None => {},
                    }
                },
                Err(_) => {
                    proof {
                        reads = reads.push(None);
                        assert(reads.drop_last() == old_reads);
                    }
                },
            }
        }
        i = i + 1;
    }
    assert(nv.take(i as int) == nv);
    assert(texts(names@) == nv);
    out
}

} // verus!
