//! Linux distributions by ESP vendor directory: each OS installs its loader
//! under `\EFI\<vendor>\`; each known (or unknown but loader-holding)
//! vendor directory becomes a chainload entry for its signed loader, shim
//! preferred. An `os-release` on the ESP gives the exact edition.
use vstd::prelude::*;
use vstd::utf8::{valid_utf8, decode_utf8};
use crate::ports::{FileStore, names_each_once, children, texts};
use crate::graph::kinds::{OsKind, EntryRole, BootMethod, RoleV};
use crate::discovery::{RawEntry, RawEntryV, raw_new, raws_view};
use crate::discovery::esp::{marker_equal, first_found, Probe, probe, find_in, agrees_on, distinct};
use crate::text::{lines, trim, lower_seq, starts_with, chars_of, string_of, lines_chars, views,
    trim_chars, lower_chars, starts_with_chars, slice_of, eq_chars, extend_str, extend_chars,
    chars_of_string, str_from_utf8};

verus! {

pub const EFI_DIR: &'static str = "\\EFI";

/// Loader file names to try, shim first (what a Secure Boot chain
/// launches), then GRUB, then systemd-boot.
pub open spec fn loader_names() -> Seq<Seq<char>> {
    seq!["shimx64.efi"@, "grubx64.efi"@, "systemd-bootx64.efi"@, "bootx64.efi"@]
}

/// Vendor directories handled elsewhere or not Linux distributions.
pub open spec fn skipped_dirs() -> Seq<Seq<char>> {
    seq!["boot"@, "microsoft"@, "systemd"@, "refind"@, "nixos"@, "myboot"@]
}

/// Known vendor-directory names and their display names.
pub open spec fn known() -> Seq<(Seq<char>, Seq<char>)> {
    seq![
        ("ubuntu"@, "Ubuntu"@), ("kubuntu"@, "Kubuntu"@), ("xubuntu"@, "Xubuntu"@),
        ("lubuntu"@, "Lubuntu"@), ("debian"@, "Debian"@), ("kali"@, "Kali Linux"@),
        ("parrot"@, "Parrot OS"@), ("zorin"@, "Zorin OS"@), ("linuxmint"@, "Linux Mint"@),
        ("mint"@, "Linux Mint"@), ("pop"@, "Pop!_OS"@), ("elementary"@, "elementary OS"@),
        ("fedora"@, "Fedora"@), ("redhat"@, "Red Hat"@), ("rhel"@, "Red Hat"@),
        ("centos"@, "CentOS"@), ("rocky"@, "Rocky Linux"@), ("almalinux"@, "AlmaLinux"@),
        ("opensuse"@, "openSUSE"@), ("suse"@, "SUSE"@), ("sles"@, "SUSE"@),
        ("arch"@, "Arch Linux"@), ("archlinux"@, "Arch Linux"@), ("endeavouros"@, "EndeavourOS"@),
        ("manjaro"@, "Manjaro"@), ("garuda"@, "Garuda Linux"@), ("gentoo"@, "Gentoo"@),
        ("nixos"@, "NixOS"@), ("void"@, "Void Linux"@), ("mx"@, "MX Linux"@),
        ("mageia"@, "Mageia"@), ("solus"@, "Solus"@), ("slackware"@, "Slackware"@),
        ("alpine"@, "Alpine Linux"@), ("clearlinux"@, "Clear Linux"@),
    ]
}

fn known_exec() -> (r: Vec<(&'static str, &'static str)>)
    ensures
        r@.map_values(|p: (&'static str, &'static str)| (p.0@, p.1@)) == known(),
{
    let r: Vec<(&'static str, &'static str)> = vec![
        ("ubuntu", "Ubuntu"), ("kubuntu", "Kubuntu"), ("xubuntu", "Xubuntu"),
        ("lubuntu", "Lubuntu"), ("debian", "Debian"), ("kali", "Kali Linux"),
        ("parrot", "Parrot OS"), ("zorin", "Zorin OS"), ("linuxmint", "Linux Mint"),
        ("mint", "Linux Mint"), ("pop", "Pop!_OS"), ("elementary", "elementary OS"),
        ("fedora", "Fedora"), ("redhat", "Red Hat"), ("rhel", "Red Hat"),
        ("centos", "CentOS"), ("rocky", "Rocky Linux"), ("almalinux", "AlmaLinux"),
        ("opensuse", "openSUSE"), ("suse", "SUSE"), ("sles", "SUSE"),
        ("arch", "Arch Linux"), ("archlinux", "Arch Linux"), ("endeavouros", "EndeavourOS"),
        ("manjaro", "Manjaro"), ("garuda", "Garuda Linux"), ("gentoo", "Gentoo"),
        ("nixos", "NixOS"), ("void", "Void Linux"), ("mx", "MX Linux"),
        ("mageia", "Mageia"), ("solus", "Solus"), ("slackware", "Slackware"),
        ("alpine", "Alpine Linux"), ("clearlinux", "Clear Linux"),
    ];
    assert(r@.map_values(|p: (&'static str, &'static str)| (p.0@, p.1@)) =~= known());
    r
}

/// The uppercase mapping of a character (one or more characters), as
/// `char::to_uppercase` yields it.
pub uninterp spec fn char_upper(c: char) -> Seq<char>;

/// `char::to_uppercase`, collected: the uppercase mapping of `c` under the
/// Unicode case tables. Nothing more is claimed of it than that it is that
/// mapping of `c`, named [`char_upper`].
#[verifier::external_body]
fn to_uppercase_text(c: char) -> (r: String)
    ensures
        r@ == char_upper(c),
{
    c.to_uppercase().collect()
}

/// The text with its first character upper-cased.
pub open spec fn capitalise(s: Seq<char>) -> Seq<char> {
    if s.len() == 0 {
        seq![]
    } else {
        char_upper(s[0]) + s.drop_first()
    }
}

fn capitalise_exec(s: &[char]) -> (r: Vec<char>)
    ensures
        r@ == capitalise(s@),
{
    if s.len() == 0 {
        return Vec::new();
    }
    let up = to_uppercase_text(s[0]);
    let mut out = chars_of_string(&up);
    let rest = slice_of(s, 1, s.len());
    extend_chars(&mut out, &rest);
    assert(rest@ == s@.drop_first());
    out
}

/// Drop every leading and trailing `c`.
pub open spec fn trim_matches(s: Seq<char>, c: char) -> Seq<char> {
    trim_end_char(crate::discovery::esp::trim_start_char(s, c), c)
}

pub open spec fn trim_end_char(s: Seq<char>, c: char) -> Seq<char>
    decreases s.len(),
{
    if s.len() > 0 && s.last() == c {
        trim_end_char(s.drop_last(), c)
    } else {
        s
    }
}

fn trim_end_char_exec(s: &[char], c: char) -> (r: Vec<char>)
    ensures
        r@ == trim_end_char(s@, c),
{
    let mut j: usize = s.len();
    assert(s@.take(j as int) == s@);
    while j > 0 && s[j - 1] == c
        invariant
            j <= s@.len(),
            trim_end_char(s@, c) == trim_end_char(s@.take(j as int), c),
        decreases j,
    {
        assert(s@.take(j as int).drop_last() == s@.take(j - 1));
        j = j - 1;
    }
    slice_of(s, 0, j)
}

fn trim_matches_exec(s: &[char], c: char) -> (r: Vec<char>)
    ensures
        r@ == trim_matches(s@, c),
{
    let a = crate::discovery::esp::trim_start_char_exec(s, c);
    trim_end_char_exec(&a, c)
}

/// The value of an os-release `PRETTY_NAME=` line, if it is one with a
/// non-empty value (quotes removed).
pub open spec fn pretty_value(line: Seq<char>) -> Option<Seq<char>> {
    let l = trim(line);
    if starts_with(l, "PRETTY_NAME="@) {
        let v = trim_matches(trim_matches(trim(l.skip(12)), '"'), '\'');
        if v.len() > 0 {
            Some(v)
        } else {
            None
        }
    } else {
        None
    }
}

pub open spec fn first_pretty(ls: Seq<Seq<char>>) -> Option<Seq<char>>
    decreases ls.len(),
{
    if ls.len() == 0 {
        None
    } else {
        match pretty_value(ls[0]) {
            Some(v) => Some(v),
            None => first_pretty(ls.drop_first()),
        }
    }
}

/// `PRETTY_NAME` of os-release text: the first line that gives one.
pub open spec fn parse_pretty(text: Seq<char>) -> Option<Seq<char>> {
    first_pretty(lines(text))
}

/// Extract `PRETTY_NAME="..."` from os-release content. Total.
pub fn parse_pretty_name(text: &str) -> (r: Option<String>)
    ensures
        match parse_pretty(text@) {
            Some(v) => r matches Some(x) && x@ == v,
            None => r is None,
        },
{
    proof {
        reveal_strlit("PRETTY_NAME=");
    }
    let ls = lines_chars(&chars_of(text));
    let ghost all = views(ls@);
    let key = chars_of("PRETTY_NAME=");
    let mut i: usize = 0;
    assert(all.skip(0) == all);
    while i < ls.len()
        invariant
            i <= ls@.len(),
            all == views(ls@),
            all == lines(text@),
            key@ == "PRETTY_NAME="@,
            key@.len() == 12,
            parse_pretty(text@) == first_pretty(all.skip(i as int)),
        decreases ls@.len() - i,
    {
        assert(all.skip(i as int)[0] == ls@[i as int]@);
        assert(all.skip(i as int).drop_first() == all.skip(i + 1));
        let l = trim_chars(ls[i].as_slice());
        if starts_with_chars(&l, &key) {
            let rest = slice_of(&l, 12, l.len());
            assert(rest@ == l@.skip(12));
            let v = trim_matches_exec(&trim_matches_exec(&trim_chars(&rest), '"'), '\'');
            if v.len() > 0 {
                return Some(string_of(&v));
            }
        }
        i = i + 1;
    }
    None
}

/// `\EFI\<dir>\<file>`.
pub open spec fn efi_path(dir: Seq<char>, file: Seq<char>) -> Seq<char> {
    "\\EFI"@ + seq!['\\'] + dir + seq!['\\'] + file
}

fn efi_path_exec(dir: &str, file: &str) -> (r: String)
    ensures
        r@ == efi_path(dir@, file@),
{
    let mut s: Vec<char> = Vec::new();
    extend_str(&mut s, EFI_DIR);
    s.push('\\');
    extend_str(&mut s, dir);
    s.push('\\');
    extend_str(&mut s, file);
    assert(s@ =~= efi_path(dir@, file@));
    string_of(&s)
}

/// The first loader (in preference order) present in vendor directory `dir`.
pub open spec fn find_loader(files: Map<Seq<char>, Seq<u8>>, dir: Seq<char>, names: Seq<Seq<char>>) -> Option<Seq<char>>
    decreases names.len(),
{
    if names.len() == 0 {
        None
    } else if files.contains_key(efi_path(dir, names[0])) {
        Some(efi_path(dir, names[0]))
    } else {
        find_loader(files, dir, names.drop_first())
    }
}

/// Where an os-release for vendor directory `dir` may lie.
pub open spec fn os_release_paths(dir: Seq<char>) -> Seq<Seq<char>> {
    seq![efi_path(dir, "os-release"@), efi_path(dir, "etc/os-release"@)]
}

/// The entry vendor directory `dir` yields, given the edition name its
/// os-release gave (`pretty`).
pub open spec fn dir_entry(files: Map<Seq<char>, Seq<u8>>, dir: Seq<char>, pretty: Option<Seq<char>>) -> Option<RawEntryV> {
    let low = lower_seq(dir);
    if skipped_dirs().contains(low) {
        None
    } else {
        match find_loader(files, dir, loader_names()) {
            None => None,
            Some(l) => {
                let name = match marker_equal(known(), low) {
                    Some(n) => n,
                    None => capitalise(dir),
                };
                let title = match pretty {
                    Some(t) => t,
                    None => name,
                };
                Some(RawEntryV { loader: Some(l), ..raw_new(OsKind::Linux, name, title, RoleV::Default, BootMethod::EfiChainload) })
            },
        }
    }
}

/// The entries of some vendor directories, with the edition names read for
/// them.
pub open spec fn dir_entries(files: Map<Seq<char>, Seq<u8>>, dirs: Seq<Seq<char>>, pretties: Seq<Option<Seq<char>>>) -> Seq<RawEntryV>
    decreases dirs.len(),
{
    if dirs.len() == 0 || pretties.len() == 0 {
        seq![]
    } else {
        let rest = dir_entries(files, dirs.drop_last(), pretties.drop_last());
        match dir_entry(files, dirs.last(), pretties.last()) {
            Some(e) => rest.push(e),
            None => rest,
        }
    }
}

/// `pretty` is what the os-release files of `dir` give, reading the files
/// of `m`.
pub open spec fn pretty_read(files: Map<Seq<char>, Seq<u8>>, dir: Seq<char>, pretty: Option<Seq<char>>) -> bool {
    exists|m: Map<Seq<char>, Seq<u8>>| m.submap_of(files) && pretty == first_found(m, os_release_paths(dir), Probe::OsRelease)
}

fn pretty_name_on_esp<F: FileStore>(fs: &F, dir: &str) -> (r: Option<Vec<char>>)
    ensures
        fs.modelled() ==> (pretty_read(fs.files(), dir@, match r {
                Some(v) => Some(v@),
                None => None,
            })),
        fs.modelled() ==> (fs.never_fails() ==> match r {
                Some(v) => Some(v@),
                None => None,
            } == first_found(fs.files(), os_release_paths(dir@), Probe::OsRelease)),
{
    proof {
        reveal_strlit("os-release");
        reveal_strlit("etc/os-release");
    }
    let paths: Vec<String> = vec![efi_path_exec(dir, "os-release"), efi_path_exec(dir, "etc/os-release")];
    let ghost ps = paths@.map_values(|s: String| s@);
    assert(ps =~= os_release_paths(dir@));
    assert(ps[0].len() != ps[1].len());
    assert(distinct(ps));
    let ghost files = fs.files();
    assert(files.submap_of(files));
    let (r, Ghost(m)) = find_in(fs, &paths, Probe::OsRelease, Ghost(files));
    assert(fs.modelled() ==> m.submap_of(fs.files()));
    r
}

fn lower_str(s: &str) -> (r: Vec<char>)
    ensures
        r@ == lower_seq(s@),
{
    lower_chars(&chars_of(s))
}

/// The entry of one vendor directory (see [`dir_entry`]).
fn dir_entry_exec<F: FileStore>(fs: &F, dir: &str) -> (r: (Option<RawEntry>, Ghost<Option<Seq<char>>>))
    ensures
        fs.modelled() ==> (pretty_read(fs.files(), dir@, r.1@)),
        fs.modelled() ==> (fs.never_fails() ==> r.1@ == first_found(fs.files(), os_release_paths(dir@), Probe::OsRelease)),
        fs.modelled() ==> (match dir_entry(fs.files(), dir@, r.1@) {
                Some(e) => r.0 matches Some(x) && x@ == e,
                None => r.0 is None,
            }),
{
    let low = lower_str(dir);
    let skip: Vec<&'static str> = vec!["boot", "microsoft", "systemd", "refind", "nixos", "myboot"];
    assert(skip@.map_values(|s: &'static str| s@) =~= skipped_dirs());
    let ghost none_read: Option<Seq<char>> = first_found(fs.files(), os_release_paths(dir@), Probe::OsRelease);
    proof {
        assert(fs.files().submap_of(fs.files()));
        assert(pretty_read(fs.files(), dir@, none_read));
    }
    let mut k: usize = 0;
    while k < skip.len()
        invariant
            k <= skip@.len(),
            low@ == lower_seq(dir@),
            pretty_read(fs.files(), dir@, none_read),
            none_read == first_found(fs.files(), os_release_paths(dir@), Probe::OsRelease),
            skip@.map_values(|s: &'static str| s@) == skipped_dirs(),
            forall|j: int| 0 <= j < k ==> skipped_dirs()[j] != low@,
        decreases skip@.len() - k,
    {
        assert(skipped_dirs()[k as int] == skip@[k as int]@);
        if eq_chars(&low, &chars_of(skip[k])) {
            assert(skipped_dirs().contains(low@));
            return (None, Ghost(none_read));
        }
        k = k + 1;
    }
    let names: Vec<&'static str> = vec!["shimx64.efi", "grubx64.efi", "systemd-bootx64.efi", "bootx64.efi"];
    let ghost nv = names@.map_values(|s: &'static str| s@);
    assert(nv =~= loader_names());
    let mut loader: Option<String> = None;
    let mut i: usize = 0;
    assert(nv.skip(0) == nv);
    while i < names.len()
        invariant_except_break
            loader is None,
        invariant
            i <= names@.len(),
            nv == names@.map_values(|s: &'static str| s@),
            nv == loader_names(),
            fs.modelled() ==> find_loader(fs.files(), dir@, nv) == find_loader(fs.files(), dir@, nv.skip(i as int)),
        ensures
            fs.modelled() ==> (match find_loader(fs.files(), dir@, nv) {
                    Some(l) => loader matches Some(x) && x@ == l,
                    None => loader is None,
                }),
        decreases names@.len() - i,
    {
        assert(nv.skip(i as int)[0] == names@[i as int]@);
        assert(nv.skip(i as int).drop_first() == nv.skip(i + 1));
        let path = efi_path_exec(dir, names[i]);
        if fs.path_exists(path.as_str()) {
            loader = Some(path);
            break;
        }
        i = i + 1;
    }
    let l = match loader {
        Some(l) => l,
        None => {
            assert(!skipped_dirs().contains(low@));
            return (None, Ghost(none_read));
        },
    };
    let ks = known_exec();
    let ghost kv = ks@.map_values(|p: (&'static str, &'static str)| (p.0@, p.1@));
    let mut name: Option<Vec<char>> = None;
    let mut j: usize = 0;
    assert(kv.skip(0) == kv);
    while j < ks.len()
        invariant_except_break
            name is None,
        invariant
            j <= ks@.len(),
            kv == ks@.map_values(|p: (&'static str, &'static str)| (p.0@, p.1@)),
            kv == known(),
            marker_equal(kv, low@) == marker_equal(kv.skip(j as int), low@),
        ensures
            match marker_equal(kv, low@) {
                Some(n) => name matches Some(x) && x@ == n,
                None => name is None,
            },
        decreases ks@.len() - j,
    {
        assert(kv.skip(j as int)[0] == (ks@[j as int].0@, ks@[j as int].1@));
        assert(kv.skip(j as int).drop_first() == kv.skip(j + 1));
        if eq_chars(&low, &chars_of(ks[j].0)) {
            name = Some(chars_of(ks[j].1));
            break;
        }
        j = j + 1;
    }
    let name = match name {
        Some(n) => n,
        None => capitalise_exec(&chars_of(dir)),
    };
    let pretty = pretty_name_on_esp(fs, dir);
    let title = match &pretty {
        Some(t) => string_of(t),
        None => string_of(&name),
    };
    let mut e = RawEntry::new(OsKind::Linux, string_of(&name).as_str(), title.as_str(), EntryRole::Default, BootMethod::EfiChainload);
    e.loader = Some(l);
    let ghost pv = match pretty {
        Some(v) => Some(v@),
        None => None,
    };
    assert(!skipped_dirs().contains(low@)) by {
        if skipped_dirs().contains(low@) {
            let x = choose|x: int| 0 <= x < skipped_dirs().len() && skipped_dirs()[x] == low@;
        }
    }
    (Some(e), Ghost(pv))
}

/// What the distribution source can give for a volume holding `files`: the
/// entries of some listed vendor directories, each named from what reading
/// its os-release gave.
pub open spec fn distros_result(files: Map<Seq<char>, Seq<u8>>, r: Seq<RawEntryV>) -> bool {
    exists|dirs: Seq<Seq<char>>, pretties: Seq<Option<Seq<char>>>|
        {
            &&& dirs.len() == pretties.len()
            &&& forall|i: int| 0 <= i < dirs.len() ==> pretty_read(files, #[trigger] dirs[i], pretties[i])
            &&& r == dir_entries(files, dirs, pretties)
        }
}

/// What the distribution source gives for a volume holding `files` whose
/// store never fails: the entries of exactly the listed vendor
/// directories, each named from its os-release files.
pub open spec fn distros_exact(files: Map<Seq<char>, Seq<u8>>, r: Seq<RawEntryV>) -> bool {
    exists|dirs: Seq<String>|
        {
            &&& names_each_once(dirs, children(files, EFI_DIR@))
            &&& r == dir_entries(
                files,
                texts(dirs),
                texts(dirs).map_values(|d: Seq<char>| first_found(files, os_release_paths(d), Probe::OsRelease)),
            )
        }
}

/// Scan the ESP's vendor directories for installed distributions: what the
/// store lists under `\EFI` is turned into entries as [`dir_entries`] says,
/// with each directory's edition name read from what could be read. On a
/// store that never fails, these are the entries of exactly the listed
/// directories, each named from its os-release files.
pub fn discover<F: FileStore>(fs: &F) -> (r: Vec<RawEntry>)
    ensures
        fs.modelled() ==> (distros_result(fs.files(), raws_view(r@))),
        fs.modelled() ==> (fs.never_fails() ==> distros_exact(fs.files(), raws_view(r@))),

{
    let mut out: Vec<RawEntry> = Vec::new();
    let dirs = match fs.list_dir(EFI_DIR) {
        Ok(d) => d,
        Err(_) => {
            assert(raws_view(out@) =~= dir_entries(fs.files(), Seq::empty(), Seq::empty()));
            proof {
                if fs.never_fails() {
                    let e: Seq<String> = seq![];
                    assert(children(fs.files(), EFI_DIR@) =~= Set::empty());
                    assert(texts(e) =~= Seq::<Seq<char>>::empty());
                    assert(names_each_once(e, children(fs.files(), EFI_DIR@)));
                }
            }
            return out;
        },
    };
    let ghost dv = dirs@.map_values(|s: String| s@);
    let ghost mut pretties: Seq<Option<Seq<char>>> = seq![];
    let mut i: usize = 0;
    while i < dirs.len()
        invariant
            i <= dirs@.len(),
            dv == dirs@.map_values(|s: String| s@),
            pretties.len() == i,
            fs.modelled() ==> forall|k: int| 0 <= k < i ==> pretty_read(fs.files(), #[trigger] dv[k], pretties[k]),
            fs.modelled() ==> raws_view(out@) == dir_entries(fs.files(), dv.take(i as int), pretties),
            fs.modelled() && fs.never_fails() ==> pretties == dv.take(i as int).map_values(
                |d: Seq<char>| first_found(fs.files(), os_release_paths(d), Probe::OsRelease),
            ),
        decreases dirs@.len() - i,
    {
        let (e, Ghost(pv)) = dir_entry_exec(fs, dirs[i].as_str());
        let ghost before = raws_view(out@);
        let ghost old_p = pretties;
        proof {
            pretties = pretties.push(pv);
            assert(dv.take(i + 1).drop_last() == dv.take(i as int));
            assert(dv.take(i + 1).last() == dv[i as int]);
            assert(pretties.drop_last() == old_p);
            if fs.modelled() && fs.never_fails() {
                assert(pretties =~= dv.take(i + 1).map_values(
                    |d: Seq<char>| first_found(fs.files(), os_release_paths(d), Probe::OsRelease),
                ));
            }
        }
        match e {
            Some(x) => {
                out.push(x);
                assert(raws_view(out@) =~= before.push(x@));
            },
            None => {},
        }
        i = i + 1;
    }
    assert(dv.take(i as int) == dv);
    assert(texts(dirs@) == dv);
    out
}

} // verus!
