//! Probe the ESP for well-known loaders, the way rEFInd scans for boot
//! targets: the Windows boot manager and the removable-media fallback loader,
//! which is named after the distribution it belongs to where that can be
//! told.
use vstd::prelude::*;
use vstd::utf8::{valid_utf8, decode_utf8, encode_utf8};
use crate::ports::FileStore;
use crate::graph::kinds::{OsKind, EntryRole, BootMethod, RoleV};
use crate::discovery::{RawEntry, RawEntryV, raw_new, raws_view};
use crate::persistence::utf16::{decode_utf16_lossy, decode_utf16_lossy_exec};
use crate::persistence::loadopt::le16_at;
use crate::text::{lines, trim, lower_seq, contains_seq, split_on, occurs_at, chars_of, string_of,
    str_from_utf8, lines_chars, trim_chars, lower_chars, contains_chars, split_chars, views,
    occurs_at_exec, slice_of, eq_chars, chars_of_string, lemma_split_nonempty};

verus! {

/// Canonical Windows loader path (bootmgfw.efi, not bootmgr.efi).
pub const WINDOWS_LOADER: &'static str = "\\EFI\\Microsoft\\Boot\\bootmgfw.efi";

/// Removable-media fallback loader path.
pub const FALLBACK_LOADER: &'static str = "\\EFI\\BOOT\\BOOTX64.EFI";

/// Known distribution markers and their names, specific spins before their
/// base (Parrot/Kali before Debian; archiso before arch).
pub open spec fn distro_markers() -> Seq<(Seq<char>, Seq<char>)> {
    seq![
        ("parrot"@, "Parrot OS"@),
        ("kali"@, "Kali Linux"@),
        ("linuxmint"@, "Linux Mint"@),
        ("zorin"@, "Zorin OS"@),
        ("tails"@, "Tails"@),
        ("pop!_os"@, "Pop!_OS"@),
        ("pop_os"@, "Pop!_OS"@),
        ("elementary"@, "elementary OS"@),
        ("manjaro"@, "Manjaro"@),
        ("endeavour"@, "EndeavourOS"@),
        ("nixos"@, "NixOS"@),
        ("fedora"@, "Fedora"@),
        ("casper"@, "Ubuntu"@),
        ("ubuntu"@, "Ubuntu"@),
        ("archiso"@, "Arch Linux"@),
        ("archlinux"@, "Arch Linux"@),
        ("debian"@, "Debian"@),
    ]
}

fn distro_markers_exec() -> (r: Vec<(&'static str, &'static str)>)
    ensures
        r@.map_values(|p: (&'static str, &'static str)| (p.0@, p.1@)) == distro_markers(),
{
    let r: Vec<(&'static str, &'static str)> = vec![
        ("parrot", "Parrot OS"),
        ("kali", "Kali Linux"),
        ("linuxmint", "Linux Mint"),
        ("zorin", "Zorin OS"),
        ("tails", "Tails"),
        ("pop!_os", "Pop!_OS"),
        ("pop_os", "Pop!_OS"),
        ("elementary", "elementary OS"),
        ("manjaro", "Manjaro"),
        ("endeavour", "EndeavourOS"),
        ("nixos", "NixOS"),
        ("fedora", "Fedora"),
        ("casper", "Ubuntu"),
        ("ubuntu", "Ubuntu"),
        ("archiso", "Arch Linux"),
        ("archlinux", "Arch Linux"),
        ("debian", "Debian"),
    ];
    assert(r@.map_values(|p: (&'static str, &'static str)| (p.0@, p.1@)) =~= distro_markers());
    r
}

/// The name of the first marker (in table order) equal to `l`.
pub open spec fn marker_equal(ms: Seq<(Seq<char>, Seq<char>)>, l: Seq<char>) -> Option<Seq<char>>
    decreases ms.len(),
{
    if ms.len() == 0 {
        None
    } else if ms[0].0 == l {
        Some(ms[0].1)
    } else {
        marker_equal(ms.drop_first(), l)
    }
}

/// The name of the first marker (in table order) found in bytes `b`,
/// ignoring ASCII case.
pub open spec fn marker_in_bytes(ms: Seq<(Seq<char>, Seq<char>)>, b: Seq<u8>) -> Option<Seq<char>>
    decreases ms.len(),
{
    if ms.len() == 0 {
        None
    } else if contains_ascii_ci(b, encode_utf8(ms[0].0)) {
        Some(ms[0].1)
    } else {
        marker_in_bytes(ms.drop_first(), b)
    }
}

/// The name of the first marker (in table order) contained in text `t`.
pub open spec fn marker_in_text(ms: Seq<(Seq<char>, Seq<char>)>, t: Seq<char>) -> Option<Seq<char>>
    decreases ms.len(),
{
    if ms.len() == 0 {
        None
    } else if contains_seq(t, ms[0].0) {
        Some(ms[0].1)
    } else {
        marker_in_text(ms.drop_first(), t)
    }
}

/// The first `n` characters.
pub open spec fn take_chars(s: Seq<char>, n: int) -> Seq<char> {
    if s.len() <= n {
        s
    } else {
        s.take(n)
    }
}

fn take_chars_exec(s: &[char], n: usize) -> (r: Vec<char>)
    ensures
        r@ == take_chars(s@, n as int),
{
    if s.len() <= n {
        slice_of(s, 0, s.len())
    } else {
        slice_of(s, 0, n)
    }
}

/// Text that may be UTF-16LE with a byte-order mark, or UTF-8.
pub open spec fn decode_text(b: Seq<u8>) -> Option<Seq<char>> {
    if b.len() >= 2 && b[0] == 0xFF && b[1] == 0xFE {
        Some(decode_utf16_lossy(Seq::new(((b.len() - 2) / 2) as nat, |k: int| le16_at(b, 2 + 2 * k))))
    } else if valid_utf8(b) {
        Some(decode_utf8(b))
    } else {
        None
    }
}

fn decode_text_exec(b: &[u8]) -> (r: Option<Vec<char>>)
    ensures
        match decode_text(b@) {
            Some(t) => r matches Some(x) && x@ == t,
            None => r is None,
        },
{
    if b.len() >= 2 && b[0] == 0xFF && b[1] == 0xFE {
        let n = (b.len() - 2) / 2;
        let mut us: Vec<u16> = Vec::new();
        let mut k: usize = 0;
        let bl = b.len();
        while k < n
            invariant
                bl == b@.len(),
                bl >= 2,
                n == (bl - 2) / 2,
                k <= n,
                us@ == Seq::new(k as nat, |j: int| le16_at(b@, 2 + 2 * j)),
            decreases n - k,
        {
            assert(2 + 2 * k + 2 <= bl);
            let p = 2 + 2 * k;
            let u: u16 = (b[p] as u16) + 256 * (b[p + 1] as u16);
            us.push(u);
            k = k + 1;
            assert(us@ =~= Seq::new(k as nat, |j: int| le16_at(b@, 2 + 2 * j)));
        }
        return Some(decode_utf16_lossy_exec(&us));
    }
    match str_from_utf8(b) {
        Some(s) => Some(chars_of(s)),
        None => None,
    }
}

/// Drop every leading `c`.
pub open spec fn trim_start_char(s: Seq<char>, c: char) -> Seq<char>
    decreases s.len(),
{
    if s.len() > 0 && s[0] == c {
        trim_start_char(s.drop_first(), c)
    } else {
        s
    }
}

pub(crate) fn trim_start_char_exec(s: &[char], c: char) -> (r: Vec<char>)
    ensures
        r@ == trim_start_char(s@, c),
{
    let mut i: usize = 0;
    assert(s@.skip(0) == s@);
    while i < s.len() && s[i] == c
        invariant
            i <= s@.len(),
            trim_start_char(s@, c) == trim_start_char(s@.skip(i as int), c),
        decreases s@.len() - i,
    {
        assert(s@.skip(i as int).drop_first() == s@.skip(i + 1));
        i = i + 1;
    }
    slice_of(s, i, s.len())
}

/// A BOOT.CSV names the OS in its first line, `loader,label,options,description`;
/// a bare distribution id is shown by its proper name.
pub open spec fn label_from_boot_csv(b: Seq<u8>) -> Option<Seq<char>> {
    match decode_text(b) {
        None => None,
        Some(text) => if lines(text).len() == 0 {
            None
        } else {
            let line = trim_start_char(trim(lines(text)[0]), '\u{feff}');
            let parts = split_on(line, ',');
            if parts.len() < 2 {
                None
            } else {
                let label = trim(parts[1]);
                if label.len() == 0 {
                    None
                } else {
                    match marker_equal(distro_markers(), lower_seq(label)) {
                        Some(n) => Some(n),
                        None => Some(take_chars(label, 48)),
                    }
                }
            }
        },
    }
}

/// The name of the first marker (in table order) satisfying the check on
/// each marker, via the executable table.
fn first_line(text: &[char]) -> (r: Option<Vec<char>>)
    ensures
        match r {
            Some(l) => lines(text@).len() > 0 && l@ == lines(text@)[0],
            None => lines(text@).len() == 0,
        },
{
    let ls = lines_chars(text);
    if ls.len() == 0 {
        None
    } else {
        assert(views(ls@)[0] == ls@[0]@);
        Some(slice_of(ls[0].as_slice(), 0, ls[0].len()))
    }
}

fn label_from_boot_csv_exec(b: &[u8]) -> (r: Option<Vec<char>>)
    ensures
        match label_from_boot_csv(b@) {
            Some(t) => r matches Some(x) && x@ == t,
            None => r is None,
        },
{
    let text = match decode_text_exec(b) {
        Some(t) => t,
        None => return None,
    };
    let l0 = match first_line(&text) {
        Some(l) => l,
        None => return None,
    };
    let line = trim_start_char_exec(&trim_chars(&l0), '\u{feff}');
    let parts = split_chars(&line, ',');
    if parts.len() < 2 {
        return None;
    }
    assert(views(parts@)[1] == parts@[1]@);
    let label = trim_chars(parts[1].as_slice());
    if label.len() == 0 {
        return None;
    }
    let lower = lower_chars(&label);
    let ms = distro_markers_exec();
    let ghost mv = ms@.map_values(|p: (&'static str, &'static str)| (p.0@, p.1@));
    let mut i: usize = 0;
    assert(mv.skip(0) == mv);
    assert(label_from_boot_csv(b@) == match marker_equal(distro_markers(), lower@) {
        Some(n) => Some(n),
        None => Some(take_chars(label@, 48)),
    });
    while i < ms.len()
        invariant
            i <= ms@.len(),
            mv == ms@.map_values(|p: (&'static str, &'static str)| (p.0@, p.1@)),
            mv == distro_markers(),
            lower@ == lower_seq(label@),
            label_from_boot_csv(b@) == match marker_equal(distro_markers(), lower@) {
                Some(n) => Some(n),
                None => Some(take_chars(label@, 48)),
            },
            marker_equal(mv, lower@) == marker_equal(mv.skip(i as int), lower@),
        decreases ms@.len() - i,
    {
        assert(mv.skip(i as int)[0] == (ms@[i as int].0@, ms@[i as int].1@));
        assert(mv.skip(i as int).drop_first() == mv.skip(i + 1));
        let m = chars_of(ms[i].0);
        if eq_chars(&lower, &m) {
            return Some(chars_of(ms[i].1));
        }
        i = i + 1;
    }
    assert(mv.skip(i as int).len() == 0);
    Some(take_chars_exec(&label, 48))
}

pub open spec fn byte_lower(b: u8) -> u8 {
    if 65 <= b <= 90 {
        (b + 32) as u8
    } else {
        b
    }
}

/// `needle` occurs in `hay` at `i`, ignoring ASCII case.
pub open spec fn matches_ci_at(hay: Seq<u8>, needle: Seq<u8>, i: int) -> bool {
    forall|k: int| 0 <= k < needle.len() ==> byte_lower(#[trigger] hay[i + k]) == byte_lower(needle[k])
}

/// Case-insensitive ASCII substring search over raw bytes.
pub open spec fn contains_ascii_ci(hay: Seq<u8>, needle: Seq<u8>) -> bool {
    &&& needle.len() > 0
    &&& hay.len() >= needle.len()
    &&& exists|i: int| 0 <= i <= hay.len() - needle.len() && #[trigger] matches_ci_at(hay, needle, i)
}

fn byte_lower_exec(b: u8) -> (r: u8)
    ensures
        r == byte_lower(b),
{
    if 65 <= b && b <= 90 {
        b + 32
    } else {
        b
    }
}

fn contains_ascii_ci_exec(hay: &[u8], needle: &[u8]) -> (r: bool)
    ensures
        r == contains_ascii_ci(hay@, needle@),
{
    let hl = hay.len();
    let nl = needle.len();
    if nl == 0 || hl < nl {
        return false;
    }
    let last = hl - nl;
    let mut i: usize = 0;
    while i <= last
        invariant
            hl == hay@.len(),
            nl == needle@.len(),
            nl > 0,
            hl >= nl,
            last == hl - nl,
            i <= last + 1,
            forall|j: int| 0 <= j < i ==> !#[trigger] matches_ci_at(hay@, needle@, j),
        decreases last + 1 - i,
    {
        let mut k: usize = 0;
        let mut ok = true;
        while k < nl
            invariant
                hl == hay@.len(),
                nl == needle@.len(),
                i <= last,
                last == hl - nl,
                k <= nl,
                ok == forall|x: int| 0 <= x < k ==> byte_lower(#[trigger] hay@[i + x]) == byte_lower(needle@[x]),
            decreases nl - k,
        {
            if byte_lower_exec(hay[i + k]) != byte_lower_exec(needle[k]) {
                ok = false;
            }
            k = k + 1;
        }
        if ok {
            assert(matches_ci_at(hay@, needle@, i as int));
            return true;
        }
        assert(!matches_ci_at(hay@, needle@, i as int));
        i = i + 1;
    }
    false
}

/// The first distribution marker a loader binary holds (ASCII,
/// case-insensitive), the way rEFInd guesses an OS from a bare loader.
pub open spec fn distro_from_bytes(b: Seq<u8>) -> Option<Seq<char>> {
    marker_in_bytes(distro_markers(), b)
}

fn distro_from_bytes_exec(b: &[u8]) -> (r: Option<Vec<char>>)
    ensures
        match distro_from_bytes(b@) {
            Some(t) => r matches Some(x) && x@ == t,
            None => r is None,
        },
{
    let ms = distro_markers_exec();
    let ghost mv = ms@.map_values(|p: (&'static str, &'static str)| (p.0@, p.1@));
    let mut i: usize = 0;
    assert(mv.skip(0) == mv);
    while i < ms.len()
        invariant
            i <= ms@.len(),
            mv == ms@.map_values(|p: (&'static str, &'static str)| (p.0@, p.1@)),
            mv == distro_markers(),
            marker_in_bytes(mv, b@) == marker_in_bytes(mv.skip(i as int), b@),
        decreases ms@.len() - i,
    {
        assert(mv.skip(i as int)[0] == (ms@[i as int].0@, ms@[i as int].1@));
        assert(mv.skip(i as int).drop_first() == mv.skip(i + 1));
        if contains_ascii_ci_exec(b, ms[i].0.as_bytes()) {
            return Some(chars_of(ms[i].1));
        }
        i = i + 1;
    }
    assert(mv.skip(i as int).len() == 0);
    None
}

/// The distribution a grub.cfg names: its first known marker.
pub open spec fn distro_from_grub_cfg(b: Seq<u8>) -> Option<Seq<char>> {
    if !valid_utf8(b) {
        None
    } else {
        marker_in_text(distro_markers(), lower_seq(decode_utf8(b)))
    }
}

fn distro_from_grub_cfg_exec(b: &[u8]) -> (r: Option<Vec<char>>)
    ensures
        match distro_from_grub_cfg(b@) {
            Some(t) => r matches Some(x) && x@ == t,
            None => r is None,
        },
{
    let text = match str_from_utf8(b) {
        Some(t) => t,
        None => return None,
    };
    let lower = lower_chars(&chars_of(text));
    let ms = distro_markers_exec();
    let ghost mv = ms@.map_values(|p: (&'static str, &'static str)| (p.0@, p.1@));
    let mut i: usize = 0;
    assert(mv.skip(0) == mv);
    assert(distro_from_grub_cfg(b@) == marker_in_text(distro_markers(), lower@));
    while i < ms.len()
        invariant
            distro_from_grub_cfg(b@) == marker_in_text(distro_markers(), lower@),
            i <= ms@.len(),
            mv == ms@.map_values(|p: (&'static str, &'static str)| (p.0@, p.1@)),
            mv == distro_markers(),
            lower@ == lower_seq(decode_utf8(b@)),
            marker_in_text(mv, lower@) == marker_in_text(mv.skip(i as int), lower@),
        decreases ms@.len() - i,
    {
        assert(mv.skip(i as int)[0] == (ms@[i as int].0@, ms@[i as int].1@));
        assert(mv.skip(i as int).drop_first() == mv.skip(i + 1));
        if contains_chars(&lower, &chars_of(ms[i].0)) {
            return Some(chars_of(ms[i].1));
        }
        i = i + 1;
    }
    assert(mv.skip(i as int).len() == 0);
    None
}

/// The text before the first occurrence of `pat` (all of it if none).
pub open spec fn before_first(s: Seq<char>, pat: Seq<char>) -> Seq<char> {
    if exists|i: int| occurs_at(s, pat, i) {
        s.take(choose_first(s, pat))
    } else {
        s
    }
}

/// The first position where `pat` occurs.
pub open spec fn choose_first(s: Seq<char>, pat: Seq<char>) -> int {
    choose|i: int| occurs_at(s, pat, i) && forall|j: int| 0 <= j < i ==> !occurs_at(s, pat, j)
}

fn before_first_exec(s: &[char], pat: &[char]) -> (r: Vec<char>)
    ensures
        r@ == before_first(s@, pat@),
{
    let mut i: usize = 0;
    loop
        invariant
            i <= s@.len(),
            forall|j: int| 0 <= j < i ==> !occurs_at(s@, pat@, j),
        decreases s@.len() - i,
    {
        if occurs_at_exec(s, pat, i) {
            assert(occurs_at(s@, pat@, i as int) && forall|j: int| 0 <= j < i ==> !occurs_at(s@, pat@, j));
            assert(choose_first(s@, pat@) == i) by {
                let c = choose_first(s@, pat@);
                if c < i {
                } else if c > i {
                }
            }
            return slice_of(s, 0, i);
        }
        if i == s.len() {
            assert forall|j: int| !occurs_at(s@, pat@, j) by {
                if 0 <= j && j < i {
                }
            }
            return slice_of(s, 0, s.len());
        }
        i = i + 1;
    }
}

/// A product-info file's first line as a clean, short menu title: the text
/// before the first `"` (codename) and before the first ` - ` (release
/// suffix), trimmed, at most 48 characters.
pub open spec fn clean_product_name(b: Seq<u8>) -> Option<Seq<char>> {
    if !valid_utf8(b) || lines(decode_utf8(b)).len() == 0 {
        None
    } else {
        let line = trim(lines(decode_utf8(b))[0]);
        if line.len() == 0 {
            None
        } else {
            let name = trim(before_first(split_on(line, '"')[0], " - "@));
            if name.len() == 0 {
                None
            } else {
                Some(take_chars(name, 48))
            }
        }
    }
}

fn clean_product_name_exec(b: &[u8]) -> (r: Option<Vec<char>>)
    ensures
        match clean_product_name(b@) {
            Some(t) => r matches Some(x) && x@ == t,
            None => r is None,
        },
{
    let text = match str_from_utf8(b) {
        Some(t) => chars_of(t),
        None => return None,
    };
    let l0 = match first_line(&text) {
        Some(l) => l,
        None => return None,
    };
    let line = trim_chars(&l0);
    if line.len() == 0 {
        return None;
    }
    let parts = split_chars(&line, '"');
    proof {
        lemma_split_nonempty(line@, '"');
    }
    assert(views(parts@)[0] == parts@[0]@);
    let sep = chars_of(" - ");
    let cut = before_first_exec(parts[0].as_slice(), &sep);
    let name = trim_chars(&cut);
    if name.len() == 0 {
        return None;
    }
    Some(take_chars_exec(&name, 48))
}

/// Labels that name no particular system.
pub open spec fn generic_labels() -> Seq<Seq<char>> {
    seq![""@, "ESP"@, "EFI"@, "BOOT"@, "CDROM"@, "ISOIMAGE"@, "SYSTEM"@, "QEMU VVFAT"@]
}

/// A volume label that is a real name: not a generic one (ignoring ASCII
/// case) and at least two bytes long.
pub open spec fn label_name(label: Seq<char>) -> Option<Seq<char>> {
    let l = trim(label);
    if !(exists|i: int| 0 <= i < generic_labels().len() && lower_seq(l) == lower_seq(#[trigger] generic_labels()[i]))
        && encode_utf8(l).len() >= 2 {
        Some(take_chars(l, 48))
    } else {
        None
    }
}

fn label_name_exec(label: &str) -> (r: Option<Vec<char>>)
    ensures
        match label_name(label@) {
            Some(t) => r matches Some(x) && x@ == t,
            None => r is None,
        },
{
    let l = trim_chars(&chars_of(label));
    let lower = lower_chars(&l);
    let ghost lt = trim(label@);
    let gs: Vec<&'static str> = vec!["", "ESP", "EFI", "BOOT", "CDROM", "ISOIMAGE", "SYSTEM", "QEMU VVFAT"];
    assert(gs@.map_values(|g: &'static str| g@) =~= generic_labels());
    let mut i: usize = 0;
    while i < gs.len()
        invariant
            i <= gs@.len(),
            gs@.map_values(|g: &'static str| g@) == generic_labels(),
            lower@ == lower_seq(l@),
            l@ == trim(label@),
            forall|k: int| 0 <= k < i ==> lower_seq(l@) != lower_seq(#[trigger] generic_labels()[k]),
        decreases gs@.len() - i,
    {
        assert(generic_labels()[i as int] == gs@[i as int]@);
        let g = lower_chars(&chars_of(gs[i]));
        if eq_chars(&lower, &g) {
            return None;
        }
        i = i + 1;
    }
    let s = string_of(&l);
    if s.as_str().as_bytes().len() < 2 {
        return None;
    }
    Some(take_chars_exec(&l, 48))
}

/// Which reading of a file names the OS.
pub enum Probe {
    BootCsv,
    ProductInfo,
    GrubCfg,
    LoaderBinary,
    OsRelease,
}

pub open spec fn probe(p: Probe, b: Seq<u8>) -> Option<Seq<char>> {
    match p {
        Probe::BootCsv => label_from_boot_csv(b),
        Probe::ProductInfo => clean_product_name(b),
        Probe::GrubCfg => distro_from_grub_cfg(b),
        Probe::LoaderBinary => distro_from_bytes(b),
        Probe::OsRelease => if valid_utf8(b) {
            crate::discovery::distros::parse_pretty(decode_utf8(b))
        } else {
            None
        },
    }
}

/// The first name `p` finds among the files at `paths` (in order) that are
/// in `m`.
pub open spec fn first_found(m: Map<Seq<char>, Seq<u8>>, paths: Seq<Seq<char>>, p: Probe) -> Option<Seq<char>>
    decreases paths.len(),
{
    if paths.len() == 0 {
        None
    } else if m.contains_key(paths[0]) && probe(p, m[paths[0]]) is Some {
        probe(p, m[paths[0]])
    } else {
        first_found(m, paths.drop_first(), p)
    }
}

pub open spec fn csv_paths() -> Seq<Seq<char>> {
    seq!["\\EFI\\BOOT\\BOOT.CSV"@, "\\EFI\\BOOT\\BOOTX64.CSV"@]
}

pub open spec fn info_paths() -> Seq<Seq<char>> {
    seq!["\\.disk\\info"@, "\\.disk\\info.txt"@]
}

pub open spec fn grub_paths() -> Seq<Seq<char>> {
    seq!["\\EFI\\BOOT\\grub.cfg"@, "\\boot\\grub\\grub.cfg"@, "\\EFI\\BOOT\\grub\\grub.cfg"@]
}

pub open spec fn binary_paths() -> Seq<Seq<char>> {
    seq!["\\EFI\\BOOT\\BOOTX64.EFI"@, "\\EFI\\BOOT\\grubx64.efi"@, "\\EFI\\BOOT\\shimx64.efi"@]
}

/// A human-friendly product name for the removable loader of a volume whose
/// readable files are `m` and whose label is `label`: a BOOT.CSV label, then
/// a product-info file, then the distribution a grub.cfg names, then a
/// marker in a loader binary, then a real volume label.
pub open spec fn media_name(m: Map<Seq<char>, Seq<u8>>, label: Option<Seq<char>>) -> Option<Seq<char>> {
    match first_found(m, csv_paths(), Probe::BootCsv) {
        Some(n) => Some(n),
        None => match first_found(m, info_paths(), Probe::ProductInfo) {
            Some(n) => Some(n),
            None => match first_found(m, grub_paths(), Probe::GrubCfg) {
                Some(n) => Some(n),
                None => match first_found(m, binary_paths(), Probe::LoaderBinary) {
                    Some(n) => Some(n),
                    None => match label {
                        Some(l) => label_name(l),
                        None => None,
                    },
                },
            },
        },
    }
}


/// `m` holds what `files` holds at each of `paths`.
pub open spec fn agrees_on(m: Map<Seq<char>, Seq<u8>>, files: Map<Seq<char>, Seq<u8>>, paths: Seq<Seq<char>>) -> bool {
    forall|i: int|
        0 <= i < paths.len() ==> (m.contains_key(#[trigger] paths[i]) <==> files.contains_key(paths[i]))
            && (m.contains_key(paths[i]) ==> m[paths[i]] == files[paths[i]])
}

pub open spec fn distinct(paths: Seq<Seq<char>>) -> bool {
    forall|i: int, j: int| #![trigger paths[i], paths[j]] 0 <= i < j < paths.len() ==> paths[i] != paths[j]
}

proof fn lemma_first_found_agree(m1: Map<Seq<char>, Seq<u8>>, m2: Map<Seq<char>, Seq<u8>>, paths: Seq<Seq<char>>, p: Probe)
    requires
        agrees_on(m1, m2, paths),
    ensures
        first_found(m1, paths, p) == first_found(m2, paths, p),
    decreases paths.len(),
{
    if paths.len() > 0 {
        assert forall|i: int| 0 <= i < paths.drop_first().len() implies (m1.contains_key(#[trigger] paths.drop_first()[i]) <==> m2.contains_key(paths.drop_first()[i]))
            && (m1.contains_key(paths.drop_first()[i]) ==> m1[paths.drop_first()[i]] == m2[paths.drop_first()[i]]) by {
            assert(paths.drop_first()[i] == paths[i + 1]);
        }
        lemma_first_found_agree(m1, m2, paths.drop_first(), p);
        assert(m1.contains_key(paths[0]) <==> m2.contains_key(paths[0]));
    }
}

proof fn lemma_first_found_skip(m: Map<Seq<char>, Seq<u8>>, paths: Seq<Seq<char>>, p: Probe, i: int)
    requires
        0 <= i <= paths.len(),
        forall|j: int| 0 <= j < i ==> !(m.contains_key(#[trigger] paths[j]) && probe(p, m[paths[j]]) is Some),
    ensures
        first_found(m, paths, p) == first_found(m, paths.skip(i), p),
    decreases i,
{
    if i > 0 {
        assert(!(m.contains_key(paths[0]) && probe(p, m[paths[0]]) is Some));
        assert forall|j: int| 0 <= j < i - 1 implies !(m.contains_key(#[trigger] paths.drop_first()[j]) && probe(p, m[paths.drop_first()[j]]) is Some) by {
            assert(paths.drop_first()[j] == paths[j + 1]);
        }
        lemma_first_found_skip(m, paths.drop_first(), p, i - 1);
        assert(paths.drop_first().skip(i - 1) == paths.skip(i));
    } else {
        assert(paths.skip(0) == paths);
    }
}

fn probe_exec(p: &Probe, b: &[u8]) -> (r: Option<Vec<char>>)
    ensures
        match probe(*p, b@) {
            Some(t) => r matches Some(x) && x@ == t,
            None => r is None,
        },
{
    match p {
        Probe::BootCsv => label_from_boot_csv_exec(b),
        Probe::ProductInfo => clean_product_name_exec(b),
        Probe::GrubCfg => distro_from_grub_cfg_exec(b),
        Probe::LoaderBinary => distro_from_bytes_exec(b),
        Probe::OsRelease => match str_from_utf8(b) {
            Some(t) => match crate::discovery::distros::parse_pretty_name(t) {
                Some(n) => Some(chars_of_string(&n)),
                None => None,
            },
            None => None,
        },
    }
}

/// Try each path in turn; `m` (the files taken as readable) loses each path
/// whose read failed.
pub(crate) fn find_in<F: FileStore>(fs: &F, paths: &Vec<String>, p: Probe, Ghost(m): Ghost<Map<Seq<char>, Seq<u8>>>) -> (r: (Option<Vec<char>>, Ghost<Map<Seq<char>, Seq<u8>>>))
    requires
        fs.modelled() ==> m.submap_of(fs.files()),
        fs.modelled() ==> agrees_on(m, fs.files(), paths@.map_values(|s: String| s@)),
        distinct(paths@.map_values(|s: String| s@)),
    ensures
        fs.modelled() ==> (r.1@.submap_of(fs.files())),
        forall|k: Seq<char>| !paths@.map_values(|s: String| s@).contains(k) ==> (#[trigger] r.1@.contains_key(k) <==> m.contains_key(k)),
        fs.modelled() && fs.never_fails() ==> r.1@ == m,
        match first_found(r.1@, paths@.map_values(|s: String| s@), p) {
            Some(t) => r.0 matches Some(x) && x@ == t,
            None => r.0 is None,
        },
{
    let ghost ps = paths@.map_values(|s: String| s@);
    let ghost mut cur = m;
    let mut i: usize = 0;
    while i < paths.len()
        invariant
            i <= paths@.len(),
            ps == paths@.map_values(|s: String| s@),
            distinct(ps),
            fs.modelled() ==> cur.submap_of(fs.files()),
            fs.modelled() ==> agrees_on(cur, fs.files(), ps.skip(i as int)),
            forall|k: Seq<char>| !ps.contains(k) ==> (#[trigger] cur.contains_key(k) <==> m.contains_key(k)),
            forall|j: int| 0 <= j < i ==> !(cur.contains_key(#[trigger] ps[j]) && probe(p, cur[ps[j]]) is Some),
            fs.modelled() && fs.never_fails() ==> cur == m,
        decreases paths@.len() - i,
    {
        let path = paths[i].as_str();
        assert(ps[i as int] == path@);
        assert(ps.skip(i as int)[0] == path@);
        let ghost before = cur;
        match fs.read(path) {
            Ok(b) => {
                proof {
                    if !fs.modelled() {
                        cur = cur.insert(path@, b@);
                        assert forall|j: int| 0 <= j < i implies !(cur.contains_key(#[trigger] ps[j]) && probe(p, cur[ps[j]]) is Some) by {
                            assert(ps[j] != ps[i as int]);
                            assert(before.contains_key(ps[j]) == cur.contains_key(ps[j]));
                        }
                        assert forall|k: Seq<char>| !ps.contains(k) implies (#[trigger] cur.contains_key(k) <==> m.contains_key(k)) by {
                            if !ps.contains(k) {
                                assert(k != ps[i as int]);
                            }
                        }
                    }
                }
                assert(cur.contains_key(path@) && cur[path@] == b@);
                match probe_exec(&p, b.as_slice()) {
                    Some(name) => {
                        proof {
                            lemma_first_found_skip(cur, ps, p, i as int);
                        }
                        return (Some(name), Ghost(cur));
                    },
                    None => {},
                }
            },
            Err(_) => {
                proof {
                    if fs.modelled() && fs.never_fails() {
                        assert(!cur.contains_key(path@));
                        assert(cur.remove(path@) =~= cur);
                    }
                    cur = cur.remove(path@);
                    assert forall|j: int| 0 <= j < i implies !(cur.contains_key(#[trigger] ps[j]) && probe(p, cur[ps[j]]) is Some) by {
                        assert(ps[j] != ps[i as int]);
                        assert(before.contains_key(ps[j]) == cur.contains_key(ps[j]));
                    }
                }
            },
        }
        proof {
            if fs.modelled() {
                assert forall|x: int| 0 <= x < ps.skip(i + 1).len() implies (cur.contains_key(#[trigger] ps.skip(i + 1)[x]) <==> fs.files().contains_key(ps.skip(i + 1)[x]))
                    && (cur.contains_key(ps.skip(i + 1)[x]) ==> cur[ps.skip(i + 1)[x]] == fs.files()[ps.skip(i + 1)[x]]) by {
                    assert(ps.skip(i + 1)[x] == ps.skip(i as int)[x + 1]);
                    assert(ps.skip(i + 1)[x] == ps[i + 1 + x]);
                    assert(ps[i + 1 + x] != ps[i as int]);
                }
            }
            assert forall|k: Seq<char>| !ps.contains(k) implies (#[trigger] cur.contains_key(k) <==> m.contains_key(k)) by {
                if !ps.contains(k) {
                    assert(k != ps[i as int]);
                }
            }
        }
        i = i + 1;
    }
    proof {
        lemma_first_found_skip(cur, ps, p, i as int);
        assert(ps.skip(i as int).len() == 0);
    }
    (None, Ghost(cur))
}


proof fn lemma_agree_via_files(ma: Map<Seq<char>, Seq<u8>>, mb: Map<Seq<char>, Seq<u8>>, files: Map<Seq<char>, Seq<u8>>, ps: Seq<Seq<char>>)
    requires
        ma.submap_of(files),
        mb.submap_of(files),
        forall|i: int| 0 <= i < ps.len() ==> (ma.contains_key(#[trigger] ps[i]) <==> mb.contains_key(ps[i])),
    ensures
        agrees_on(ma, mb, ps),
{
    assert forall|i: int| 0 <= i < ps.len() implies (ma.contains_key(#[trigger] ps[i]) <==> mb.contains_key(ps[i]))
        && (ma.contains_key(ps[i]) ==> ma[ps[i]] == mb[ps[i]]) by {
        if ma.contains_key(ps[i]) {
            assert(files.dom().contains(ps[i]));
            assert(ma[ps[i]] == files[ps[i]]);
            assert(mb[ps[i]] == files[ps[i]]);
        }
    }
}

proof fn lemma_paths_facts()
    ensures
        distinct(csv_paths()),
        distinct(info_paths()),
        distinct(grub_paths()),
        distinct(binary_paths()),
        forall|i: int| 0 <= i < csv_paths().len() ==> !info_paths().contains(#[trigger] csv_paths()[i]) && !grub_paths().contains(csv_paths()[i]) && !binary_paths().contains(csv_paths()[i]),
        forall|i: int| 0 <= i < info_paths().len() ==> !grub_paths().contains(#[trigger] info_paths()[i]) && !binary_paths().contains(info_paths()[i]),
        forall|i: int| 0 <= i < grub_paths().len() ==> !binary_paths().contains(#[trigger] grub_paths()[i]),
{
    reveal_strlit("\\EFI\\BOOT\\BOOT.CSV");
    reveal_strlit("\\EFI\\BOOT\\BOOTX64.CSV");
    reveal_strlit("\\.disk\\info");
    reveal_strlit("\\.disk\\info.txt");
    reveal_strlit("\\EFI\\BOOT\\grub.cfg");
    reveal_strlit("\\boot\\grub\\grub.cfg");
    reveal_strlit("\\EFI\\BOOT\\grub\\grub.cfg");
    reveal_strlit("\\EFI\\BOOT\\BOOTX64.EFI");
    reveal_strlit("\\EFI\\BOOT\\grubx64.efi");
    reveal_strlit("\\EFI\\BOOT\\shimx64.efi");
    let a = "\\EFI\\BOOT\\BOOT.CSV"@;
    let b = "\\EFI\\BOOT\\BOOTX64.CSV"@;
    let c = "\\.disk\\info"@;
    let d = "\\.disk\\info.txt"@;
    let e = "\\EFI\\BOOT\\grub.cfg"@;
    let f = "\\boot\\grub\\grub.cfg"@;
    let g = "\\EFI\\BOOT\\grub\\grub.cfg"@;
    let h = "\\EFI\\BOOT\\BOOTX64.EFI"@;
    let k = "\\EFI\\BOOT\\grubx64.efi"@;
    let l = "\\EFI\\BOOT\\shimx64.efi"@;
    assert(a[10] != e[10]);
    assert(e[1] != f[1]);
    assert(h[10] != k[10]);
    assert(h[10] != l[10]);
    assert(k[10] != l[10]);
    assert(b[19] != h[19]);
    assert(b[10] != k[10]);
    assert(b[10] != l[10]);
    assert(a.len() != b.len());
    assert(c.len() != d.len());
    assert(a != b);
    assert(c != d);
    assert(csv_paths()[0] == a && csv_paths()[1] == b);
    assert(info_paths()[0] == c && info_paths()[1] == d);
    assert(grub_paths()[0] == e && grub_paths()[1] == f && grub_paths()[2] == g);
    assert(binary_paths()[0] == h && binary_paths()[1] == k && binary_paths()[2] == l);
    assert(e.len() != g.len() && f.len() != g.len());
    assert(e != g && f != g);
    assert(c.len() != e.len() && c.len() != f.len() && c.len() != g.len());
    assert(d.len() != e.len() && d.len() != f.len() && d.len() != g.len());
    assert(c.len() != h.len() && d.len() != h.len());
    assert(c != e && c != f && c != g && d != e && d != f && d != g);
    assert(c != h && c != k && c != l && d != h && d != k && d != l);
    assert(a != e);
    assert(e != f);
    assert(h != k);
    assert(h != l);
    assert(k != l);
    assert(b != h);
    assert(b != k);
    assert(b != l);
}

/// A human-friendly product name for this volume's removable loader; reads
/// that fail count as absent files.
fn media_name_exec<F: FileStore>(fs: &F) -> (r: Option<Vec<char>>)
    ensures
        fs.modelled() ==> (exists|m: Map<Seq<char>, Seq<u8>>|
                m.submap_of(fs.files()) && match media_name(m, fs.label()) {
                    Some(t) => r matches Some(x) && x@ == t,
                    None => r is None,
                }),
        fs.modelled() ==> (fs.never_fails() ==> match media_name(fs.files(), fs.label()) {
                Some(t) => r matches Some(x) && x@ == t,
                None => r is None,
            }),
{
    proof {
        lemma_paths_facts();
    }
    let csv: Vec<String> = vec!["\\EFI\\BOOT\\BOOT.CSV".to_owned(), "\\EFI\\BOOT\\BOOTX64.CSV".to_owned()];
    let info: Vec<String> = vec!["\\.disk\\info".to_owned(), "\\.disk\\info.txt".to_owned()];
    let grub: Vec<String> = vec![
        "\\EFI\\BOOT\\grub.cfg".to_owned(),
        "\\boot\\grub\\grub.cfg".to_owned(),
        "\\EFI\\BOOT\\grub\\grub.cfg".to_owned(),
    ];
    let bins: Vec<String> = vec![
        "\\EFI\\BOOT\\BOOTX64.EFI".to_owned(),
        "\\EFI\\BOOT\\grubx64.efi".to_owned(),
        "\\EFI\\BOOT\\shimx64.efi".to_owned(),
    ];
    assert(csv@.map_values(|s: String| s@) =~= csv_paths());
    assert(info@.map_values(|s: String| s@) =~= info_paths());
    assert(grub@.map_values(|s: String| s@) =~= grub_paths());
    assert(bins@.map_values(|s: String| s@) =~= binary_paths());
    let ghost files = fs.files();
    assert(files.submap_of(files));
    let (r1, Ghost(m1)) = find_in(fs, &csv, Probe::BootCsv, Ghost(files));
    if let Some(n) = r1 {
        return Some(n);
    }
    proof {
        if fs.modelled() {
            lemma_agree_via_files(m1, files, files, info_paths());
        }
    }
    let (r2, Ghost(m2)) = find_in(fs, &info, Probe::ProductInfo, Ghost(m1));
    proof {
        if fs.modelled() {
            lemma_agree_via_files(m2, m1, files, csv_paths());
            lemma_first_found_agree(m2, m1, csv_paths(), Probe::BootCsv);
        }
    }
    if let Some(n) = r2 {
        return Some(n);
    }
    proof {
        if fs.modelled() {
            lemma_agree_via_files(m2, files, files, grub_paths());
        }
    }
    let (r3, Ghost(m3)) = find_in(fs, &grub, Probe::GrubCfg, Ghost(m2));
    proof {
        if fs.modelled() {
            lemma_agree_via_files(m3, m2, files, csv_paths());
            lemma_first_found_agree(m3, m2, csv_paths(), Probe::BootCsv);
            lemma_agree_via_files(m3, m2, files, info_paths());
            lemma_first_found_agree(m3, m2, info_paths(), Probe::ProductInfo);
        }
    }
    if let Some(n) = r3 {
        return Some(n);
    }
    proof {
        if fs.modelled() {
            lemma_agree_via_files(m3, files, files, binary_paths());
        }
    }
    let (r4, Ghost(m4)) = find_in(fs, &bins, Probe::LoaderBinary, Ghost(m3));
    proof {
        if fs.modelled() {
            lemma_agree_via_files(m4, m3, files, csv_paths());
            lemma_first_found_agree(m4, m3, csv_paths(), Probe::BootCsv);
            lemma_agree_via_files(m4, m3, files, info_paths());
            lemma_first_found_agree(m4, m3, info_paths(), Probe::ProductInfo);
            lemma_agree_via_files(m4, m3, files, grub_paths());
            lemma_first_found_agree(m4, m3, grub_paths(), Probe::GrubCfg);
        }
    }
    if let Some(n) = r4 {
        return Some(n);
    }
    match fs.volume_label() {
        Some(l) => label_name_exec(l.as_str()),
        None => None,
    }
}


pub open spec fn is_graphic_or_space(b: u8) -> bool {
    (0x21 <= b && b <= 0x7E) || b == 0x20
}

/// The printable runs of a binary so far and the run in progress.
pub open spec fn sample_fold(bytes: Seq<u8>) -> (Seq<char>, Seq<char>)
    decreases bytes.len(),
{
    if bytes.len() == 0 {
        (seq![], seq![])
    } else {
        let (out, run) = sample_fold(bytes.drop_last());
        let b = bytes.last();
        if is_graphic_or_space(b) {
            (out, run.push((b as u32) as char))
        } else {
            let t = trim(run);
            (if t.len() >= 6 && out.len() < 400 {
                out + t + seq!['|']
            } else {
                out
            }, seq![])
        }
    }
}

/// A sample of the printable ASCII strings (six characters or more, each
/// ended by `|`) of a binary, at most 400 characters; a run still open at
/// the end is not included.
pub open spec fn string_sample(bytes: Seq<u8>) -> Seq<char> {
    take_chars(sample_fold(bytes).0, 400)
}

/// The printable-string sample of a loader binary (see [`string_sample`]).
pub fn loader_strings(bytes: &[u8]) -> (r: String)
    ensures
        r@ == string_sample(bytes@),
{
    let mut out: Vec<char> = Vec::new();
    let mut run: Vec<char> = Vec::new();
    let mut i: usize = 0;
    while i < bytes.len()
        invariant
            i <= bytes@.len(),
            (out@, run@) == sample_fold(bytes@.take(i as int)),
        decreases bytes@.len() - i,
    {
        let b = bytes[i];
        assert(bytes@.take(i + 1).drop_last() == bytes@.take(i as int));
        assert(bytes@.take(i + 1).last() == b);
        if (0x21 <= b && b <= 0x7E) || b == 0x20 {
            run.push(b as char);
        } else {
            let t = trim_chars(&run);
            if t.len() >= 6 && out.len() < 400 {
                let ghost before = out@;
                let mut k: usize = 0;
                while k < t.len()
                    invariant
                        k <= t@.len(),
                        out@ == before + t@.take(k as int),
                    decreases t@.len() - k,
                {
                    out.push(t[k]);
                    k = k + 1;
                    assert(out@ =~= before + t@.take(k as int));
                }
                assert(t@.take(k as int) == t@);
                out.push('|');
                assert(out@ =~= before + t@ + seq!['|']);
            }
            run = Vec::new();
            assert(run@ =~= Seq::<char>::empty());
        }
        i = i + 1;
    }
    assert(bytes@.take(i as int) == bytes@);
    string_of(&take_chars_exec(&out, 400))
}

/// A sample of the printable strings of this volume's removable loader, so
/// a log can show what markers it carries; empty when it cannot be read.
pub fn loader_string_sample<F: FileStore>(fs: &F) -> (r: String)
    ensures
        fs.modelled() ==> (r@ == Seq::<char>::empty() || (fs.files().contains_key(FALLBACK_LOADER@) && r@ == string_sample(
                fs.files()[FALLBACK_LOADER@],
            ))),
        fs.modelled() ==> (!fs.files().contains_key(FALLBACK_LOADER@) ==> r@ == Seq::<char>::empty()),
        fs.modelled() ==> (fs.never_fails() && fs.files().contains_key(FALLBACK_LOADER@) ==> r@ == string_sample(
                fs.files()[FALLBACK_LOADER@],
            )),
{
    match fs.read(FALLBACK_LOADER) {
        Ok(b) => loader_strings(b.as_slice()),
        Err(_) => String::new(),
    }
}

/// The entries of the ESP probe: the Windows boot manager if its loader is
/// present, and the removable fallback loader if present, named `name`
/// (generic when there is none).
pub open spec fn esp_entries(files: Map<Seq<char>, Seq<u8>>, name: Option<Seq<char>>) -> Seq<RawEntryV> {
    let win: Seq<RawEntryV> = if files.contains_key(WINDOWS_LOADER@) {
        seq![RawEntryV {
            loader: Some(WINDOWS_LOADER@),
            ..raw_new(OsKind::Windows, "Windows"@, "Windows Boot Manager"@, RoleV::Default, BootMethod::WindowsBootManager)
        }]
    } else {
        seq![]
    };
    let fb: Seq<RawEntryV> = if files.contains_key(FALLBACK_LOADER@) {
        let (os_name, title) = match name {
            Some(n) => (n, n),
            None => ("EFI"@, "EFI Fallback Loader"@),
        };
        seq![RawEntryV {
            loader: Some(FALLBACK_LOADER@),
            ..raw_new(OsKind::GenericEfi, os_name, title, RoleV::Fallback, BootMethod::EfiChainload)
        }]
    } else {
        seq![]
    };
    win + fb
}

/// What the ESP probe can give for a volume holding `files`: the Windows
/// and fallback entries, the fallback named from whichever of the probed
/// files could be read.
pub open spec fn esp_result(files: Map<Seq<char>, Seq<u8>>, label: Option<Seq<char>>, r: Seq<RawEntryV>) -> bool {
    exists|m: Map<Seq<char>, Seq<u8>>|
        m.submap_of(files) && r == esp_entries(files, media_name(m, label))
}

/// Probe the ESP for the Windows boot manager and the removable fallback
/// loader; the fallback is named as [`media_name`] says from the files that
/// could be read (from all of them, on a store that never fails).
pub fn discover<F: FileStore>(fs: &F) -> (r: Vec<RawEntry>)
    ensures
        fs.modelled() ==> (esp_result(fs.files(), fs.label(), raws_view(r@))),
        fs.modelled() ==> (fs.never_fails() ==> raws_view(r@) == esp_entries(fs.files(), media_name(fs.files(), fs.label()))),

{
    let mut out: Vec<RawEntry> = Vec::new();
    if fs.path_exists(WINDOWS_LOADER) {
        let mut e = RawEntry::new(OsKind::Windows, "Windows", "Windows Boot Manager", EntryRole::Default, BootMethod::WindowsBootManager);
        e.loader = Some(WINDOWS_LOADER.to_owned());
        out.push(e);
    }
    let ghost w = raws_view(out@);
    if fs.path_exists(FALLBACK_LOADER) {
        let name = media_name_exec(fs);
        let (os_name, title) = match &name {
            Some(n) => (string_of(n), string_of(n)),
            None => ("EFI".to_owned(), "EFI Fallback Loader".to_owned()),
        };
        let mut e = RawEntry::new(OsKind::GenericEfi, os_name.as_str(), title.as_str(), EntryRole::Fallback, BootMethod::EfiChainload);
        e.loader = Some(FALLBACK_LOADER.to_owned());
        out.push(e);
        proof {
            if fs.modelled() {
                let m = choose|m: Map<Seq<char>, Seq<u8>>|
                    m.submap_of(fs.files()) && match media_name(m, fs.label()) {
                        Some(t) => name matches Some(x) && x@ == t,
                        None => name is None,
                    };
                assert(raws_view(out@) =~= esp_entries(fs.files(), media_name(m, fs.label())));
                if fs.never_fails() {
                    assert(raws_view(out@) =~= esp_entries(fs.files(), media_name(fs.files(), fs.label())));
                }
            }
        }
    } else {
        proof {
            if fs.modelled() {
                let m = fs.files();
                assert(m.submap_of(fs.files()));
                assert(raws_view(out@) =~= esp_entries(fs.files(), media_name(m, fs.label())));
            }
        }
    }
    out
}

} // verus!
