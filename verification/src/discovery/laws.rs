//! What the discovery sources promise of every input: how a firmware boot
//! option is classified, that a bootspec's paths reach its entry, and that
//! a distribution spin is named before the base it is built on.
use vstd::prelude::*;
use vstd::utf8::encode_utf8;
use crate::graph::kinds::{OsKind, BootMethod, RoleV};
use crate::discovery::RawEntryV;
use crate::discovery::variables::option_entry;
use crate::discovery::bootspec::{bootspec_entry, doc_entries, V1};
use crate::discovery::json::{JsonV, json_get, json_path};
use crate::discovery::esp::{distro_markers, marker_in_text, marker_in_bytes, distro_from_bytes,
    distro_from_grub_cfg, contains_ascii_ci};
use crate::text::{lower_seq, contains_seq};
use crate::discovery::distros::{dir_entry, efi_path};

verus! {

/// `q` is the path `p` in EFI form: the same characters, each `/` a `\`.
pub open spec fn efi_form_of(p: Seq<char>, q: Seq<char>) -> bool {
    &&& q.len() == p.len()
    &&& forall|k: int| 0 <= k < p.len() ==> #[trigger] q[k] == (if p[k] == '/' { '\\' } else { p[k] })
}

/// A firmware boot option is classified by the words of its lower-cased
/// description: "windows" makes it the Windows boot manager; else "nixos"
/// makes it NixOS; else each of "linux", "ubuntu" and "fedora" on its own
/// makes it a Linux chainload named "Linux"; with none of them it is a
/// generic EFI chainload.
pub proof fn law_boot_option_classification(d: Seq<char>)
    ensures
        contains_seq(lower_seq(d), "windows"@) ==> {
            &&& option_entry(d).kind == OsKind::Windows
            &&& option_entry(d).os_name == "Windows"@
            &&& option_entry(d).method == BootMethod::WindowsBootManager
        },
        !contains_seq(lower_seq(d), "windows"@) && contains_seq(lower_seq(d), "nixos"@) ==> {
            &&& option_entry(d).kind == OsKind::NixOs
            &&& option_entry(d).os_name == "NixOS"@
            &&& option_entry(d).method == BootMethod::EfiChainload
        },
        !contains_seq(lower_seq(d), "windows"@) && !contains_seq(lower_seq(d), "nixos"@) && (
        contains_seq(lower_seq(d), "linux"@) || contains_seq(lower_seq(d), "ubuntu"@)
            || contains_seq(lower_seq(d), "fedora"@)) ==> {
            &&& option_entry(d).kind == OsKind::Linux
            &&& option_entry(d).os_name == "Linux"@
            &&& option_entry(d).method == BootMethod::EfiChainload
        },
        !contains_seq(lower_seq(d), "windows"@) && !contains_seq(lower_seq(d), "nixos"@)
            && !contains_seq(lower_seq(d), "linux"@) && !contains_seq(lower_seq(d), "ubuntu"@)
            && !contains_seq(lower_seq(d), "fedora"@) ==> {
            &&& option_entry(d).kind == OsKind::GenericEfi
            &&& option_entry(d).os_name == "EFI"@
            &&& option_entry(d).method == BootMethod::EfiChainload
        },
        option_entry(d).title == d,
        option_entry(d).role == RoleV::Default,
{
}

/// A bootspec object's entry boots the kernel and the initrd it names: its
/// kernel is the `kernel` string in EFI form, its initrd the `initrd`
/// string in EFI form when there is one and none otherwise; an object
/// without a `kernel` string gives no entry.
pub proof fn law_bootspec_paths(bs: JsonV, gen: Option<u32>, spec: Option<Seq<char>>)
    ensures
        match bootspec_entry(bs, gen, spec) {
            Some(e) => {
                &&& json_get(bs, "kernel"@) matches Some(JsonV::Str(k)) && e.kernel matches Some(q)
                    && efi_form_of(k, q)
                &&& json_get(bs, "initrd"@) matches Some(JsonV::Str(i)) ==> e.initrd matches Some(q)
                    && efi_form_of(i, q)
                &&& !(json_get(bs, "initrd"@) matches Some(JsonV::Str(_))) ==> e.initrd is None
                &&& e.kind == OsKind::NixOs
            },
            None => !(json_get(bs, "kernel"@) matches Some(JsonV::Str(_))),
        },
{
}

/// The generation entry of a bootspec document for generation `g` comes
/// first, is that generation, and boots the document's kernel and initrd.
pub proof fn law_generation_entry_paths(doc: JsonV, g: u32, k: Seq<char>, i: Seq<char>)
    requires
        json_path(doc, seq![V1@]) matches Some(bs) && json_get(bs, "kernel"@) == Some(JsonV::Str(k))
            && json_get(bs, "initrd"@) == Some(JsonV::Str(i)),
    ensures
        doc_entries(doc, Some(g)).len() > 0,
        doc_entries(doc, Some(g))[0].role == RoleV::Generation(g),
        doc_entries(doc, Some(g))[0].kernel matches Some(q) && efi_form_of(k, q),
        doc_entries(doc, Some(g))[0].initrd matches Some(q) && efi_form_of(i, q),
{
    let bs = json_path(doc, seq![V1@])->0;
    law_bootspec_paths(bs, Some(g), None);
}

/// The marker table's first hit in a text is at or before any marker the
/// text contains.
proof fn lemma_first_text_hit(ms: Seq<(Seq<char>, Seq<char>)>, t: Seq<char>, i: int)
    requires
        0 <= i < ms.len(),
        contains_seq(t, ms[i].0),
    ensures
        exists|k: int| 0 <= k <= i && marker_in_text(ms, t) == Some(#[trigger] ms[k].1),
    decreases i,
{
    if contains_seq(t, ms[0].0) {
        assert(marker_in_text(ms, t) == Some(ms[0].1));
    } else {
        lemma_first_text_hit(ms.drop_first(), t, i - 1);
        let k = choose|k: int| 0 <= k <= i - 1 && marker_in_text(ms.drop_first(), t) == Some(#[trigger] ms.drop_first()[k].1);
        assert(ms.drop_first()[k] == ms[k + 1]);
    }
}

/// The same for bytes, matched ignoring ASCII case.
proof fn lemma_first_byte_hit(ms: Seq<(Seq<char>, Seq<char>)>, b: Seq<u8>, i: int)
    requires
        0 <= i < ms.len(),
        contains_ascii_ci(b, encode_utf8(ms[i].0)),
    ensures
        exists|k: int| 0 <= k <= i && marker_in_bytes(ms, b) == Some(#[trigger] ms[k].1),
    decreases i,
{
    if contains_ascii_ci(b, encode_utf8(ms[0].0)) {
        assert(marker_in_bytes(ms, b) == Some(ms[0].1));
    } else {
        lemma_first_byte_hit(ms.drop_first(), b, i - 1);
        let k = choose|k: int| 0 <= k <= i - 1 && marker_in_bytes(ms.drop_first(), b) == Some(#[trigger] ms.drop_first()[k].1);
        assert(ms.drop_first()[k] == ms[k + 1]);
    }
}

/// The spins of the marker table with the name of the base each is built
/// on: Parrot, Kali and Tails on Debian; Linux Mint, Zorin, Pop!_OS and
/// elementary on Ubuntu; Manjaro and EndeavourOS on Arch.
pub open spec fn spin_bases() -> Seq<(Seq<char>, Seq<char>)> {
    seq![
        ("parrot"@, "Debian"@),
        ("kali"@, "Debian"@),
        ("tails"@, "Debian"@),
        ("linuxmint"@, "Ubuntu"@),
        ("zorin"@, "Ubuntu"@),
        ("pop!_os"@, "Ubuntu"@),
        ("pop_os"@, "Ubuntu"@),
        ("elementary"@, "Ubuntu"@),
        ("manjaro"@, "Arch Linux"@),
        ("endeavour"@, "Arch Linux"@),
    ]
}

proof fn lemma_spin_positions()
    ensures
        forall|s: int|
            0 <= s < spin_bases().len() ==> exists|i: int|
                0 <= i < distro_markers().len() && distro_markers()[i].0 == #[trigger] spin_bases()[s].0
                    && forall|k: int| 0 <= k <= i ==> distro_markers()[k].1 != spin_bases()[s].1,
{
    reveal_strlit("Parrot OS");
    reveal_strlit("Kali Linux");
    reveal_strlit("Linux Mint");
    reveal_strlit("Zorin OS");
    reveal_strlit("Tails");
    reveal_strlit("Pop!_OS");
    reveal_strlit("elementary OS");
    reveal_strlit("Manjaro");
    reveal_strlit("EndeavourOS");
    reveal_strlit("NixOS");
    reveal_strlit("Fedora");
    reveal_strlit("Ubuntu");
    reveal_strlit("Arch Linux");
    reveal_strlit("Debian");
    let m = distro_markers();
    let sb = spin_bases();
    assert(m[0].1 == "Parrot OS"@);
    assert(m[0].1.len() != 6 && (m[0].1.len() != 10 || m[0].1[0] != 'A'));
    assert(m[1].1 == "Kali Linux"@);
    assert(m[1].1.len() != 6 && (m[1].1.len() != 10 || m[1].1[0] != 'A'));
    assert(m[2].1 == "Linux Mint"@);
    assert(m[2].1.len() != 6 && (m[2].1.len() != 10 || m[2].1[0] != 'A'));
    assert(m[3].1 == "Zorin OS"@);
    assert(m[3].1.len() != 6 && (m[3].1.len() != 10 || m[3].1[0] != 'A'));
    assert(m[4].1 == "Tails"@);
    assert(m[4].1.len() != 6 && (m[4].1.len() != 10 || m[4].1[0] != 'A'));
    assert(m[5].1 == "Pop!_OS"@);
    assert(m[5].1.len() != 6 && (m[5].1.len() != 10 || m[5].1[0] != 'A'));
    assert(m[6].1 == "Pop!_OS"@);
    assert(m[6].1.len() != 6 && (m[6].1.len() != 10 || m[6].1[0] != 'A'));
    assert(m[7].1 == "elementary OS"@);
    assert(m[7].1.len() != 6 && (m[7].1.len() != 10 || m[7].1[0] != 'A'));
    assert(m[8].1 == "Manjaro"@);
    assert(m[8].1.len() != 6 && (m[8].1.len() != 10 || m[8].1[0] != 'A'));
    assert(m[9].1 == "EndeavourOS"@);
    assert(m[9].1.len() != 6 && (m[9].1.len() != 10 || m[9].1[0] != 'A'));
    assert forall|s: int|
        0 <= s < sb.len() implies exists|i: int|
            0 <= i < m.len() && m[i].0 == #[trigger] sb[s].0 && forall|k: int|
                0 <= k <= i ==> m[k].1 != sb[s].1 by {
        let i: int = if s == 0 {
            0
        } else if s == 1 {
            1
        } else if s == 2 {
            4
        } else if s == 3 {
            2
        } else if s == 4 {
            3
        } else if s == 5 {
            5
        } else if s == 6 {
            6
        } else if s == 7 {
            7
        } else if s == 8 {
            8
        } else {
            9
        };
        assert(m[i].0 == sb[s].0);
        assert(sb[s].1 == "Debian"@ || sb[s].1 == "Ubuntu"@ || sb[s].1 == "Arch Linux"@);
        assert(sb[s].1.len() == 6 || (sb[s].1.len() == 10 && sb[s].1[0] == 'A'));
    }
}

/// A spin is named before the base it is built on: a text (or a loader
/// binary) that holds a spin's marker is never named after that base,
/// whatever other markers it holds, and it is always named.
pub proof fn law_spins_before_their_base(t: Seq<char>, b: Seq<u8>, s: int)
    requires
        0 <= s < spin_bases().len(),
    ensures
        contains_seq(t, spin_bases()[s].0) ==> marker_in_text(distro_markers(), t) is Some
            && marker_in_text(distro_markers(), t) != Some(spin_bases()[s].1),
        contains_ascii_ci(b, encode_utf8(spin_bases()[s].0)) ==> distro_from_bytes(b) is Some
            && distro_from_bytes(b) != Some(spin_bases()[s].1),
{
    lemma_spin_positions();
    let m = distro_markers();
    let i = choose|i: int|
        0 <= i < m.len() && m[i].0 == #[trigger] spin_bases()[s].0 && forall|k: int|
            0 <= k <= i ==> m[k].1 != spin_bases()[s].1;
    if contains_seq(t, spin_bases()[s].0) {
        lemma_first_text_hit(m, t, i);
    }
    if contains_ascii_ci(b, encode_utf8(spin_bases()[s].0)) {
        lemma_first_byte_hit(m, b, i);
    }
}

/// The same for the distribution a grub.cfg names: a grub.cfg whose
/// lower-cased text holds a spin's marker is never named after its base.
pub proof fn law_grub_cfg_names_the_spin(text: Seq<char>, s: int)
    requires
        0 <= s < spin_bases().len(),
        contains_seq(lower_seq(text), spin_bases()[s].0),
    ensures
        distro_from_grub_cfg(encode_utf8(text)) is Some,
        distro_from_grub_cfg(encode_utf8(text)) != Some(spin_bases()[s].1),
{
    vstd::utf8::encode_utf8_valid_utf8(text);
    vstd::utf8::encode_utf8_decode_utf8(text);
    law_spins_before_their_base(lower_seq(text), seq![], s);
}

/// A vendor directory of the ESP becomes a Linux chainload entry through
/// its shim when it has one, else through its GRUB; the boot manager's own
/// and other non-distribution directories (`BOOT`, `Microsoft`, `systemd`,
/// `refind`, `nixos`, `MyBoot`, in any case) never do, nor does a
/// directory with no loader.
pub proof fn law_vendor_directory_entry(
    files: Map<Seq<char>, Seq<u8>>,
    dir: Seq<char>,
    pretty: Option<Seq<char>>,
)
    ensures
        lower_seq(dir) == "boot"@ || lower_seq(dir) == "microsoft"@ || lower_seq(dir) == "systemd"@
            || lower_seq(dir) == "refind"@ || lower_seq(dir) == "nixos"@ || lower_seq(dir) == "myboot"@
            ==> dir_entry(files, dir, pretty) is None,
        dir_entry(files, dir, pretty) matches Some(e) ==> {
            &&& e.kind == OsKind::Linux
            &&& e.method == BootMethod::EfiChainload
            &&& files.contains_key(efi_path(dir, "shimx64.efi"@)) ==> e.loader == Some(
                efi_path(dir, "shimx64.efi"@),
            )
            &&& !files.contains_key(efi_path(dir, "shimx64.efi"@)) && files.contains_key(
                efi_path(dir, "grubx64.efi"@),
            ) ==> e.loader == Some(efi_path(dir, "grubx64.efi"@))
            &&& pretty matches Some(t) ==> e.title == t
        },
        !files.contains_key(efi_path(dir, "shimx64.efi"@)) && !files.contains_key(
            efi_path(dir, "grubx64.efi"@),
        ) && !files.contains_key(efi_path(dir, "systemd-bootx64.efi"@)) && !files.contains_key(
            efi_path(dir, "bootx64.efi"@),
        ) ==> dir_entry(files, dir, pretty) is None,
{
    reveal_with_fuel(crate::discovery::distros::find_loader, 5);
    let l = crate::discovery::distros::loader_names();
    assert(l[0] == "shimx64.efi"@);
    assert(l.drop_first()[0] == "grubx64.efi"@);
    assert(l.drop_first().drop_first()[0] == "systemd-bootx64.efi"@);
    assert(l.drop_first().drop_first().drop_first()[0] == "bootx64.efi"@);
    assert(l.drop_first().drop_first().drop_first().drop_first().len() == 0);
    let sk = crate::discovery::distros::skipped_dirs();
    assert(sk[0] == "boot"@ && sk[1] == "microsoft"@ && sk[2] == "systemd"@);
    assert(sk[3] == "refind"@ && sk[4] == "nixos"@ && sk[5] == "myboot"@);
}

} // verus!
