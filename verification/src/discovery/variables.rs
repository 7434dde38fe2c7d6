//! Existing UEFI Boot#### options from firmware variables, as `efibootmgr`
//! shows them. Each active option that decodes becomes a chainload entry,
//! classified by its description.
use vstd::prelude::*;
use crate::ports::{VarStore, VarNamespace, names_each_once};
use crate::persistence::loadopt::{LoadOption, decoding, LoadOptError, LoadOptionV, LOAD_OPTION_ACTIVE};
use crate::graph::kinds::{OsKind, EntryRole, BootMethod, RoleV};
use crate::discovery::{RawEntry, RawEntryV, raw_new, raws_view};
use crate::discovery::esp::WINDOWS_LOADER;
use crate::text::{lower_seq, contains_seq, chars_of, lower_chars, contains_chars, starts_with_chars,
    starts_with, chars_of_string};

verus! {

/// A digit or an uppercase hex letter.
pub open spec fn is_upper_hex_char(c: char) -> bool {
    ('0' <= c && c <= '9') || ('A' <= c && c <= 'F')
}

/// `Boot####` where #### are four uppercase hex digits.
pub open spec fn is_boot_option_name(n: Seq<char>) -> bool {
    &&& n.len() == 8
    &&& n.take(4) == "Boot"@
    &&& forall|i: int| 4 <= i < 8 ==> is_upper_hex_char(#[trigger] n[i])
}

/// The OS family and display name a description suggests.
pub open spec fn classify(desc: Seq<char>) -> (OsKind, Seq<char>) {
    let d = lower_seq(desc);
    if contains_seq(d, "windows"@) {
        (OsKind::Windows, "Windows"@)
    } else if contains_seq(d, "nixos"@) {
        (OsKind::NixOs, "NixOS"@)
    } else if contains_seq(d, "linux"@) || contains_seq(d, "ubuntu"@) || contains_seq(d, "fedora"@) {
        (OsKind::Linux, "Linux"@)
    } else {
        (OsKind::GenericEfi, "EFI"@)
    }
}

pub open spec fn chain_method(kind: OsKind) -> BootMethod {
    match kind {
        OsKind::Windows => BootMethod::WindowsBootManager,
        _ => BootMethod::EfiChainload,
    }
}

/// Firmware options carry a device path, not a loader path; a well-known OS
/// gets its canonical loader so it merges with the same OS found on the ESP.
pub open spec fn canonical_loader(kind: OsKind) -> Option<Seq<char>> {
    match kind {
        OsKind::Windows => Some(WINDOWS_LOADER@),
        _ => None,
    }
}

/// The entry an active option with this description becomes.
pub open spec fn option_entry(desc: Seq<char>) -> RawEntryV {
    let (kind, os_name) = classify(desc);
    RawEntryV {
        loader: canonical_loader(kind),
        ..raw_new(kind, os_name, desc, RoleV::Default, chain_method(kind))
    }
}

/// The entry a named variable yields, if it is an active Boot#### option.
pub open spec fn var_entry(name: Seq<char>, bytes: Seq<u8>) -> Option<RawEntryV> {
    if !is_boot_option_name(name) {
        None
    } else {
        match decoding(bytes) {
            Ok(o) => if o.attributes & LOAD_OPTION_ACTIVE != 0 {
                Some(option_entry(o.description))
            } else {
                None
            },
            Err(_) => None,
        }
    }
}

/// The entries of some named variables, in order.
pub open spec fn var_entries(vs: Seq<(Seq<char>, Seq<u8>)>) -> Seq<RawEntryV>
    decreases vs.len(),
{
    if vs.len() == 0 {
        seq![]
    } else {
        match var_entry(vs.last().0, vs.last().1) {
            Some(e) => var_entries(vs.drop_last()).push(e),
            None => var_entries(vs.drop_last()),
        }
    }
}

fn is_upper_hex_exec(c: char) -> (r: bool)
    ensures
        r == is_upper_hex_char(c),
{
    ('0' <= c && c <= '9') || ('A' <= c && c <= 'F')
}

fn is_boot_option_name_exec(n: &str) -> (r: bool)
    ensures
        r == is_boot_option_name(n@),
{
    proof {
        reveal_strlit("Boot");
    }
    let cs = chars_of(n);
    if cs.len() != 8 {
        return false;
    }
    let p = chars_of("Boot");
    if !starts_with_chars(&cs, &p) {
        return false;
    }
    let mut i: usize = 4;
    while i < 8
        invariant
            4 <= i <= 8,
            cs@.len() == 8,
            cs@ == n@,
            forall|k: int| 4 <= k < i ==> is_upper_hex_char(#[trigger] cs@[k]),
        decreases 8 - i,
    {
        if !is_upper_hex_exec(cs[i]) {
            return false;
        }
        i = i + 1;
    }
    true
}

fn classify_exec(desc: &str) -> (r: (OsKind, &'static str))
    ensures
        (r.0, r.1@) == classify(desc@),
{
    let cs = chars_of(desc);
    let d = lower_chars(&cs);
    if contains_chars(&d, &chars_of("windows")) {
        (OsKind::Windows, "Windows")
    } else if contains_chars(&d, &chars_of("nixos")) {
        (OsKind::NixOs, "NixOS")
    } else if contains_chars(&d, &chars_of("linux")) || contains_chars(&d, &chars_of("ubuntu"))
        || contains_chars(&d, &chars_of("fedora")) {
        (OsKind::Linux, "Linux")
    } else {
        (OsKind::GenericEfi, "EFI")
    }
}

fn option_entry_exec(desc: &str) -> (r: RawEntry)
    ensures
        r@ == option_entry(desc@),
{
    let (kind, os_name) = classify_exec(desc);
    let method = match kind {
        OsKind::Windows => BootMethod::WindowsBootManager,
        _ => BootMethod::EfiChainload,
    };
    let mut e = RawEntry::new(kind, os_name, desc, EntryRole::Default, method);
    e.loader = match kind {
        OsKind::Windows => Some(WINDOWS_LOADER.to_owned()),
        _ => None,
    };
    e
}

/// The entries of named firmware variables: one per active Boot#### option
/// that decodes, in order.
pub fn entries_from_vars(vs: &Vec<(String, Vec<u8>)>) -> (r: Vec<RawEntry>)
    ensures
        raws_view(r@) == var_entries(vs@.map_values(|p: (String, Vec<u8>)| (p.0@, p.1@))),
{
    let ghost all = vs@.map_values(|p: (String, Vec<u8>)| (p.0@, p.1@));
    let mut out: Vec<RawEntry> = Vec::new();
    let mut i: usize = 0;
    while i < vs.len()
        invariant
            i <= vs@.len(),
            all == vs@.map_values(|p: (String, Vec<u8>)| (p.0@, p.1@)),
            raws_view(out@) == var_entries(all.take(i as int)),
        decreases vs@.len() - i,
    {
        assert(all.take(i + 1).drop_last() == all.take(i as int));
        assert(all.take(i + 1).last() == (vs@[i as int].0@, vs@[i as int].1@));
        let name = vs[i].0.as_str();
        if is_boot_option_name_exec(name) {
            match LoadOption::decode(vs[i].1.as_slice()) {
                Ok(opt) => {
                    if opt.is_active() {
                        let e = option_entry_exec(opt.description.as_str());
                        let ghost before = raws_view(out@);
                        out.push(e);
                        assert(raws_view(out@) =~= before.push(e@));
                    }
                },
                Err(_) => {},
            }
        }
        i = i + 1;
    }
    assert(all.take(i as int) == all);
    out
}

/// Entries from firmware variables carry no volume.
pub proof fn lemma_var_entries_unscoped(vs: Seq<(Seq<char>, Seq<u8>)>)
    ensures
        forall|i: int| 0 <= i < var_entries(vs).len() ==> (#[trigger] var_entries(vs)[i]).volume is None,
    decreases vs.len(),
{
    if vs.len() > 0 {
        lemma_var_entries_unscoped(vs.drop_last());
    }
}

/// What the variable source can give for a store whose Global namespace
/// holds `m`: the entries of some of its variables, each read as stored.
pub open spec fn vars_result(m: Map<Seq<char>, Seq<u8>>, r: Seq<RawEntryV>) -> bool {
    exists|vs: Seq<(Seq<char>, Seq<u8>)>|
        {
            &&& forall|i: int|
                0 <= i < vs.len() ==> m.contains_key(
                    (#[trigger] vs[i]).0,
                ) && m[vs[i].0] == vs[i].1
            &&& r == var_entries(vs)
        }
}

/// The listed variables of `m` with their values, in the listed order.
pub open spec fn named_values(m: Map<Seq<char>, Seq<u8>>, names: Seq<String>) -> Seq<(Seq<char>, Seq<u8>)> {
    names.map_values(|n: String| (n@, m[n@]))
}

/// What the variable source gives for a store that never fails, whose
/// Global namespace holds `m`: the entries of every variable, in the order
/// the store listed them.
pub open spec fn vars_exact(m: Map<Seq<char>, Seq<u8>>, r: Seq<RawEntryV>) -> bool {
    exists|names: Seq<String>|
        {
            &&& names_each_once(names, m.dom())
            &&& r == var_entries(named_values(m, names))
        }
}

/// One entry per active Boot#### variable that decodes. The store is asked
/// for the names and then each value; what came back is turned into entries
/// as [`entries_from_vars`] says (a failed read drops that variable). On a
/// store that never fails these are the entries of every variable, in the
/// order the store listed them.
pub fn discover<V: VarStore>(vars: &V) -> (r: Vec<RawEntry>)
    ensures
        vars.modelled() ==> (vars_result(vars.vars(VarNamespace::Global), raws_view(r@))),
        vars.modelled() ==> (vars.never_fails() ==> vars_exact(vars.vars(VarNamespace::Global), raws_view(r@))),
        forall|i: int| 0 <= i < r@.len() ==> (#[trigger] r@[i])@.volume is None,
{
    let ghost m = vars.vars(VarNamespace::Global);
    let names = match vars.list(VarNamespace::Global) {
        Ok(n) => n,
        Err(_) => {
            let r: Vec<RawEntry> = Vec::new();
            assert(raws_view(r@) =~= var_entries(Seq::empty()));
            assert(r@.len() == 0);
            return r;
        },
    };
    let mut pairs: Vec<(String, Vec<u8>)> = Vec::new();
    let mut i: usize = 0;
    while i < names.len()
        invariant
            i <= names@.len(),
            m == vars.vars(VarNamespace::Global),
            vars.modelled() ==> forall|k: int|
                0 <= k < pairs@.len() ==> m.contains_key(
                    (#[trigger] pairs@[k]).0@,
                ) && m[pairs@[k].0@] == pairs@[k].1@,
            vars.modelled() && vars.never_fails() ==> names_each_once(names@, m.dom()),
            vars.modelled() && vars.never_fails() ==> var_entries(
                pairs@.map_values(|p: (String, Vec<u8>)| (p.0@, p.1@)),
            ) == var_entries(named_values(m, names@.take(i as int))),
        decreases names@.len() - i,
    {
        let name = &names[i];
        let ghost before = pairs@.map_values(|p: (String, Vec<u8>)| (p.0@, p.1@));
        proof {
            assert(names@.take(i + 1) == names@.take(i as int).push(names@[i as int]));
            assert(named_values(m, names@.take(i + 1)) == named_values(m, names@.take(i as int)).push(
                (name@, m[name@]),
            ));
            assert(named_values(m, names@.take(i + 1)).drop_last() == named_values(
                m,
                names@.take(i as int),
            ));
        }
        if is_boot_option_name_exec(name.as_str()) {
            match vars.get(VarNamespace::Global, name.as_str()) {
                Ok(b) => {
                    pairs.push((name.clone(), b));
                    proof {
                        let after = pairs@.map_values(|p: (String, Vec<u8>)| (p.0@, p.1@));
                        assert(after.drop_last() == before);
                        if vars.modelled() {
                            assert(after.last() == (name@, m[name@]));
                        }
                    }
                },
                Err(_) => {
                    proof {
                        if vars.modelled() && vars.never_fails() {
                            assert(m.contains_key(names@[i as int]@));
                        }
                    }
                },
            }
        }
        i = i + 1;
    }
    let r = entries_from_vars(&pairs);
    proof {
        let vs = pairs@.map_values(|p: (String, Vec<u8>)| (p.0@, p.1@));
        if vars.modelled() {
            assert forall|k: int| 0 <= k < vs.len() implies m.contains_key(
                (#[trigger] vs[k]).0,
            ) && m[vs[k].0] == vs[k].1 by {
                assert(vs[k] == (pairs@[k].0@, pairs@[k].1@));
            }
        }
        assert(names@.take(i as int) == names@);
        lemma_var_entries_unscoped(vs);
        assert forall|k: int| 0 <= k < r@.len() implies (#[trigger] r@[k])@.volume is None by {
            assert(raws_view(r@)[k] == r@[k]@);
        }
    }
    r
}

} // verus!
