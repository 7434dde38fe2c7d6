//! What the firmware volumes need computed: a volume's stable id from its
//! device path, the union of directory listings across volumes, a volume
//! label as shown, paths in the firmware's separator form, and the load
//! options handed to a started image.
use vstd::prelude::*;
use crate::ports::IoError;
use crate::text::{chars_of, string_of, char_from_ascii, trim, trim_chars, str_eq};
use crate::persistence::utf16::{encode_utf16, encode_utf16_exec};

verus! {

/// The FNV-1a offset basis.
pub const FNV_OFFSET: u64 = 0xcbf2_9ce4_8422_2325;

/// The FNV-1a prime.
pub const FNV_PRIME: u64 = 0x0000_0100_0000_01b3;

/// One FNV-1a step.
pub open spec fn fnv_step(h: u64, b: u8) -> u64 {
    (h ^ (b as u64)).wrapping_mul(FNV_PRIME)
}

/// The FNV-1a hash of `s` starting from `h`.
pub open spec fn fnv(h: u64, s: Seq<u8>) -> u64
    decreases s.len(),
{
    if s.len() == 0 {
        h
    } else {
        fnv_step(fnv(h, s.drop_last()), s.last())
    }
}

/// The lowercase hex digit of `d` (below 16).
pub open spec fn hex_digit(d: u64) -> char {
    if d < 10 {
        (48 + d) as char
    } else {
        (87 + d) as char
    }
}

/// The last `n` hex digits of `h`, most significant first.
pub open spec fn hex_text(h: u64, n: nat) -> Seq<char>
    decreases n,
{
    if n == 0 {
        seq![]
    } else {
        hex_text(h / 16, (n - 1) as nat).push(hex_digit(h % 16))
    }
}

/// A volume's id: `vol` and the 16 hex digits of the FNV-1a hash of the
/// data of its device-path nodes, in order.
pub open spec fn volume_id_text(nodes: Seq<Seq<u8>>) -> Seq<char> {
    "vol"@ + hex_text(fnv(FNV_OFFSET, nodes.flatten()), 16)
}

fn hex_digit_exec(d: u64) -> (r: char)
    requires
        d < 16,
    ensures
        r == hex_digit(d),
{
    if d < 10 {
        char_from_ascii((48 + d) as u32)
    } else {
        char_from_ascii((87 + d) as u32)
    }
}

fn hex_text_exec(h: u64, n: usize) -> (r: Vec<char>)
    ensures
        r@ == hex_text(h, n as nat),
    decreases n,
{
    if n == 0 {
        Vec::new()
    } else {
        let mut v = hex_text_exec(h / 16, n - 1);
        v.push(hex_digit_exec(h % 16));
        v
    }
}

/// The stable id of a volume whose device-path nodes carry `node_data`:
/// the same hardware topology gives the same id across reboots.
pub fn volume_id(node_data: &Vec<Vec<u8>>) -> (r: String)
    ensures
        r@ == volume_id_text(node_data@.map_values(|v: Vec<u8>| v@)),
{
    let ghost nodes = node_data@.map_values(|v: Vec<u8>| v@);
    let mut h: u64 = FNV_OFFSET;
    let mut i: usize = 0;
    while i < node_data.len()
        invariant
            nodes == node_data@.map_values(|v: Vec<u8>| v@),
            i <= node_data@.len(),
            h == fnv(FNV_OFFSET, nodes.take(i as int).flatten()),
        decreases node_data@.len() - i,
    {
        let node = &node_data[i];
        let ghost base = nodes.take(i as int).flatten();
        let mut j: usize = 0;
        assert(base + node@.take(0) =~= base);
        while j < node.len()
            invariant
                j <= node@.len(),
                h == fnv(FNV_OFFSET, base + node@.take(j as int)),
            decreases node@.len() - j,
        {
            assert((base + node@.take(j + 1)).drop_last() =~= base + node@.take(j as int));
            h = (h ^ (node[j] as u64)).wrapping_mul(FNV_PRIME);
            j = j + 1;
        }
        proof {
            assert(node@.take(j as int) =~= node@);
            assert(nodes.take(i + 1) =~= nodes.take(i as int).push(node@));
            nodes.take(i as int).lemma_flatten_push(node@);
        }
        i = i + 1;
    }
    assert(nodes.take(i as int) =~= nodes);
    let mut out = chars_of("vol");
    let digits = hex_text_exec(h, 16);
    proof {
        reveal_strlit("vol");
    }
    let mut k: usize = 0;
    let ghost pre = out@;
    while k < digits.len()
        invariant
            k <= digits@.len(),
            out@ == pre + digits@.take(k as int),
        decreases digits@.len() - k,
    {
        out.push(digits[k]);
        k = k + 1;
        assert(out@ =~= pre + digits@.take(k as int));
    }
    assert(digits@.take(k as int) =~= digits@);
    string_of(&out)
}

/// `acc` with each name of `list` appended that it does not hold yet.
pub open spec fn add_names(acc: Seq<Seq<char>>, list: Seq<Seq<char>>) -> Seq<Seq<char>>
    decreases list.len(),
{
    if list.len() == 0 {
        acc
    } else {
        let a = add_names(acc, list.drop_last());
        if a.contains(list.last()) {
            a
        } else {
            a.push(list.last())
        }
    }
}

/// The union of the listings that succeeded, each name once, in the order
/// first seen.
pub open spec fn merged(lists: Seq<Option<Seq<Seq<char>>>>) -> Seq<Seq<char>>
    decreases lists.len(),
{
    if lists.len() == 0 {
        seq![]
    } else {
        match lists.last() {
            Some(l) => add_names(merged(lists.drop_last()), l),
            None => merged(lists.drop_last()),
        }
    }
}

/// The texts of a listing.
pub open spec fn names_of(v: Seq<String>) -> Seq<Seq<char>> {
    v.map_values(|s: String| s@)
}

/// The views of per-volume listings.
pub open spec fn listings_of(v: Seq<Option<Vec<String>>>) -> Seq<Option<Seq<Seq<char>>>> {
    v.map_values(|o: Option<Vec<String>>| match o {
        Some(l) => Some(names_of(l@)),
        None => None,
    })
}

fn contains_name(names: &Vec<String>, n: &String) -> (r: bool)
    ensures
        r == names_of(names@).contains(n@),
{
    let mut i: usize = 0;
    while i < names.len()
        invariant
            i <= names@.len(),
            forall|k: int| 0 <= k < i ==> names@[k]@ != n@,
        decreases names@.len() - i,
    {
        if str_eq(names[i].as_str(), n.as_str()) {
            assert(names_of(names@)[i as int] == n@);
            return true;
        }
        i = i + 1;
    }
    proof {
        if names_of(names@).contains(n@) {
            let k = choose|k: int| 0 <= k < names_of(names@).len() && names_of(names@)[k] == n@;
            assert(names@[k]@ == n@);
        }
    }
    false
}

/// One directory listed across volumes: the names of every volume whose
/// listing succeeded, each once, in the order first seen; `NotFound` when
/// no volume has the directory.
pub fn merge_listings(lists: &Vec<Option<Vec<String>>>) -> (r: Result<Vec<String>, IoError>)
    ensures
        match r {
            Ok(names) => (exists|i: int| 0 <= i < lists@.len() && (#[trigger] lists@[i]) is Some) && names_of(
                names@,
            ) == merged(listings_of(lists@)),
            Err(e) => e == IoError::NotFound && forall|i: int|
                0 <= i < lists@.len() ==> (#[trigger] lists@[i]) is None,
        },
{
    let ghost ls = listings_of(lists@);
    let mut names: Vec<String> = Vec::new();
    let mut found = false;
    let mut i: usize = 0;
    while i < lists.len()
        invariant
            ls == listings_of(lists@),
            i <= lists@.len(),
            names_of(names@) == merged(ls.take(i as int)),
            found <==> exists|k: int| 0 <= k < i && (#[trigger] lists@[k]) is Some,
        decreases lists@.len() - i,
    {
        assert(ls.take(i + 1).drop_last() =~= ls.take(i as int));
        match &lists[i] {
            Some(list) => {
                found = true;
                let ghost acc0 = names_of(names@);
                let ghost l = names_of(list@);
                let mut j: usize = 0;
                while j < list.len()
                    invariant
                        j <= list@.len(),
                        l == names_of(list@),
                        names_of(names@) == add_names(acc0, l.take(j as int)),
                    decreases list@.len() - j,
                {
                    assert(l.take(j + 1).drop_last() =~= l.take(j as int));
                    assert(l.take(j + 1).last() == list@[j as int]@);
                    if !contains_name(&names, &list[j]) {
                        let ghost before = names@;
                        names.push(list[j].clone());
                        assert(names_of(names@) =~= names_of(before).push(list@[j as int]@));
                    }
                    j = j + 1;
                }
                assert(l.take(j as int) =~= l);
                assert(ls[i as int] == Some(l));
            },
            None => {
                assert(ls[i as int] is None);
            },
        }
        i = i + 1;
    }
    assert(ls.take(i as int) =~= ls);
    if found {
        Ok(names)
    } else {
        Err(IoError::NotFound)
    }
}

/// A volume label as shown: trimmed, and none when nothing is left.
pub fn label_text(raw: &str) -> (r: Option<String>)
    ensures
        match r {
            Some(s) => trim(raw@).len() > 0 && s@ == trim(raw@),
            None => trim(raw@).len() == 0,
        },
{
    let t = trim_chars(&chars_of(raw));
    if t.len() == 0 {
        None
    } else {
        Some(string_of(&t))
    }
}

/// A path with every `/` turned into the firmware's `\`.
pub open spec fn efi_path_form(p: Seq<char>) -> Seq<char> {
    p.map_values(|c: char| if c == '/' { '\\' } else { c })
}

/// A path in the firmware's separator form.
pub fn efi_path_text(path: &str) -> (r: String)
    ensures
        r@ == efi_path_form(path@),
{
    let cs = chars_of(path);
    let mut out: Vec<char> = Vec::new();
    let mut i: usize = 0;
    while i < cs.len()
        invariant
            i <= cs@.len(),
            cs@ == path@,
            out@ == efi_path_form(cs@.take(i as int)),
        decreases cs@.len() - i,
    {
        out.push(if cs[i] == '/' { '\\' } else { cs[i] });
        i = i + 1;
        assert(out@ =~= efi_path_form(cs@.take(i as int)));
    }
    assert(cs@.take(i as int) =~= cs@);
    string_of(&out)
}

/// The UTF-16 load options handed to a started image: none for an empty
/// command line, else its UTF-16 units and a terminating NUL.
pub fn load_options(options: &str) -> (r: Vec<u16>)
    ensures
        r@ == (if options@.len() == 0 {
            Seq::<u16>::empty()
        } else {
            encode_utf16(options@).push(0u16)
        }),
{
    let cs = chars_of(options);
    if cs.len() == 0 {
        return Vec::new();
    }
    let mut units = encode_utf16_exec(&cs);
    units.push(0u16);
    units
}

} // verus!
