//! In-memory stores implementing the ports, for tests and host runs.
use vstd::prelude::*;
use vstd::slice::slice_to_vec;
use crate::ports::{VarNamespace, IoError, IoResult, VarStore, FileStore, names_each_once, dir_sep,
    dir_prefix, child_of, is_child, children};
use crate::text::{chars_of, chars_of_string, string_of, starts_with, find_char, starts_with_chars,
    find_char_exec, slice_of, lemma_find_char_props, ends_with_chars, ends_with, contains_chars};

verus! {

/// A list of named byte values; the first occurrence of a name wins.
pub struct Table {
    items: Vec<(String, Vec<u8>)>,
}

/// The map a list of named values stands for: a later item only adds a name
/// that no earlier item carries.
pub open spec fn table_map(s: Seq<(String, Vec<u8>)>) -> Map<Seq<char>, Seq<u8>>
    decreases s.len(),
{
    if s.len() == 0 {
        Map::empty()
    } else {
        let m = table_map(s.drop_last());
        if m.contains_key(s.last().0@) {
            m
        } else {
            m.insert(s.last().0@, s.last().1@)
        }
    }
}

proof fn lemma_table_push(s: Seq<(String, Vec<u8>)>, x: (String, Vec<u8>))
    ensures
        table_map(s.push(x)) == (if table_map(s).contains_key(x.0@) {
            table_map(s)
        } else {
            table_map(s).insert(x.0@, x.1@)
        }),
{
    assert(s.push(x).drop_last() == s);
}

proof fn lemma_table_find(s: Seq<(String, Vec<u8>)>, k: Seq<char>, i: int)
    requires
        0 <= i < s.len(),
        s[i].0@ == k,
        forall|j: int| 0 <= j < i ==> s[j].0@ != k,
    ensures
        table_map(s).contains_key(k),
        table_map(s)[k] == s[i].1@,
    decreases s.len(),
{
    if i < s.len() - 1 {
        lemma_table_find(s.drop_last(), k, i);
    } else {
        lemma_table_absent(s.drop_last(), k);
    }
}

proof fn lemma_table_absent(s: Seq<(String, Vec<u8>)>, k: Seq<char>)
    requires
        forall|j: int| 0 <= j < s.len() ==> s[j].0@ != k,
    ensures
        !table_map(s).contains_key(k),
    decreases s.len(),
{
    if s.len() > 0 {
        lemma_table_absent(s.drop_last(), k);
    }
}

proof fn lemma_table_keys(s: Seq<(String, Vec<u8>)>, k: Seq<char>)
    requires
        table_map(s).contains_key(k),
    ensures
        exists|j: int| 0 <= j < s.len() && s[j].0@ == k,
    decreases s.len(),
{
    if s.len() > 0 && table_map(s.drop_last()).contains_key(k) {
        lemma_table_keys(s.drop_last(), k);
        let j = choose|j: int| 0 <= j < s.drop_last().len() && s.drop_last()[j].0@ == k;
        assert(s[j].0@ == k);
    }
}

impl Table {
    pub closed spec fn map(&self) -> Map<Seq<char>, Seq<u8>> {
        table_map(self.items@)
    }

    pub fn new() -> (r: Table)
        ensures
            r.map() == Map::<Seq<char>, Seq<u8>>::empty(),
    {
        Table { items: Vec::new() }
    }

    /// Index of the first item named `key`.
    fn position(&self, key: &String) -> (r: Option<usize>)
        ensures
            match r {
                Some(i) => i < self.items@.len() && self.items@[i as int].0@ == key@ && forall|
                    j: int,
                | 0 <= j < i ==> self.items@[j].0@ != key@,
                None => forall|j: int| 0 <= j < self.items@.len() ==> self.items@[j].0@ != key@,
            },
    {
        let mut i: usize = 0;
        while i < self.items.len()
            invariant
                i <= self.items@.len(),
                forall|j: int| 0 <= j < i ==> self.items@[j].0@ != key@,
            decreases self.items@.len() - i,
        {
            if self.items[i].0 == *key {
                return Some(i);
            }
            i = i + 1;
        }
        None
    }

    pub fn get(&self, key: &str) -> (r: Option<Vec<u8>>)
        ensures
            match r {
                Some(v) => self.map().contains_key(key@) && self.map()[key@] == v@,
                None => !self.map().contains_key(key@),
            },
    {
        let k = key.to_owned();
        match self.position(&k) {
            Some(i) => {
                proof {
                    lemma_table_find(self.items@, key@, i as int);
                }
                Some(slice_to_vec(self.items[i].1.as_slice()))
            },
            None => {
                proof {
                    lemma_table_absent(self.items@, key@);
                }
                None
            },
        }
    }

    pub fn contains(&self, key: &str) -> (r: bool)
        ensures
            r == self.map().contains_key(key@),
    {
        self.get(key).is_some()
    }

    pub fn remove(&mut self, key: &str)
        ensures
            final(self).map() == old(self).map().remove(key@),
    {
        let k = key.to_owned();
        let mut rest: Vec<(String, Vec<u8>)> = Vec::new();
        core::mem::swap(&mut rest, &mut self.items);
        let ghost orig = rest@;
        let mut i: usize = 0;
        let n = rest.len();
        assert(orig.take(0) == Seq::<(String, Vec<u8>)>::empty());
        assert(table_map(Seq::<(String, Vec<u8>)>::empty()) == table_map(
            Seq::<(String, Vec<u8>)>::empty(),
        ).remove(key@));
        while i < n
            invariant
                n == orig.len(),
                i <= n,
                rest@ == orig.skip(i as int),
                k@ == key@,
                table_map(self.items@) == table_map(orig.take(i as int)).remove(key@),
            decreases n - i,
        {
            let x = rest.remove(0);
            assert(x == orig[i as int]);
            proof {
                assert(orig.take(i + 1) == orig.take(i as int).push(x));
                lemma_table_push(orig.take(i as int), x);
            }
            if x.0 != k {
                let ghost before = self.items@;
                self.items.push(x);
                proof {
                    lemma_table_push(before, x);
                }
            }
            i = i + 1;
            assert(rest@ =~= orig.skip(i as int));
            assert(table_map(self.items@) =~= table_map(orig.take(i as int)).remove(key@));
        }
        assert(orig.take(n as int) == orig);
    }

    pub fn insert(&mut self, key: &str, value: &[u8])
        ensures
            final(self).map() == old(self).map().insert(key@, value@),
    {
        self.remove(key);
        let ghost before = self.items@;
        self.items.push((key.to_owned(), slice_to_vec(value)));
        proof {
            lemma_table_push(before, self.items@.last());
            assert(self.items@ == before.push(self.items@.last()));
            assert(self.map() =~= old(self).map().insert(key@, value@));
        }
    }

    /// Every name, once each, in the order first stored.
    pub fn keys(&self) -> (r: Vec<String>)
        ensures
            names_each_once(r@, self.map().dom()),
    {
        let mut out: Vec<String> = Vec::new();
        let mut i: usize = 0;
        while i < self.items.len()
            invariant
                i <= self.items@.len(),
                forall|a: int| 0 <= a < out@.len() ==> self.map().contains_key(#[trigger] out@[a]@),
                forall|j: int|
                    #![trigger self.items@[j]]
                    0 <= j < i ==> exists|a: int|
                        0 <= a < out@.len() && #[trigger] out@[a]@ == self.items@[j].0@,
                forall|a: int, b: int| #![trigger out@[a], out@[b]] 0 <= a < b < out@.len() ==> out@[a]@ != out@[b]@,
            decreases self.items@.len() - i,
        {
            let name = &self.items[i].0;
            let mut seen = false;
            let mut j: usize = 0;
            while j < out.len()
                invariant
                    j <= out@.len(),
                    seen ==> exists|a: int| 0 <= a < out@.len() && #[trigger] out@[a]@ == name@,
                    !seen ==> forall|a: int| 0 <= a < j ==> out@[a]@ != name@,
                decreases out@.len() - j,
            {
                if out[j] == *name {
                    seen = true;
                }
                j = j + 1;
            }
            if !seen {
                let ghost before = out@;
                out.push(name.clone());
                proof {
                    lemma_first_exists(self.items@, name@, i as int);
                    assert forall|j2: int| #![trigger self.items@[j2]] 0 <= j2 <= i implies exists|a: int|
                        0 <= a < out@.len() && #[trigger] out@[a]@ == self.items@[j2].0@ by {
                        if j2 < i {
                            let a = choose|a: int|
                                0 <= a < before.len() && #[trigger] before[a]@ == self.items@[j2].0@;
                            assert(out@[a] == before[a]);
                        } else {
                            assert(out@[before.len() as int]@ == name@);
                        }
                    }
                }
            }
            i = i + 1;
        }
        proof {
            assert forall|k: Seq<char>| #[trigger] self.map().contains_key(k) implies exists|i: int|
                0 <= i < out@.len() && #[trigger] out@[i]@ == k by {
                lemma_table_keys(self.items@, k);
            }
        }
        out
    }
}

/// Some item up to `i` carries `name`, so a first one does and the map has it.
proof fn lemma_first_exists(s: Seq<(String, Vec<u8>)>, name: Seq<char>, i: int)
    requires
        0 <= i < s.len(),
        s[i].0@ == name,
    ensures
        table_map(s).contains_key(name),
    decreases i,
{
    if exists|j: int| 0 <= j < i && s[j].0@ == name {
        let j = choose|j: int| 0 <= j < i && s[j].0@ == name;
        lemma_first_exists(s, name, j);
    } else {
        lemma_table_find(s, name, i);
    }
}


/// In-memory firmware variables, one table per namespace.
pub struct MockVarStore {
    global: Table,
    vendor: Table,
}

impl MockVarStore {
    pub fn new() -> (r: MockVarStore)
        ensures
            forall|ns: VarNamespace| #[trigger] r.vars(ns) == Map::<Seq<char>, Seq<u8>>::empty(),
            r.never_fails(),
            r.modelled(),
    {
        MockVarStore { global: Table::new(), vendor: Table::new() }
    }
}

impl VarStore for MockVarStore {
    closed spec fn vars(&self, ns: VarNamespace) -> Map<Seq<char>, Seq<u8>> {
        match ns {
            VarNamespace::Global => self.global.map(),
            VarNamespace::Vendor => self.vendor.map(),
        }
    }

    closed spec fn never_fails(&self) -> bool {
        true
    }

    closed spec fn modelled(&self) -> bool {
        true
    }

    fn get(&self, ns: VarNamespace, name: &str) -> (r: IoResult<Vec<u8>>) {
        let t = match ns {
            VarNamespace::Global => &self.global,
            VarNamespace::Vendor => &self.vendor,
        };
        match t.get(name) {
            Some(v) => Ok(v),
            None => Err(IoError::NotFound),
        }
    }

    fn set(&mut self, ns: VarNamespace, name: &str, value: &[u8]) -> (r: IoResult<()>) {
        match ns {
            VarNamespace::Global => self.global.insert(name, value),
            VarNamespace::Vendor => self.vendor.insert(name, value),
        }
        Ok(())
    }

    fn delete(&mut self, ns: VarNamespace, name: &str) -> (r: IoResult<()>) {
        match ns {
            VarNamespace::Global => self.global.remove(name),
            VarNamespace::Vendor => self.vendor.remove(name),
        }
        Ok(())
    }

    fn list(&self, ns: VarNamespace) -> (r: IoResult<Vec<String>>) {
        let t = match ns {
            VarNamespace::Global => &self.global,
            VarNamespace::Vendor => &self.vendor,
        };
        let names = t.keys();
        assert(self.vars(ns) == t.map());
        Ok(names)
    }
}

/// In-memory files of one volume.
pub struct MockFileStore {
    files: Table,
}

fn dir_sep_exec(path: &[char]) -> (r: char)
    ensures
        r == dir_sep(path@),
{
    let mut i: usize = 0;
    while i < path.len()
        invariant
            i <= path@.len(),
            forall|k: int| 0 <= k < i ==> path@[k] != '\\',
        decreases path@.len() - i,
    {
        if path[i] == '\\' {
            assert(path@.contains('\\'));
            return '\\';
        }
        i = i + 1;
    }
    '/'
}

impl MockFileStore {
    pub fn new() -> (r: MockFileStore)
        ensures
            r.files() == Map::<Seq<char>, Seq<u8>>::empty(),
            r.label() is None,
            r.never_fails(),
            r.modelled(),
    {
        MockFileStore { files: Table::new() }
    }

    /// This store with one more file.
    pub fn with_file(self, path: &str, data: &[u8]) -> (r: MockFileStore)
        ensures
            r.files() == self.files().insert(path@, data@),
            r.label() is None,
            r.never_fails(),
            r.modelled(),
    {
        let mut s = self;
        s.files.insert(path, data);
        s
    }
}

impl FileStore for MockFileStore {
    closed spec fn files(&self) -> Map<Seq<char>, Seq<u8>> {
        self.files.map()
    }

    closed spec fn label(&self) -> Option<Seq<char>> {
        None
    }

    closed spec fn never_fails(&self) -> bool {
        true
    }

    closed spec fn modelled(&self) -> bool {
        true
    }

    fn read(&self, path: &str) -> (r: IoResult<Vec<u8>>) {
        match self.files.get(path) {
            Some(v) => Ok(v),
            None => Err(IoError::NotFound),
        }
    }

    fn write(&mut self, path: &str, data: &[u8]) -> (r: IoResult<()>) {
        self.files.insert(path, data);
        Ok(())
    }

    fn append(&mut self, path: &str, data: &[u8]) -> (r: IoResult<()>) {
        let mut cur = match self.files.get(path) {
            Some(v) => v,
            None => Vec::new(),
        };
        let ghost before = cur@;
        let mut i: usize = 0;
        while i < data.len()
            invariant
                i <= data@.len(),
                cur@ == before + data@.take(i as int),
            decreases data@.len() - i,
        {
            cur.push(data[i]);
            i = i + 1;
            assert(cur@ =~= before + data@.take(i as int));
        }
        assert(data@.take(data@.len() as int) == data@);
        self.files.insert(path, cur.as_slice());
        Ok(())
    }

    fn path_exists(&self, path: &str) -> (r: bool) {
        self.files.contains(path)
    }

    /// Immediate children of `path`, each once, in the order their files were
    /// first stored; `NotFound` when no file lies below it.
    fn list_dir(&self, path: &str) -> (r: IoResult<Vec<String>>)
        ensures
            r is Err <==> !exists|k: Seq<char>|
                #[trigger] self.files().contains_key(k) && starts_with(k, dir_prefix(path@)),
            r is Err ==> r == Err::<Vec<String>, IoError>(IoError::NotFound),
            r matches Ok(names) ==> names_each_once(names@, children(self.files(), path@)),
    {
        let p = chars_of(path);
        let sep = dir_sep_exec(&p);
        let mut prefix = p;
        if !(prefix.len() > 0 && prefix[prefix.len() - 1] == sep) {
            prefix.push(sep);
        }
        assert(prefix@ == dir_prefix(path@));
        let keys = self.files.keys();
        let ghost m = self.files();
        let mut names: Vec<String> = Vec::new();
        let mut any = false;
        let mut i: usize = 0;
        while i < keys.len()
            invariant
                i <= keys@.len(),
                prefix@ == dir_prefix(path@),
                sep == dir_sep(path@),
                m == self.files(),
                forall|a: int| 0 <= a < keys@.len() ==> m.contains_key(#[trigger] keys@[a]@),
                forall|k: Seq<char>|
                    #[trigger] m.contains_key(k) ==> exists|a: int|
                        0 <= a < keys@.len() && #[trigger] keys@[a]@ == k,
                any <==> exists|a: int| 0 <= a < i && starts_with(#[trigger] keys@[a]@, prefix@),
                forall|a: int| 0 <= a < names@.len() ==> is_child(m, path@, #[trigger] names@[a]@),
                forall|a: int|
                    #![trigger keys@[a]]
                    0 <= a < i && starts_with(keys@[a]@, prefix@) && child_of(
                        keys@[a]@,
                        prefix@,
                        sep,
                    ).len() > 0 ==> exists|b: int|
                        0 <= b < names@.len() && #[trigger] names@[b]@ == child_of(
                            keys@[a]@,
                            prefix@,
                            sep,
                        ),
                forall|a: int, b: int| #![trigger names@[a], names@[b]] 0 <= a < b < names@.len() ==> names@[a]@ != names@[b]@,
            decreases keys@.len() - i,
        {
            let full = chars_of_string(&keys[i]);
            if starts_with_chars(&full, &prefix) {
                any = true;
                let rest = slice_of(&full, prefix.len(), full.len());
                assert(rest@ == full@.skip(prefix@.len() as int));
                proof {
                    lemma_find_char_props(rest@, sep);
                }
                let child = match find_char_exec(&rest, sep) {
                    Some(j) => slice_of(&rest, 0, j),
                    None => rest,
                };
                assert(child@ == child_of(full@, prefix@, sep));
                if child.len() > 0 {
                    let cs = string_of(&child);
                    let mut seen = false;
                    let mut j: usize = 0;
                    while j < names.len()
                        invariant
                            j <= names@.len(),
                            seen ==> exists|b: int|
                                0 <= b < names@.len() && #[trigger] names@[b]@ == cs@,
                            !seen ==> forall|b: int| 0 <= b < j ==> names@[b]@ != cs@,
                        decreases names@.len() - j,
                    {
                        if names[j] == cs {
                            seen = true;
                        }
                        j = j + 1;
                    }
                    if !seen {
                        let ghost before = names@;
                        proof {
                            assert(m.contains_key(keys@[i as int]@));
                            assert(is_child(m, path@, cs@));
                        }
                        names.push(cs);
                        proof {
                            assert forall|a: int|
                                #![trigger keys@[a]]
                                0 <= a <= i && starts_with(keys@[a]@, prefix@) && child_of(
                                    keys@[a]@,
                                    prefix@,
                                    sep,
                                ).len() > 0 implies exists|b: int|
                                0 <= b < names@.len() && #[trigger] names@[b]@ == child_of(
                                    keys@[a]@,
                                    prefix@,
                                    sep,
                                ) by {
                                if a < i {
                                    let b = choose|b: int|
                                        0 <= b < before.len() && #[trigger] before[b]@ == child_of(
                                            keys@[a]@,
                                            prefix@,
                                            sep,
                                        );
                                    assert(names@[b] == before[b]);
                                } else {
                                    assert(names@[before.len() as int]@ == cs@);
                                }
                            }
                        }
                    }
                }
            }
            i = i + 1;
        }
        if names.len() == 0 && !any {
            proof {
                assert forall|k: Seq<char>| #[trigger] m.contains_key(k) implies !starts_with(
                    k,
                    prefix@,
                ) by {
                    let a = choose|a: int| 0 <= a < keys@.len() && #[trigger] keys@[a]@ == k;
                }
            }
            return Err(IoError::NotFound);
        }
        proof {
            if !any {
                assert forall|k: Seq<char>| #[trigger] m.contains_key(k) implies !starts_with(
                    k,
                    prefix@,
                ) by {
                    let a = choose|a: int| 0 <= a < keys@.len() && #[trigger] keys@[a]@ == k;
                }
                let n0 = names@[0]@;
                assert(is_child(m, path@, n0));
            }
            assert forall|n: Seq<char>| #[trigger] is_child(m, path@, n) implies exists|b: int|
                0 <= b < names@.len() && #[trigger] names@[b]@ == n by {
                let k = choose|k: Seq<char>|
                    #[trigger] m.contains_key(k) && starts_with(k, dir_prefix(path@)) && n.len()
                        > 0 && n == child_of(k, dir_prefix(path@), dir_sep(path@));
                let a = choose|a: int| 0 <= a < keys@.len() && #[trigger] keys@[a]@ == k;
            }
        }
        assert(names_each_once(names@, children(m, path@)));
        Ok(names)
    }

    fn volume_label(&self) -> (r: Option<String>) {
        None
    }
}

} // verus!
