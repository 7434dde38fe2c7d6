//! The outbound interfaces the core owns: firmware variables and files on the
//! EFI System Partition. The firmware adapter implements them; `mock` holds
//! in-memory stores with the same behaviour for tests.
use vstd::prelude::*;
use crate::text::{find_char, starts_with};

pub mod mock;

verus! {

/// A firmware variable namespace. The global namespace holds the UEFI boot
/// variables; the vendor namespace is the boot manager's private state.
#[derive(Clone, Copy, PartialEq, Eq, Debug, Structural)]
pub enum VarNamespace {
    /// EFI global variables (Boot####, BootOrder, BootNext, BootCurrent).
    Global,
    /// The boot manager's vendor GUID: private persisted state.
    Vendor,
}

/// Uniform error for every port.
#[derive(Clone, PartialEq, Eq, Debug)]
pub enum IoError {
    NotFound,
    AccessDenied,
    Corrupt,
    DeviceError,
    /// A value was too large for the store (NVRAM is scarce).
    TooLarge,
    Other(String),
}

pub type IoResult<T> = Result<T, IoError>;

/// `names` lists every member of `keys` exactly once.
pub open spec fn names_each_once(names: Seq<String>, keys: Set<Seq<char>>) -> bool {
    &&& forall|i: int| 0 <= i < names.len() ==> keys.contains(#[trigger] names[i]@)
    &&& forall|k: Seq<char>|
        #[trigger] keys.contains(k) ==> exists|i: int| 0 <= i < names.len() && #[trigger] names[i]@ == k
    &&& forall|i: int, j: int|
        #![trigger names[i], names[j]]
        0 <= i < j < names.len() ==> names[i]@ != names[j]@
}

/// The separator a directory path uses: `\` if it holds one, else `/`.
pub open spec fn dir_sep(path: Seq<char>) -> char {
    if path.contains('\\') {
        '\\'
    } else {
        '/'
    }
}

/// The directory path with exactly one trailing separator added if missing.
pub open spec fn dir_prefix(path: Seq<char>) -> Seq<char> {
    let sep = dir_sep(path);
    if path.len() > 0 && path.last() == sep {
        path
    } else {
        path.push(sep)
    }
}

/// The first path component of `full` below `prefix`.
pub open spec fn child_of(full: Seq<char>, prefix: Seq<char>, sep: char) -> Seq<char> {
    let rest = full.skip(prefix.len() as int);
    match find_char(rest, sep) {
        Some(i) => rest.take(i),
        None => rest,
    }
}

/// `name` is an immediate child of directory `path` among `files`.
pub open spec fn is_child(files: Map<Seq<char>, Seq<u8>>, path: Seq<char>, name: Seq<char>) -> bool {
    exists|k: Seq<char>|
        #[trigger] files.contains_key(k) && starts_with(k, dir_prefix(path)) && name.len() > 0
            && name == child_of(k, dir_prefix(path), dir_sep(path))
}

/// The immediate children of directory `path` among `files`.
pub open spec fn children(files: Map<Seq<char>, Seq<u8>>, path: Seq<char>) -> Set<Seq<char>> {
    Set::new(|n: Seq<char>| is_child(files, path, n))
}

/// What `files` holds at `path`: its contents, or nothing when absent.
pub open spec fn stored_at(files: Map<Seq<char>, Seq<u8>>, path: Seq<char>) -> Option<Seq<u8>> {
    if files.contains_key(path) {
        Some(files[path])
    } else {
        None
    }
}

/// The texts of some strings, in order.
pub open spec fn texts(names: Seq<String>) -> Seq<Seq<char>> {
    names.map_values(|s: String| s@)
}

/// Read and write firmware variables.
pub trait VarStore {
    /// Whether the store has a model of its contents, [`VarStore::vars`],
    /// that its answers follow. The in-memory store has; the firmware
    /// adapter, which is not verified, has none (the default), and the
    /// contracts below promise nothing of its contents.
    closed spec fn modelled(&self) -> bool {
        false
    }

    /// The variables of namespace `ns`, by name, for a modelled store. The
    /// default (no variables) only lets a store without a model implement
    /// the port.
    closed spec fn vars(&self, ns: VarNamespace) -> Map<Seq<char>, Seq<u8>> {
        Map::empty()
    }

    /// Whether the store answers every request it can: a present variable
    /// is always read, and every write, delete and listing succeeds. The
    /// in-memory store does; by default nothing is promised, since firmware
    /// may refuse or fail any request.
    closed spec fn never_fails(&self) -> bool {
        false
    }

    /// The value of a variable; `NotFound` when it is absent.
    fn get(&self, ns: VarNamespace, name: &str) -> (r: IoResult<Vec<u8>>)
        ensures
            self.never_fails() && self.vars(ns).contains_key(name@) ==> r is Ok,
            self.modelled() ==> (r matches Ok(v) ==> self.vars(ns).contains_key(name@)
                && self.vars(ns)[name@] == v@),
            self.modelled() ==> (r matches Err(IoError::NotFound) ==> !self.vars(ns).contains_key(
                name@,
            )),
            self.modelled() && !self.vars(ns).contains_key(name@) ==> r == Err::<Vec<u8>, IoError>(
                IoError::NotFound,
            ),
    ;

    /// Store a variable. On success it holds `value`; on failure nothing
    /// changed.
    fn set(&mut self, ns: VarNamespace, name: &str, value: &[u8]) -> (r: IoResult<()>)
        ensures
            old(self).never_fails() ==> r is Ok,
            final(self).never_fails() == old(self).never_fails(),
            final(self).modelled() == old(self).modelled(),
            old(self).modelled() ==> (r is Ok ==> final(self).vars(ns) == old(self).vars(ns).insert(name@, value@)),
            old(self).modelled() ==> (r is Err ==> final(self).vars(ns) == old(self).vars(ns)),
            old(self).modelled() ==> forall|other: VarNamespace|
                other != ns ==> #[trigger] final(self).vars(other) == old(self).vars(other),
    ;

    /// Delete a variable. Deleting an absent variable is `Ok` (idempotent).
    fn delete(&mut self, ns: VarNamespace, name: &str) -> (r: IoResult<()>)
        ensures
            old(self).never_fails() ==> r is Ok,
            final(self).never_fails() == old(self).never_fails(),
            final(self).modelled() == old(self).modelled(),
            old(self).modelled() ==> (r is Ok ==> final(self).vars(ns) == old(self).vars(ns).remove(name@)),
            old(self).modelled() ==> (r is Err ==> final(self).vars(ns) == old(self).vars(ns)),
            old(self).modelled() ==> forall|other: VarNamespace|
                other != ns ==> #[trigger] final(self).vars(other) == old(self).vars(other),
    ;

    /// The names of the variables of a namespace, each once.
    fn list(&self, ns: VarNamespace) -> (r: IoResult<Vec<String>>)
        ensures
            self.never_fails() ==> r is Ok,
            self.modelled() ==> (r matches Ok(names) ==> names_each_once(names@, self.vars(ns).dom())),
    ;
}

/// Read and write files on the EFI System Partition.
pub trait FileStore {
    /// Whether the volume has a model of its contents, [`FileStore::files`]
    /// and [`FileStore::label`], that its answers follow. The in-memory
    /// store has; the firmware adapters, which are not verified, have none
    /// (the default), and the contracts below promise nothing of their
    /// contents.
    closed spec fn modelled(&self) -> bool {
        false
    }

    /// The files of a modelled volume, by full path. The default (no files)
    /// only lets a volume without a model implement the port.
    closed spec fn files(&self) -> Map<Seq<char>, Seq<u8>> {
        Map::empty()
    }

    /// The volume's label, if it has one (by default, none).
    closed spec fn label(&self) -> Option<Seq<char>> {
        None
    }

    /// Whether the volume answers every request it can: a present file is
    /// always read, and every write and append succeeds. The in-memory store
    /// does; by default nothing is promised, since a volume may fail.
    closed spec fn never_fails(&self) -> bool {
        false
    }

    /// The contents of a file; `NotFound` when it is absent.
    fn read(&self, path: &str) -> (r: IoResult<Vec<u8>>)
        ensures
            self.never_fails() && self.files().contains_key(path@) ==> r is Ok,
            self.modelled() ==> (r matches Ok(v) ==> self.files().contains_key(path@)
                && self.files()[path@] == v@),
            self.modelled() ==> (r matches Err(IoError::NotFound) ==> !self.files().contains_key(
                path@,
            )),
            self.modelled() && !self.files().contains_key(path@) ==> r == Err::<Vec<u8>, IoError>(
                IoError::NotFound,
            ),
    ;

    /// Replace a file's contents, creating it if absent.
    fn write(&mut self, path: &str, data: &[u8]) -> (r: IoResult<()>)
        ensures
            old(self).never_fails() ==> r is Ok,
            final(self).never_fails() == old(self).never_fails(),
            final(self).modelled() == old(self).modelled(),
            old(self).modelled() ==> (r is Ok ==> final(self).files() == old(self).files().insert(
                path@,
                data@,
            )),
            old(self).modelled() ==> (r is Err ==> final(self).files() == old(self).files()),
            old(self).modelled() ==> final(self).label() == old(self).label(),
    ;

    /// Append to a file, creating it if absent (used by the boot log).
    fn append(&mut self, path: &str, data: &[u8]) -> (r: IoResult<()>)
        ensures
            old(self).never_fails() ==> r is Ok,
            final(self).never_fails() == old(self).never_fails(),
            final(self).modelled() == old(self).modelled(),
            old(self).modelled() ==> (r is Ok ==> final(self).files() == old(self).files().insert(
                path@,
                (if old(self).files().contains_key(path@) {
                    old(self).files()[path@]
                } else {
                    Seq::<u8>::empty()
                }) + data@,
            )),
            old(self).modelled() ==> (r is Err ==> final(self).files() == old(self).files()),
            old(self).modelled() ==> final(self).label() == old(self).label(),
    ;

    /// Whether a file exists.
    fn path_exists(&self, path: &str) -> (r: bool)
        ensures
            self.modelled() ==> r == self.files().contains_key(path@),
    ;

    /// The immediate child names of a directory (files and subdirectories),
    /// without their parent path; `NotFound` if the directory is absent.
    fn list_dir(&self, path: &str) -> (r: IoResult<Vec<String>>)
        ensures
            self.modelled() ==> (r matches Ok(names) ==> names_each_once(
                names@,
                children(self.files(), path@),
            )),
            self.never_fails() && (exists|k: Seq<char>|
                #[trigger] self.files().contains_key(k) && starts_with(k, dir_prefix(path@))) ==> r is Ok,
    ;

    /// The volume label, if any (e.g. an ISO's EFI-partition label).
    fn volume_label(&self) -> (r: Option<String>)
        ensures
            self.modelled() ==> match r {
                Some(l) => self.label() == Some(l@),
                None => self.label() is None,
            },
    ;
}

} // verus!
