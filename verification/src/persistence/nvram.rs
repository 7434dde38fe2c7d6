//! Tier-1 state: the boot manager's small must-persist values in the vendor
//! variable namespace. Kept tiny: NVRAM is scarce and wears.
use vstd::prelude::*;
use crate::graph::ids::EntryId;
use crate::ports::{VarStore, VarNamespace, IoResult, IoError};
use crate::text::str_from_utf8;
use vstd::utf8::{valid_utf8, decode_utf8, encode_utf8};

verus! {

/// Vendor variable holding the stable id of the configured default.
pub const VAR_DEFAULT: &'static str = "Default";

/// Vendor variable holding a stable id to try once, then clear.
pub const VAR_ONESHOT: &'static str = "OneShot";

/// Vendor variable holding the stable id of the last confirmed boot.
pub const VAR_LASTGOOD: &'static str = "LastGood";

/// The id stored under `name` among the vendor variables `m`: absent, an id
/// (the variable's UTF-8 text), or not UTF-8 at all (`Some(None)`).
pub open spec fn stored_id(m: Map<Seq<char>, Seq<u8>>, name: Seq<char>) -> Option<Option<Seq<char>>> {
    if !m.contains_key(name) {
        None
    } else if valid_utf8(m[name]) {
        Some(Some(decode_utf8(m[name])))
    } else {
        Some(None)
    }
}

/// What reading an id gives, whatever the store answered: an absent
/// variable reads as `Ok(None)`; a stored one as its UTF-8 text, or an error
/// when it is not UTF-8 (or the store failed).
pub open spec fn read_id_result(m: Map<Seq<char>, Seq<u8>>, name: Seq<char>, r: IoResult<Option<EntryId>>) -> bool {
    &&& (r matches Ok(None) <==> stored_id(m, name) is None)
    &&& (r matches Ok(Some(id)) ==> stored_id(m, name) == Some(Some(id@)))
    &&& (stored_id(m, name) == Some(None::<Seq<char>>) ==> r is Err)
    &&& (r matches Err(e) ==> m.contains_key(name))
}

/// What reading an id gives when the store answers: `Ok(None)` for an
/// absent variable, the id its UTF-8 text spells, or `Corrupt` when it is
/// not UTF-8.
pub open spec fn read_id_exact(m: Map<Seq<char>, Seq<u8>>, name: Seq<char>, r: IoResult<Option<EntryId>>) -> bool {
    match stored_id(m, name) {
        None => r matches Ok(None),
        Some(Some(t)) => r matches Ok(Some(id)) && id@ == t,
        Some(None) => r == Err::<Option<EntryId>, IoError>(IoError::Corrupt),
    }
}

/// The id a read of its variable gives, from what the store answered: the
/// stored UTF-8 text, `Corrupt` for bytes that are not UTF-8, none for an
/// absent variable, and any other error passed on.
pub open spec fn id_of_answer(answer: IoResult<Vec<u8>>, r: IoResult<Option<EntryId>>) -> bool {
    match answer {
        Ok(b) => if valid_utf8(b@) {
            r matches Ok(Some(id)) && id@ == decode_utf8(b@)
        } else {
            r == Err::<Option<EntryId>, IoError>(IoError::Corrupt)
        },
        Err(IoError::NotFound) => r matches Ok(None),
        Err(e) => r == Err::<Option<EntryId>, IoError>(e),
    }
}

/// The stored id, given what reading its variable answered (see
/// [`id_of_answer`]).
pub fn id_from_read(answer: IoResult<Vec<u8>>) -> (r: IoResult<Option<EntryId>>)
    ensures
        id_of_answer(answer, r),
{
    match answer {
        Ok(bytes) => match str_from_utf8(bytes.as_slice()) {
            Some(s) => Ok(Some(EntryId::from_raw(s))),
            None => Err(IoError::Corrupt),
        },
        Err(IoError::NotFound) => Ok(None),
        Err(e) => Err(e),
    }
}

/// Read a stored id from a vendor variable. `Ok(None)` if it is absent;
/// `Corrupt` if it is not UTF-8. The variable is read once and its answer
/// mapped as [`id_from_read`] says.
pub fn read_id<V: VarStore>(vars: &V, name: &str) -> (r: IoResult<Option<EntryId>>)
    ensures
        vars.modelled() ==> (read_id_result(vars.vars(VarNamespace::Vendor), name@, r)),
        vars.modelled() ==> (vars.never_fails() ==> read_id_exact(vars.vars(VarNamespace::Vendor), name@, r)),
{
    let answer = vars.get(VarNamespace::Vendor, name);
    id_from_read(answer)
}

/// Read the configured default entry.
pub fn read_default<V: VarStore>(vars: &V) -> (r: IoResult<Option<EntryId>>)
    ensures
        vars.modelled() ==> (read_id_result(vars.vars(VarNamespace::Vendor), VAR_DEFAULT@, r)),
        vars.modelled() ==> (vars.never_fails() ==> read_id_exact(vars.vars(VarNamespace::Vendor), VAR_DEFAULT@, r)),
{
    read_id(vars, VAR_DEFAULT)
}

/// Read the last confirmed-good entry.
pub fn read_last_good<V: VarStore>(vars: &V) -> (r: IoResult<Option<EntryId>>)
    ensures
        vars.modelled() ==> (read_id_result(vars.vars(VarNamespace::Vendor), VAR_LASTGOOD@, r)),
        vars.modelled() ==> (vars.never_fails() ==> read_id_exact(vars.vars(VarNamespace::Vendor), VAR_LASTGOOD@, r)),
{
    read_id(vars, VAR_LASTGOOD)
}

/// Thin accessor mapping the boot manager's concepts to vendor variables.
/// It writes through to the store it wraps: what is left in the accessor is
/// what the store holds afterwards, so a later accessor on the same store
/// reads what an earlier one wrote.
pub struct StateStore<'a, V: VarStore> {
    pub vars: &'a mut V,
}

impl<'a, V: VarStore> StateStore<'a, V> {
    /// The vendor variables as the underlying store holds them.
    pub closed spec fn vendor(&self) -> Map<Seq<char>, Seq<u8>> {
        self.vars.vars(VarNamespace::Vendor)
    }

    /// The global variables as the underlying store holds them.
    pub closed spec fn global(&self) -> Map<Seq<char>, Seq<u8>> {
        self.vars.vars(VarNamespace::Global)
    }

    /// Whether the underlying store answers every request it can.
    pub closed spec fn never_fails(&self) -> bool {
        self.vars.never_fails()
    }

    /// Whether the underlying store has a model of its contents.
    pub closed spec fn modelled(&self) -> bool {
        self.vars.modelled()
    }

    pub fn new(vars: &'a mut V) -> (r: Self)
        ensures
            r.modelled() == old(vars).modelled(),
            *final(r.vars) == *final(vars),
            r.never_fails() == old(vars).never_fails(),
            old(vars).modelled() ==> (r.vendor() == old(vars).vars(VarNamespace::Vendor)),
            old(vars).modelled() ==> (r.global() == old(vars).vars(VarNamespace::Global)),
    {
        StateStore { vars }
    }

    pub fn default_entry(&self) -> (r: IoResult<Option<EntryId>>)
        ensures
            self.modelled() ==> (read_id_result(self.vendor(), VAR_DEFAULT@, r)),
            self.modelled() ==> (self.never_fails() ==> read_id_exact(self.vendor(), VAR_DEFAULT@, r)),
    {
        read_id(self.vars, VAR_DEFAULT)
    }

    pub fn set_default(&mut self, id: &EntryId) -> (r: IoResult<()>)
        ensures
            old(self).modelled() ==> (write_result(old(self).vendor(), final(self).vendor(), VAR_DEFAULT@, id@, r)),
            old(self).modelled() ==> (final(self).global() == old(self).global()),
            old(self).never_fails() ==> r is Ok,
            final(self).never_fails() == old(self).never_fails(),
            final(self).modelled() == old(self).modelled(),
            *final(final(self).vars) == *final(old(self).vars),
    {
        self.write_id(VAR_DEFAULT, id)
    }

    pub fn last_good(&self) -> (r: IoResult<Option<EntryId>>)
        ensures
            self.modelled() ==> (read_id_result(self.vendor(), VAR_LASTGOOD@, r)),
            self.modelled() ==> (self.never_fails() ==> read_id_exact(self.vendor(), VAR_LASTGOOD@, r)),
    {
        read_id(self.vars, VAR_LASTGOOD)
    }

    pub fn set_last_good(&mut self, id: &EntryId) -> (r: IoResult<()>)
        ensures
            old(self).modelled() ==> (write_result(old(self).vendor(), final(self).vendor(), VAR_LASTGOOD@, id@, r)),
            old(self).modelled() ==> (final(self).global() == old(self).global()),
            old(self).never_fails() ==> r is Ok,
            final(self).never_fails() == old(self).never_fails(),
            final(self).modelled() == old(self).modelled(),
            *final(final(self).vars) == *final(old(self).vars),
    {
        self.write_id(VAR_LASTGOOD, id)
    }

    /// The one-shot entry is consumed on read (read-and-clear), as firmware
    /// treats BootNext.
    pub fn take_one_shot(&mut self) -> (r: IoResult<Option<EntryId>>)
        ensures
            old(self).modelled() ==> (r is Ok ==> read_id_result(old(self).vendor(), VAR_ONESHOT@, r)),
            old(self).modelled() ==> (r is Ok ==> final(self).vendor() == old(self).vendor().remove(VAR_ONESHOT@)),
            old(self).modelled() ==> (r is Err ==> old(self).vendor().contains_key(VAR_ONESHOT@)),
            old(self).modelled() ==> (old(self).never_fails() ==> read_id_exact(old(self).vendor(), VAR_ONESHOT@, r)),
            old(self).modelled() ==> (final(self).global() == old(self).global()),
            *final(final(self).vars) == *final(old(self).vars),
    {
        let id = read_id(self.vars, VAR_ONESHOT);
        match id {
            Ok(Some(x)) => {
                match self.vars.delete(VarNamespace::Vendor, VAR_ONESHOT) {
                    Ok(()) => Ok(Some(x)),
                    Err(e) => Err(e),
                }
            },
            Ok(None) => {
                assert(self.modelled() ==> self.vendor().remove(VAR_ONESHOT@) =~= self.vendor());
                Ok(None)
            },
            Err(e) => Err(e),
        }
    }

    pub fn set_one_shot(&mut self, id: &EntryId) -> (r: IoResult<()>)
        ensures
            old(self).modelled() ==> (write_result(old(self).vendor(), final(self).vendor(), VAR_ONESHOT@, id@, r)),
            old(self).modelled() ==> (final(self).global() == old(self).global()),
            old(self).never_fails() ==> r is Ok,
            final(self).never_fails() == old(self).never_fails(),
            final(self).modelled() == old(self).modelled(),
            *final(final(self).vars) == *final(old(self).vars),
    {
        self.write_id(VAR_ONESHOT, id)
    }

    fn write_id(&mut self, name: &str, id: &EntryId) -> (r: IoResult<()>)
        ensures
            old(self).modelled() ==> (write_result(old(self).vendor(), final(self).vendor(), name@, id@, r)),
            old(self).modelled() ==> (final(self).global() == old(self).global()),
            old(self).never_fails() ==> r is Ok,
            final(self).never_fails() == old(self).never_fails(),
            final(self).modelled() == old(self).modelled(),
            *final(final(self).vars) == *final(old(self).vars),
    {
        let bytes = id.as_str().as_bytes();
        self.vars.set(VarNamespace::Vendor, name, bytes)
    }
}

/// A write of id `id` under `name`: on success the variable holds the id's
/// UTF-8 text and nothing else changed; on failure nothing changed.
pub open spec fn write_result(
    before: Map<Seq<char>, Seq<u8>>,
    after: Map<Seq<char>, Seq<u8>>,
    name: Seq<char>,
    id: Seq<char>,
    r: IoResult<()>,
) -> bool {
    &&& r is Ok ==> after == before.insert(name, encode_utf8(id))
    &&& r is Err ==> after == before
}

/// What is written is read back: after a successful write of an id under a
/// name, the name stores that id, and a read of it from a store that
/// answers gives exactly that id.
pub proof fn law_written_id_reads_back(
    before: Map<Seq<char>, Seq<u8>>,
    after: Map<Seq<char>, Seq<u8>>,
    name: Seq<char>,
    id: Seq<char>,
)
    requires
        write_result(before, after, name, id, Ok(())),
    ensures
        stored_id(after, name) == Some(Some(id)),
        forall|r: IoResult<Option<EntryId>>|
            #[trigger] read_id_exact(after, name, r) ==> (r matches Ok(Some(x)) && x@ == id),
{
    vstd::utf8::encode_utf8_valid_utf8(id);
    vstd::utf8::encode_utf8_decode_utf8(id);
}

/// The one-shot entry is used once: after a successful take, the store
/// holds none, so the next take reads nothing.
pub proof fn law_one_shot_is_consumed(before: Map<Seq<char>, Seq<u8>>)
    ensures
        stored_id(before.remove(VAR_ONESHOT@), VAR_ONESHOT@) is None,
{
}

} // verus!

