//! Stable identifiers for the Boot Graph. An `EntryId` is derived from an
//! entry's durable attributes (OS family, role, loader path, volume), never
//! from discovery order, so references stay valid across boots.
use vstd::prelude::*;
use crate::text::{lower, dec, chars_of, chars_of_string, string_of, lower_exec, extend_str};
use crate::graph::kinds::{OsKind, EntryRole, RoleV, kind_slug, role_slug};

verus! {

/// A stable identifier for a boot entry.
#[derive(Debug, Hash, PartialOrd, Ord)]
pub struct EntryId(String);

impl View for EntryId {
    type V = Seq<char>;

    closed spec fn view(&self) -> Seq<char> {
        self.0@
    }
}

impl PartialEq for EntryId {
    fn eq(&self, other: &Self) -> (r: bool) {
        self.0 == other.0
    }
}

impl vstd::std_specs::cmp::PartialEqSpecImpl for EntryId {
    open spec fn obeys_eq_spec() -> bool {
        true
    }

    open spec fn eq_spec(&self, other: &Self) -> bool {
        self@ == other@
    }
}

impl Eq for EntryId {}

impl Clone for EntryId {
    fn clone(&self) -> (r: Self)
        ensures
            r@ == self@,
    {
        EntryId(self.0.clone())
    }
}

/// Path normalisation used inside ids: `\` becomes `/`, ASCII is lower-cased.
pub open spec fn norm_char(c: char) -> char {
    if c == '\\' {
        '/'
    } else {
        lower(c)
    }
}

pub open spec fn norm(s: Seq<char>) -> Seq<char> {
    s.map_values(|c: char| norm_char(c))
}

/// The id text of `<kind>:<role>[:<normalised loader>]`.
pub open spec fn derive_text(kind: OsKind, role: RoleV, loader: Option<Seq<char>>) -> Seq<char> {
    let base = kind_slug(kind) + ":"@ + role_slug(role);
    match loader {
        Some(l) => base + ":"@ + norm(l),
        None => base,
    }
}

/// The id text scoped to a volume: `<base>@<normalised volume>`.
pub open spec fn derive_scoped_text(
    kind: OsKind,
    role: RoleV,
    loader: Option<Seq<char>>,
    volume: Option<Seq<char>>,
) -> Seq<char> {
    match volume {
        Some(v) => derive_text(kind, role, loader) + "@"@ + norm(v),
        None => derive_text(kind, role, loader),
    }
}

fn norm_char_exec(c: char) -> (r: char)
    ensures
        r == norm_char(c),
{
    if c == '\\' {
        '/'
    } else {
        lower_exec(c)
    }
}

/// Append the normalised characters of `l`.
fn push_norm(s: &mut Vec<char>, l: &str)
    ensures
        final(s)@ == old(s)@ + norm(l@),
{
    let cs = chars_of(l);
    let mut i: usize = 0;
    while i < cs.len()
        invariant
            i <= cs@.len(),
            cs@ == l@,
            s@ == old(s)@ + norm(cs@.take(i as int)),
        decreases cs@.len() - i,
    {
        let c = norm_char_exec(cs[i]);
        s.push(c);
        i = i + 1;
        assert(norm(cs@.take(i as int)) =~= norm(cs@.take(i - 1)).push(norm_char(cs@[i - 1])));
    }
    assert(cs@.take(cs@.len() as int) == cs@);
}

impl EntryId {
    /// Build a stable id from durable parts. Deterministic: same inputs, same id.
    pub fn derive(kind: OsKind, role: &EntryRole, loader: Option<&str>) -> (r: EntryId)
        ensures
            r@ == derive_text(
                kind,
                role@,
                match loader {
                    Some(l) => Some(l@),
                    None => None,
                },
            ),
    {
        proof {
            reveal_strlit(":");
        }
        let mut s: Vec<char> = Vec::new();
        extend_str(&mut s, kind.slug());
        s.push(':');
        role.write_slug(&mut s);
        assert(s@ =~= kind_slug(kind) + ":"@ + role_slug(role@));
        if let Some(l) = loader {
            let ghost before = s@;
            s.push(':');
            push_norm(&mut s, l);
            assert(s@ =~= before + ":"@ + norm(l@));
        }
        EntryId(string_of(&s))
    }

    /// The id text.
    pub fn as_str(&self) -> (r: &str)
        ensures
            r@ == self@,
    {
        self.0.as_str()
    }

    /// Like [`derive`](Self::derive), scoped to a volume so the same loader path
    /// on two volumes yields distinct ids: `<base>@<volume>`. A `None` volume
    /// reproduces `derive` exactly.
    pub fn derive_scoped(
        kind: OsKind,
        role: &EntryRole,
        loader: Option<&str>,
        volume: Option<&str>,
    ) -> (r: EntryId)
        ensures
            r@ == derive_scoped_text(
                kind,
                role@,
                match loader {
                    Some(l) => Some(l@),
                    None => None,
                },
                match volume {
                    Some(v) => Some(v@),
                    None => None,
                },
            ),
    {
        proof {
            reveal_strlit("@");
        }
        let id = Self::derive(kind, role, loader);
        match volume {
            Some(v) => {
                let mut s = chars_of_string(&id.0);
                let ghost before = s@;
                s.push('@');
                push_norm(&mut s, v);
                assert(s@ =~= before + "@"@ + norm(v@));
                EntryId(string_of(&s))
            },
            None => id,
        }
    }

    /// Construct from raw text (e.g. read back from config or NVRAM).
    pub fn from_raw(s: &str) -> (r: EntryId)
        ensures
            r@ == s@,
    {
        EntryId(s.to_owned())
    }

    /// Construct from an owned `String`.
    pub fn from_string(s: String) -> (r: EntryId)
        ensures
            r@ == s@,
    {
        EntryId(s)
    }
}

/// Identifier for a physical disk in the graph.
#[derive(Clone, Copy, PartialEq, Eq, Hash, Debug, Structural)]
pub struct DiskId(pub u64);

} // verus!
