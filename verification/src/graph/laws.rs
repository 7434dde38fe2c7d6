//! Laws of stable entry identifiers.
use vstd::prelude::*;
use crate::text::{dec, all_digits, is_digit, digits_value, lemma_dec_digits};
use crate::graph::kinds::{OsKind, RoleV, kind_slug, role_slug};
use crate::graph::ids::{norm, derive_text, derive_scoped_text};

verus! {

/// Path separators and ASCII case do not matter to an id: two loader paths
/// that normalise alike give the same id.
pub proof fn law_id_ignores_path_spelling(kind: OsKind, role: RoleV, a: Seq<char>, b: Seq<char>)
    requires
        norm(a) == norm(b),
    ensures
        derive_text(kind, role, Some(a)) == derive_text(kind, role, Some(b)),
{
}

/// Digit runs followed by text that does not start with a digit can only be
/// equal when the digit runs are.
proof fn lemma_digits_then_sep(d1: Seq<char>, r1: Seq<char>, d2: Seq<char>, r2: Seq<char>)
    requires
        all_digits(d1),
        all_digits(d2),
        r1.len() > 0 ==> !is_digit(r1[0]),
        r2.len() > 0 ==> !is_digit(r2[0]),
        d1 + r1 == d2 + r2,
    ensures
        d1 == d2,
{
    let x = d1 + r1;
    if d1.len() < d2.len() {
        assert(x[d1.len() as int] == d2[d1.len() as int]);
        if r1.len() > 0 {
            assert(x[d1.len() as int] == r1[0]);
        } else {
            assert(x.len() == d1.len());
        }
    } else if d2.len() < d1.len() {
        assert(x[d2.len() as int] == d1[d2.len() as int]);
        if r2.len() > 0 {
            assert((d2 + r2)[d2.len() as int] == r2[0]);
        } else {
            assert((d2 + r2).len() == d2.len());
        }
    } else {
        assert(d1 =~= x.take(d1.len() as int));
        assert(d2 =~= (d2 + r2).take(d2.len() as int));
    }
}

/// Two generations of the same OS never share an id.
pub proof fn law_generations_have_distinct_ids(
    kind: OsKind,
    a: u32,
    b: u32,
    loader: Option<Seq<char>>,
)
    requires
        a != b,
    ensures
        derive_text(kind, RoleV::Generation(a), loader) != derive_text(
            kind,
            RoleV::Generation(b),
            loader,
        ),
{
    reveal_strlit(":");
    reveal_strlit("gen");
    lemma_dec_digits(a as nat);
    lemma_dec_digits(b as nat);
    let p = kind_slug(kind) + ":"@ + "gen"@;
    let tail: Seq<char> = match loader {
        Some(l) => ":"@ + norm(l),
        None => seq![],
    };
    let ta = derive_text(kind, RoleV::Generation(a), loader);
    let tb = derive_text(kind, RoleV::Generation(b), loader);
    assert(ta =~= p + (dec(a as nat) + tail));
    assert(tb =~= p + (dec(b as nat) + tail));
    if ta == tb {
        assert((dec(a as nat) + tail) =~= ta.skip(p.len() as int));
        assert((dec(b as nat) + tail) =~= tb.skip(p.len() as int));
        lemma_digits_then_sep(dec(a as nat), tail, dec(b as nat), tail);
    }
}

/// Scoping to no volume reproduces the plain id exactly.
pub proof fn law_unscoped_id_is_plain_id(kind: OsKind, role: RoleV, loader: Option<Seq<char>>)
    ensures
        derive_scoped_text(kind, role, loader, None) == derive_text(kind, role, loader),
{
}

/// The same loader on two volumes whose names normalise differently yields
/// two distinct ids.
pub proof fn law_volumes_have_distinct_ids(
    kind: OsKind,
    role: RoleV,
    loader: Option<Seq<char>>,
    v1: Seq<char>,
    v2: Seq<char>,
)
    requires
        norm(v1) != norm(v2),
    ensures
        derive_scoped_text(kind, role, loader, Some(v1)) != derive_scoped_text(
            kind,
            role,
            loader,
            Some(v2),
        ),
{
    let p = derive_text(kind, role, loader) + "@"@;
    let a = derive_scoped_text(kind, role, loader, Some(v1));
    let b = derive_scoped_text(kind, role, loader, Some(v2));
    assert(a =~= p + norm(v1));
    assert(b =~= p + norm(v2));
    if a == b {
        assert(norm(v1) =~= a.skip(p.len() as int));
        assert(norm(v2) =~= b.skip(p.len() as int));
    }
}

} // verus!
