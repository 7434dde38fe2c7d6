//! The canonical order of the entries within an OS is a proper ordering,
//! and sorting by it keeps every entry.
use vstd::prelude::*;
use crate::text::text_lt;
use crate::graph::entry::BootEntry;
use crate::graph::kinds::RoleV;
use crate::graph::tree::{entry_lt, insert_pos, canonical_sort};

verus! {

proof fn lemma_text_lt_irrefl(a: Seq<char>)
    ensures
        !text_lt(a, a),
    decreases a.len(),
{
    if a.len() > 0 {
        lemma_text_lt_irrefl(a.drop_first());
    }
}

proof fn lemma_text_lt_trans(a: Seq<char>, b: Seq<char>, c: Seq<char>)
    requires
        text_lt(a, b),
        text_lt(b, c),
    ensures
        text_lt(a, c),
    decreases a.len(),
{
    if a.len() > 0 && b.len() > 0 && c.len() > 0 && a[0] == b[0] && b[0] == c[0] {
        lemma_text_lt_trans(a.drop_first(), b.drop_first(), c.drop_first());
    }
}

proof fn lemma_text_lt_asym(a: Seq<char>, b: Seq<char>)
    requires
        text_lt(a, b),
    ensures
        !text_lt(b, a),
{
    if text_lt(b, a) {
        lemma_text_lt_trans(a, b, a);
        lemma_text_lt_irrefl(a);
    }
}

proof fn lemma_entry_lt_trans(a: BootEntry, b: BootEntry, c: BootEntry)
    requires
        entry_lt(a, b),
        entry_lt(b, c),
    ensures
        entry_lt(a, c),
{
    if text_lt(a.title@, b.title@) && text_lt(b.title@, c.title@) {
        lemma_text_lt_trans(a.title@, b.title@, c.title@);
    }
}

proof fn lemma_entry_lt_asym(a: BootEntry, b: BootEntry)
    requires
        entry_lt(a, b),
    ensures
        !entry_lt(b, a),
{
    if text_lt(a.title@, b.title@) {
        lemma_text_lt_asym(a.title@, b.title@);
    }
}

/// No entry of `t` orders strictly before an earlier one.
pub open spec fn canonically_ordered(t: Seq<BootEntry>) -> bool {
    forall|i: int, j: int| 0 <= i < j < t.len() ==> !entry_lt(#[trigger] t[j], #[trigger] t[i])
}

proof fn lemma_insert_pos_props(t: Seq<BootEntry>, x: BootEntry)
    ensures
        0 <= insert_pos(t, x) <= t.len(),
        forall|k: int| 0 <= k < insert_pos(t, x) ==> !entry_lt(x, #[trigger] t[k]),
        insert_pos(t, x) < t.len() ==> entry_lt(x, t[insert_pos(t, x)]),
    decreases t.len(),
{
    if t.len() > 0 && !entry_lt(x, t[0]) {
        lemma_insert_pos_props(t.drop_first(), x);
        assert forall|k: int| 0 <= k < insert_pos(t, x) implies !entry_lt(x, #[trigger] t[k]) by {
            if k > 0 {
                assert(t[k] == t.drop_first()[k - 1]);
            }
        }
    }
}

proof fn lemma_ordered_insert(t: Seq<BootEntry>, x: BootEntry)
    requires
        canonically_ordered(t),
    ensures
        canonically_ordered(t.insert(insert_pos(t, x), x)),
{
    lemma_insert_pos_props(t, x);
    let p = insert_pos(t, x);
    let u = t.insert(p, x);
    assert forall|i: int, j: int| 0 <= i < j < u.len() implies !entry_lt(#[trigger] u[j], #[trigger] u[i]) by {
        if i == p {
            // u[j] == t[j - 1] with j - 1 >= p, and x orders before t[p].
            if entry_lt(u[j], x) {
                if j - 1 == p {
                    lemma_entry_lt_asym(x, t[p]);
                } else {
                    lemma_entry_lt_trans(t[j - 1], x, t[p]);
                    assert(!entry_lt(t[j - 1], t[p]));
                }
            }
        } else if j == p {
            assert(u[i] == t[i]);
        } else {
            let ti = if i < p { i } else { i - 1 };
            let tj = if j < p { j } else { j - 1 };
            assert(u[i] == t[ti]);
            assert(u[j] == t[tj]);
        }
    }
}

/// Sorting canonically keeps exactly the entries it was given, and no
/// entry of the result orders strictly before an earlier one.
pub proof fn law_canonical_sort_orders(s: Seq<BootEntry>)
    ensures
        canonical_sort(s).to_multiset() == s.to_multiset(),
        canonically_ordered(canonical_sort(s)),
    decreases s.len(),
{
    broadcast use vstd::seq_lib::to_multiset_insert, vstd::seq_lib::to_multiset_build;

    if s.len() > 0 {
        let t = canonical_sort(s.drop_last());
        law_canonical_sort_orders(s.drop_last());
        lemma_insert_pos_props(t, s.last());
        lemma_ordered_insert(t, s.last());
        assert(s.drop_last().push(s.last()) =~= s);
        assert(t.insert(insert_pos(t, s.last()), s.last()).to_multiset() == t.to_multiset().insert(s.last()));
        assert(s.drop_last().push(s.last()).to_multiset() == s.drop_last().to_multiset().insert(s.last()));
    } else {
        assert(s =~= Seq::<BootEntry>::empty());
        assert(canonical_sort(s) =~= s);
    }
}

/// Newer generations come first: in the canonical order of any entries,
/// a generation never comes after an older generation, and a
/// specialisation never comes after a specialisation of an older
/// generation; and a generation always comes before its specialisations'
/// class. Each holds for every pair of positions of the sorted result.
pub proof fn law_newer_generations_first(s: Seq<BootEntry>, i: int, j: int)
    requires
        0 <= i < j < canonical_sort(s).len(),
    ensures
        match (canonical_sort(s)[i].role@, canonical_sort(s)[j].role@) {
            (RoleV::Generation(gi), RoleV::Generation(gj)) => gi >= gj,
            (RoleV::Specialisation { parent: pi, .. }, RoleV::Specialisation { parent: pj, .. }) => pi >= pj,
            (RoleV::Specialisation { .. }, RoleV::Generation(_)) => false,
            _ => true,
        },
{
    law_canonical_sort_orders(s);
    let r = canonical_sort(s);
    assert(!entry_lt(r[j], r[i]));
    law_newer_generation_orders_first(r[j], r[i]);
}

/// The order between two entries of one class: the newer generation
/// (or the specialisation of the newer generation) orders strictly first.
pub proof fn law_newer_generation_orders_first(a: BootEntry, b: BootEntry)
    ensures
        match (a.role@, b.role@) {
            (RoleV::Generation(ga), RoleV::Generation(gb)) => ga > gb ==> entry_lt(a, b) && !entry_lt(b, a),
            (RoleV::Specialisation { parent: pa, .. }, RoleV::Specialisation { parent: pb, .. }) => pa > pb
                ==> entry_lt(a, b) && !entry_lt(b, a),
            (RoleV::Generation(_), RoleV::Specialisation { .. }) => entry_lt(a, b) && !entry_lt(b, a),
            _ => true,
        },
{
}

} // verus!
