//! The pipeline never dead-ends: every bootable entry is attempted.
use vstd::prelude::*;
use crate::graph::BootEntry;
use crate::graph::health::{spec_rank, spec_bootable};
use crate::graph::tree::bootable_entries;
use crate::policy::decide::{ranked, with_rank};
use crate::engine::pipeline::{attempt_order_ids, without, entry_ids};

verus! {

proof fn lemma_bootable_in(flat: Seq<BootEntry>, i: int)
    requires
        0 <= i < flat.len(),
        spec_bootable(flat[i].health@),
    ensures
        exists|j: int| 0 <= j < bootable_entries(flat).len() && bootable_entries(flat)[j] == flat[i],
    decreases flat.len(),
{
    if i < flat.len() - 1 {
        lemma_bootable_in(flat.drop_last(), i);
        let j = choose|j: int|
            0 <= j < bootable_entries(flat.drop_last()).len() && bootable_entries(flat.drop_last())[j]
                == flat.drop_last()[i];
        assert(bootable_entries(flat)[j] == flat[i]);
    } else {
        assert(bootable_entries(flat)[bootable_entries(flat).len() - 1] == flat[i]);
    }
}

proof fn lemma_with_rank_in(b: Seq<BootEntry>, k: int)
    requires
        0 <= k < b.len(),
    ensures
        exists|j: int|
            0 <= j < with_rank(b, spec_rank(b[k].health@)).len() && with_rank(b, spec_rank(b[k].health@))[j]
                == b[k],
    decreases b.len(),
{
    let r = spec_rank(b[k].health@);
    if k < b.len() - 1 {
        lemma_with_rank_in(b.drop_last(), k);
        let j = choose|j: int|
            0 <= j < with_rank(b.drop_last(), r).len() && with_rank(b.drop_last(), r)[j] == b.drop_last()[k];
        assert(with_rank(b, r)[j] == b[k]);
    } else {
        assert(with_rank(b, r)[with_rank(b, r).len() - 1] == b[k]);
    }
}

proof fn lemma_in_ranked(flat: Seq<BootEntry>, k: int)
    requires
        0 <= k < bootable_entries(flat).len(),
    ensures
        exists|j: int| 0 <= j < ranked(flat).len() && ranked(flat)[j] == bootable_entries(flat)[k],
{
    let b = bootable_entries(flat);
    lemma_with_rank_in(b, k);
    let r = spec_rank(b[k].health@);
    let a3 = with_rank(b, 3);
    let a2 = with_rank(b, 2);
    let a1 = with_rank(b, 1);
    let a0 = with_rank(b, 0);
    let all = ranked(flat);
    assert(all == a3 + a2 + a1 + a0);
    let j = choose|j: int| 0 <= j < with_rank(b, r).len() && with_rank(b, r)[j] == b[k];
    if r == 3 {
        assert(all[j] == a3[j]);
    } else if r == 2 {
        assert(all[a3.len() + j] == a2[j]);
    } else if r == 1 {
        assert(all[a3.len() + a2.len() + j] == a1[j]);
    } else {
        assert(all[a3.len() + a2.len() + a1.len() + j] == a0[j]);
    }
}

proof fn lemma_without_keeps(s: Seq<Seq<char>>, x: Seq<char>, k: int)
    requires
        0 <= k < s.len(),
        s[k] != x,
    ensures
        exists|j: int| 0 <= j < without(s, x).len() && without(s, x)[j] == s[k],
    decreases s.len(),
{
    if k < s.len() - 1 {
        lemma_without_keeps(s.drop_last(), x, k);
        let j = choose|j: int| 0 <= j < without(s.drop_last(), x).len() && without(s.drop_last(), x)[j]
            == s.drop_last()[k];
        assert(without(s, x)[j] == s[k]);
    } else {
        assert(without(s, x)[without(s, x).len() - 1] == s[k]);
    }
}

/// Every bootable entry of the graph is among the entries attempted, the
/// chosen one first, so a failed hand-off always has somewhere to fall
/// through to.
pub proof fn law_never_dead_end(flat: Seq<BootEntry>, chosen: Seq<char>, i: int)
    requires
        0 <= i < flat.len(),
        spec_bootable(flat[i].health@),
    ensures
        attempt_order_ids(flat, chosen)[0] == chosen,
        exists|j: int| 0 <= j < attempt_order_ids(flat, chosen).len() && attempt_order_ids(flat, chosen)[j] == flat[i].id@,
{
    let order = attempt_order_ids(flat, chosen);
    if flat[i].id@ == chosen {
        assert(order[0] == flat[i].id@);
    } else {
        lemma_bootable_in(flat, i);
        let k = choose|k: int| 0 <= k < bootable_entries(flat).len() && bootable_entries(flat)[k] == flat[i];
        lemma_in_ranked(flat, k);
        let j = choose|j: int| 0 <= j < ranked(flat).len() && ranked(flat)[j] == bootable_entries(flat)[k];
        let ids = entry_ids(ranked(flat));
        assert(ids[j] == flat[i].id@);
        lemma_without_keeps(ids, chosen, j);
        let w = choose|w: int| 0 <= w < without(ids, chosen).len() && without(ids, chosen)[w] == ids[j];
        assert(order[w + 1] == flat[i].id@);
    }
}

} // verus!
