//! What every decision keeps, stated over the policy's specification.
use vstd::prelude::*;
use crate::graph::BootEntry;
use crate::graph::health::{spec_rank, spec_bootable};
use crate::graph::tree::{first_with_id, bootable_entries, lemma_first_with_id};
use crate::policy::model::{Strategy, HistoryV, DecisionV, ReasonV};
use crate::policy::decide::{decision, id_bootable, healthiest, lemma_healthiest_exists, ranked, with_rank};

verus! {

/// Every entry of `bootable_entries(flat)` is a bootable entry of `flat`.
proof fn lemma_bootable_entries_from(flat: Seq<BootEntry>)
    ensures
        forall|j: int|
            0 <= j < bootable_entries(flat).len() ==> exists|i: int|
                0 <= i < flat.len() && flat[i] == #[trigger] bootable_entries(flat)[j] && spec_bootable(
                    flat[i].health@,
                ),
    decreases flat.len(),
{
    if flat.len() > 0 {
        let p = flat.drop_last();
        lemma_bootable_entries_from(p);
        assert forall|j: int| 0 <= j < bootable_entries(flat).len() implies exists|i: int|
            0 <= i < flat.len() && flat[i] == #[trigger] bootable_entries(flat)[j] && spec_bootable(
                flat[i].health@,
            ) by {
            if j < bootable_entries(p).len() {
                let i = choose|i: int|
                    0 <= i < p.len() && p[i] == #[trigger] bootable_entries(p)[j] && spec_bootable(
                        p[i].health@,
                    );
                assert(flat[i] == p[i]);
            } else {
                assert(flat[flat.len() - 1] == bootable_entries(flat)[j]);
            }
        }
    }
}

/// A bootable entry of `flat` makes `bootable_entries(flat)` non-empty.
proof fn lemma_bootable_entries_nonempty(flat: Seq<BootEntry>, i: int)
    requires
        0 <= i < flat.len(),
        spec_bootable(flat[i].health@),
    ensures
        bootable_entries(flat).len() > 0,
    decreases flat.len(),
{
    if i < flat.len() - 1 {
        lemma_bootable_entries_nonempty(flat.drop_last(), i);
    }
}

/// A bootable one-shot entry always wins, whatever the strategy and the
/// rest of the history.
pub proof fn law_one_shot_wins(flat: Seq<BootEntry>, h: HistoryV, s: Strategy)
    requires
        h.one_shot is Some,
        id_bootable(flat, h.one_shot->0),
    ensures
        decision(flat, h, s) == Some(DecisionV { chosen: h.one_shot->0, reason: ReasonV::OneShot }),
{
}

/// The decision is `None` exactly when the graph has no bootable entry.
pub proof fn law_no_decision_iff_nothing_bootable(flat: Seq<BootEntry>, h: HistoryV, s: Strategy)
    ensures
        decision(flat, h, s) is None <==> bootable_entries(flat).len() == 0,
{
    if bootable_entries(flat).len() > 0 {
        lemma_healthiest_exists(bootable_entries(flat));
    } else {
        if h.one_shot is Some && id_bootable(flat, h.one_shot->0) {
            lemma_first_with_id(flat, h.one_shot->0);
            lemma_bootable_entries_nonempty(flat, first_with_id(flat, h.one_shot->0)->0);
        }
        let p = crate::policy::decide::preferred(h, s);
        if p is Some && id_bootable(flat, p->0) {
            lemma_first_with_id(flat, p->0);
            lemma_bootable_entries_nonempty(flat, first_with_id(flat, p->0)->0);
        }
    }
}

/// Whatever is chosen is a bootable entry of the graph.
pub proof fn law_chosen_is_bootable(flat: Seq<BootEntry>, h: HistoryV, s: Strategy)
    requires
        decision(flat, h, s) is Some,
    ensures
        exists|i: int|
            0 <= i < flat.len() && #[trigger] flat[i].id@ == decision(flat, h, s)->0.chosen
                && spec_bootable(flat[i].health@),
{
    let d = decision(flat, h, s)->0;
    let p = crate::policy::decide::preferred(h, s);
    if h.one_shot is Some && id_bootable(flat, h.one_shot->0) {
        lemma_first_with_id(flat, h.one_shot->0);
        let i = first_with_id(flat, h.one_shot->0)->0;
        assert(flat[i].id@ == d.chosen);
    } else if p is Some && id_bootable(flat, p->0) {
        lemma_first_with_id(flat, p->0);
        let i = first_with_id(flat, p->0)->0;
        assert(flat[i].id@ == d.chosen);
    } else {
        let b = bootable_entries(flat);
        let j = healthiest(b)->0;
        lemma_healthiest_exists(b);
        lemma_bootable_entries_from(flat);
        let i = choose|i: int| 0 <= i < flat.len() && flat[i] == #[trigger] b[j] && spec_bootable(flat[i].health@);
        assert(flat[i].id@ == d.chosen);
    }
}

proof fn lemma_with_rank_parts(b: Seq<BootEntry>)
    ensures
        with_rank(b, 3).len() + with_rank(b, 2).len() + with_rank(b, 1).len() + with_rank(b, 0).len()
            == b.len(),
    decreases b.len(),
{
    if b.len() > 0 {
        lemma_with_rank_parts(b.drop_last());
    }
}

proof fn lemma_with_rank_all(b: Seq<BootEntry>, r: u8)
    ensures
        forall|k: int| 0 <= k < with_rank(b, r).len() ==> spec_rank(#[trigger] with_rank(b, r)[k].health@) == r,
    decreases b.len(),
{
    if b.len() > 0 {
        lemma_with_rank_all(b.drop_last(), r);
    }
}

/// The candidate list holds as many entries as are bootable, and it is
/// ordered by health rank, best first.
pub proof fn law_candidates_best_first(flat: Seq<BootEntry>)
    ensures
        ranked(flat).len() == bootable_entries(flat).len(),
        forall|k: int, l: int|
            0 <= k < l < ranked(flat).len() ==> spec_rank(#[trigger] ranked(flat)[k].health@) >= spec_rank(
                #[trigger] ranked(flat)[l].health@,
            ),
{
    let b = bootable_entries(flat);
    lemma_with_rank_parts(b);
    lemma_with_rank_all(b, 3);
    lemma_with_rank_all(b, 2);
    lemma_with_rank_all(b, 1);
    lemma_with_rank_all(b, 0);
    let a3 = with_rank(b, 3);
    let a2 = with_rank(b, 2);
    let a1 = with_rank(b, 1);
    let a0 = with_rank(b, 0);
    let all = ranked(flat);
    assert(all == a3 + a2 + a1 + a0);
    assert forall|k: int| 0 <= k < all.len() implies spec_rank(#[trigger] all[k].health@) == (if k < a3.len() {
        3int
    } else if k < a3.len() + a2.len() {
        2int
    } else if k < a3.len() + a2.len() + a1.len() {
        1int
    } else {
        0int
    }) by {
        if k < a3.len() {
            assert(all[k] == a3[k]);
        } else if k < a3.len() + a2.len() {
            assert(all[k] == a2[k - a3.len()]);
        } else if k < a3.len() + a2.len() + a1.len() {
            assert(all[k] == a1[k - a3.len() - a2.len()]);
        } else {
            assert(all[k] == a0[k - a3.len() - a2.len() - a1.len()]);
        }
    }
}

} // verus!
