//! The decision algorithm: a pure, deterministic fold over the Boot Graph.
use vstd::prelude::*;
use crate::graph::{BootGraph, BootEntry, EntryId, Health};
use crate::graph::health::{spec_rank, spec_bootable};
use crate::graph::tree::{first_with_id, bootable_entries, lemma_first_with_id};
use crate::policy::model::{Strategy, History, HistoryV, Decision, DecisionV, Reason, ReasonV};

verus! {

/// Whether the first entry carrying `id` exists and is bootable.
pub open spec fn id_bootable(flat: Seq<BootEntry>, id: Seq<char>) -> bool {
    match first_with_id(flat, id) {
        Some(i) => spec_bootable(flat[i].health@),
        None => false,
    }
}

/// `j` is the first entry of `b` with the highest health rank.
pub open spec fn is_healthiest(b: Seq<BootEntry>, j: int) -> bool {
    &&& 0 <= j < b.len()
    &&& forall|k: int| 0 <= k < b.len() ==> spec_rank(#[trigger] b[k].health@) <= spec_rank(b[j].health@)
    &&& forall|k: int| 0 <= k < j ==> spec_rank(#[trigger] b[k].health@) < spec_rank(b[j].health@)
}

/// The position of the first entry of highest rank, if `b` is not empty.
pub open spec fn healthiest(b: Seq<BootEntry>) -> Option<int> {
    if exists|j: int| is_healthiest(b, j) {
        Some(choose|j: int| is_healthiest(b, j))
    } else {
        None
    }
}

/// The id the strategy prefers, before checking that it is bootable.
pub open spec fn preferred(h: HistoryV, s: Strategy) -> Option<Seq<char>> {
    match s {
        Strategy::LastGoodThenDefault => if h.last_good is Some {
            h.last_good
        } else {
            h.configured_default
        },
        Strategy::Default => h.configured_default,
    }
}

/// The reason given when the preferred id is chosen.
pub open spec fn preferred_reason(h: HistoryV, s: Strategy) -> ReasonV {
    match s {
        Strategy::LastGoodThenDefault => if h.last_good is Some {
            ReasonV::LastGood
        } else {
            ReasonV::ConfiguredDefault
        },
        Strategy::Default => ReasonV::ConfiguredDefault,
    }
}

/// The decision for a graph whose entries are `flat`:
///   1. a bootable one-shot entry always wins;
///   2. else the strategy's preferred entry, if bootable;
///   3. else the healthiest bootable entry (first of the highest rank),
///      saying which preference was skipped;
///   4. none only when nothing is bootable.
pub open spec fn decision(flat: Seq<BootEntry>, h: HistoryV, s: Strategy) -> Option<DecisionV> {
    if h.one_shot is Some && id_bootable(flat, h.one_shot->0) {
        Some(DecisionV { chosen: h.one_shot->0, reason: ReasonV::OneShot })
    } else if preferred(h, s) is Some && id_bootable(flat, preferred(h, s)->0) {
        Some(DecisionV { chosen: preferred(h, s)->0, reason: preferred_reason(h, s) })
    } else {
        match healthiest(bootable_entries(flat)) {
            Some(j) => Some(
                DecisionV {
                    chosen: bootable_entries(flat)[j].id@,
                    reason: match preferred(h, s) {
                        Some(p) => ReasonV::FellBackToHealthiest { skipped: p },
                        None => ReasonV::HealthiestAvailable,
                    },
                },
            ),
            None => None,
        }
    }
}

/// Two healthiest positions are the same.
pub proof fn lemma_healthiest_unique(b: Seq<BootEntry>, i: int, j: int)
    requires
        is_healthiest(b, i),
        is_healthiest(b, j),
    ensures
        i == j,
{
    if i < j {
        assert(spec_rank(b[i].health@) < spec_rank(b[j].health@));
        assert(spec_rank(b[j].health@) <= spec_rank(b[i].health@));
    } else if j < i {
        assert(spec_rank(b[j].health@) < spec_rank(b[i].health@));
        assert(spec_rank(b[i].health@) <= spec_rank(b[j].health@));
    }
}

/// A non-empty run has a healthiest entry.
pub proof fn lemma_healthiest_exists(b: Seq<BootEntry>)
    requires
        b.len() > 0,
    ensures
        healthiest(b) matches Some(j) && is_healthiest(b, j),
    decreases b.len(),
{
    let n = b.len() - 1;
    if n == 0 {
        assert(is_healthiest(b, 0));
    } else {
        let p = b.drop_last();
        lemma_healthiest_exists(p);
        let j = healthiest(p)->0;
        assert(is_healthiest(p, j));
        assert(forall|k: int| 0 <= k < n ==> #[trigger] p[k] == b[k]);
        if spec_rank(b[n].health@) > spec_rank(b[j].health@) {
            assert forall|k: int| 0 <= k < b.len() implies spec_rank(#[trigger] b[k].health@) <= spec_rank(
                b[n].health@,
            ) by {
                if k < n {
                    assert(spec_rank(p[k].health@) <= spec_rank(p[j].health@));
                }
            }
            assert forall|k: int| 0 <= k < n implies spec_rank(#[trigger] b[k].health@) < spec_rank(
                b[n].health@,
            ) by {
                assert(spec_rank(p[k].health@) <= spec_rank(p[j].health@));
            }
            assert(is_healthiest(b, n));
        } else {
            assert forall|k: int| 0 <= k < b.len() implies spec_rank(#[trigger] b[k].health@) <= spec_rank(
                b[j].health@,
            ) by {
                if k < n {
                    assert(spec_rank(p[k].health@) <= spec_rank(p[j].health@));
                }
            }
            assert forall|k: int| 0 <= k < j implies spec_rank(#[trigger] b[k].health@) < spec_rank(
                b[j].health@,
            ) by {
                assert(spec_rank(p[k].health@) < spec_rank(p[j].health@));
            }
            assert(is_healthiest(b, j));
        }
    }
}

/// Whether the first entry with `id` is bootable.
fn is_bootable(graph: &BootGraph, id: &EntryId) -> (r: bool)
    ensures
        r == id_bootable(graph.flat(), id@),
{
    match graph.find(id) {
        Some(e) => e.bootable(),
        None => false,
    }
}

/// The healthiest bootable entry; ties go to the first in graph order.
fn pick_healthiest(graph: &BootGraph) -> (r: Option<&BootEntry>)
    ensures
        match healthiest(bootable_entries(graph.flat())) {
            Some(j) => r matches Some(e) && *e == bootable_entries(graph.flat())[j],
            None => r is None,
        },
{
    let b = graph.bootable();
    let ghost bs = bootable_entries(graph.flat());
    let mut best: Option<usize> = None;
    let mut i: usize = 0;
    while i < b.len()
        invariant
            b@.len() == bs.len(),
            forall|k: int| 0 <= k < b@.len() ==> *b@[k] == bs[k],
            i <= b@.len(),
            i == 0 <==> best is None,
            best matches Some(j) ==> j < i && is_healthiest(bs.take(i as int), j as int),
        decreases b@.len() - i,
    {
        let ghost t = bs.take(i + 1);
        assert(forall|k: int| 0 <= k < i ==> #[trigger] t[k] == bs.take(i as int)[k]);
        match best {
            None => {
                best = Some(i);
                assert(is_healthiest(t, i as int));
            },
            Some(j) => {
                if b[i].health.rank() > b[j].health.rank() {
                    best = Some(i);
                    assert(is_healthiest(t, i as int));
                } else {
                    assert(is_healthiest(t, j as int));
                }
            },
        }
        i = i + 1;
    }
    assert(bs.take(i as int) == bs);
    match best {
        Some(j) => {
            proof {
                let c = healthiest(bs)->0;
                lemma_healthiest_unique(bs, c, j as int);
            }
            Some(b[j])
        },
        None => None,
    }
}

/// Decide the default entry. Deterministic and total: `None` only when the
/// graph has no bootable entry at all.
pub fn decide(graph: &BootGraph, history: &History, strategy: Strategy) -> (r: Option<Decision>)
    ensures
        match decision(graph.flat(), history@, strategy) {
            Some(d) => r matches Some(x) && x@ == d,
            None => r is None,
        },
{
    if let Some(id) = &history.one_shot {
        if is_bootable(graph, id) {
            return Some(Decision { chosen: id.clone(), reason: Reason::OneShot });
        }
    }
    let (pref, pref_reason): (Option<EntryId>, Reason) = match strategy {
        Strategy::LastGoodThenDefault => match &history.last_good {
            Some(l) => (Some(l.clone()), Reason::LastGood),
            None => (
                match &history.configured_default {
                    Some(c) => Some(c.clone()),
                    None => None,
                },
                Reason::ConfiguredDefault,
            ),
        },
        Strategy::Default => (
            match &history.configured_default {
                Some(c) => Some(c.clone()),
                None => None,
            },
            Reason::ConfiguredDefault,
        ),
    };
    assert(crate::policy::model::id_text(pref) == preferred(history@, strategy));
    assert(pref_reason@ == preferred_reason(history@, strategy));
    if let Some(id) = &pref {
        if is_bootable(graph, id) {
            return Some(Decision { chosen: id.clone(), reason: pref_reason });
        }
    }
    let healthiest = match pick_healthiest(graph) {
        Some(e) => e,
        None => return None,
    };
    let reason = match &pref {
        Some(skipped_id) => Reason::FellBackToHealthiest { skipped: skipped_id.as_str().to_owned() },
        None => Reason::HealthiestAvailable,
    };
    Some(Decision { chosen: healthiest.id.clone(), reason })
}

/// The entries of `s` whose health rank is `r`, in order.
pub open spec fn with_rank(s: Seq<BootEntry>, r: u8) -> Seq<BootEntry>
    decreases s.len(),
{
    if s.len() == 0 {
        seq![]
    } else if spec_rank(s.last().health@) == r {
        with_rank(s.drop_last(), r).push(s.last())
    } else {
        with_rank(s.drop_last(), r)
    }
}

/// The candidates best first: the bootable entries ordered by health rank,
/// highest first, keeping graph order among equals.
pub open spec fn ranked(flat: Seq<BootEntry>) -> Seq<BootEntry> {
    let b = bootable_entries(flat);
    with_rank(b, 3) + with_rank(b, 2) + with_rank(b, 1) + with_rank(b, 0)
}

/// The entries a run of references points to.
pub open spec fn derefs(s: Seq<&BootEntry>) -> Seq<BootEntry> {
    s.map_values(|e: &BootEntry| *e)
}

/// Append the ids of the entries of `b` with rank `r`, in order.
fn push_rank(out: &mut Vec<EntryId>, b: &Vec<&BootEntry>, r: u8)
    ensures
        final(out)@.len() == old(out)@.len() + with_rank(derefs(b@), r).len(),
        forall|k: int| 0 <= k < old(out)@.len() ==> (#[trigger] final(out)@[k])@ == old(out)@[k]@,
        forall|k: int|
            0 <= k < with_rank(derefs(b@), r).len() ==> (#[trigger] final(out)@[old(
                out,
            )@.len() + k])@ == with_rank(derefs(b@), r)[k].id@,
{
    let ghost bs = derefs(b@);
    let ghost start = out@.len();
    let mut i: usize = 0;
    while i < b.len()
        invariant
            bs == derefs(b@),
            i <= b@.len(),
            start == old(out)@.len(),
            out@.len() == start + with_rank(bs.take(i as int), r).len(),
            forall|k: int| 0 <= k < start ==> (#[trigger] out@[k])@ == old(out)@[k]@,
            forall|k: int|
                0 <= k < with_rank(bs.take(i as int), r).len() ==> (#[trigger] out@[start + k])@
                    == with_rank(bs.take(i as int), r)[k].id@,
        decreases b@.len() - i,
    {
        assert(bs.take(i + 1).drop_last() == bs.take(i as int));
        assert(bs.take(i + 1).last() == *b@[i as int]);
        if b[i].health.rank() == r {
            out.push(b[i].id.clone());
        }
        i = i + 1;
    }
    assert(bs.take(i as int) == bs);
}

/// The bootable entries' ids, best first: by health rank, highest first,
/// graph order among equals.
pub fn ranked_candidates(graph: &BootGraph) -> (r: Vec<EntryId>)
    ensures
        r@.len() == ranked(graph.flat()).len(),
        forall|k: int| 0 <= k < r@.len() ==> (#[trigger] r@[k])@ == ranked(graph.flat())[k].id@,
{
    let b = graph.bootable();
    let ghost bs = bootable_entries(graph.flat());
    assert(derefs(b@) =~= bs);
    let mut out: Vec<EntryId> = Vec::new();
    push_rank(&mut out, &b, 3);
    let ghost o1 = out@;
    push_rank(&mut out, &b, 2);
    let ghost o2 = out@;
    push_rank(&mut out, &b, 1);
    let ghost o3 = out@;
    push_rank(&mut out, &b, 0);
    let ghost all = ranked(graph.flat());
    let ghost a3 = with_rank(bs, 3);
    let ghost a2 = with_rank(bs, 2);
    let ghost a1 = with_rank(bs, 1);
    let ghost a0 = with_rank(bs, 0);
    assert(all == a3 + a2 + a1 + a0);
    assert forall|k: int| 0 <= k < out@.len() implies (#[trigger] out@[k])@ == all[k].id@ by {
        if k < a3.len() {
            assert(all[k] == a3[k]);
            assert(out@[k]@ == o3[k]@);
            assert(o3[k]@ == o2[k]@);
            assert(o2[k]@ == o1[k]@);
            assert(o1[0 + k]@ == a3[k].id@);
        } else if k < a3.len() + a2.len() {
            assert(all[k] == a2[k - a3.len()]);
            assert(out@[k]@ == o3[k]@);
            assert(o3[k]@ == o2[k]@);
            assert(o2[o1.len() + (k - a3.len())]@ == a2[k - a3.len()].id@);
        } else if k < a3.len() + a2.len() + a1.len() {
            assert(all[k] == a1[k - a3.len() - a2.len()]);
            assert(out@[k]@ == o3[k]@);
            assert(o3[o2.len() + (k - a3.len() - a2.len())]@ == a1[k - a3.len() - a2.len()].id@);
        } else {
            assert(all[k] == a0[k - a3.len() - a2.len() - a1.len()]);
            assert(out@[o3.len() + (k - a3.len() - a2.len() - a1.len())]@ == a0[k - a3.len() - a2.len() - a1.len()].id@);
        }
    }
    out
}

} // verus!
