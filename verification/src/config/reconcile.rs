//! Bring the firmware's boot order into line with the desired state,
//! reversibly: read actual, diff against desired, and produce a snapshot
//! (for rollback) plus an ordered plan. Planning performs no writes.
//!
//! Only the boot *order* and the boot manager's own option are reconciled;
//! another OS's Boot#### payload is never rewritten.
use vstd::prelude::*;
use crate::ports::{VarStore, VarNamespace, IoError, IoResult};
use crate::persistence::loadopt::{decode_boot_order, encode_boot_order, order_of, order_bytes};

verus! {

pub const VAR_BOOT_ORDER: &'static str = "BootOrder";

/// A reversible step to apply to firmware.
#[derive(Clone, Debug, PartialEq, Eq)]
pub enum PlanStep {
    /// Replace `BootOrder` with this exact sequence of option numbers.
    SetBootOrder(Vec<u16>),
}

impl View for PlanStep {
    type V = Seq<u16>;

    open spec fn view(&self) -> Seq<u16> {
        match self {
            PlanStep::SetBootOrder(o) => o@,
        }
    }
}

/// Everything needed to restore the prior firmware state.
#[derive(Clone, Debug, PartialEq, Eq)]
pub struct Snapshot {
    pub boot_order: Option<Vec<u16>>,
}

pub open spec fn snap_view(s: Snapshot) -> Option<Seq<u16>> {
    match s.boot_order {
        Some(o) => Some(o@),
        None => None,
    }
}

/// The plan plus the snapshot needed to undo it.
#[derive(Clone, Debug, PartialEq, Eq)]
pub struct ReconcilePlan {
    pub steps: Vec<PlanStep>,
    pub snapshot: Snapshot,
}

pub open spec fn steps_view(s: Seq<PlanStep>) -> Seq<Seq<u16>> {
    s.map_values(|p: PlanStep| p@)
}

impl ReconcilePlan {
    /// True when the firmware already matches desired: nothing to do.
    pub fn is_noop(&self) -> (r: bool)
        ensures
            r == (self.steps@.len() == 0),
    {
        self.steps.len() == 0
    }
}

/// The boot order the global variables hold, if any.
pub open spec fn actual_order(m: Map<Seq<char>, Seq<u8>>) -> Option<Seq<u16>> {
    if m.contains_key(VAR_BOOT_ORDER@) {
        Some(order_of(m[VAR_BOOT_ORDER@]))
    } else {
        None
    }
}

/// The steps that take firmware from `actual` to `desired`: none when they
/// already match (an absent order matches an empty desired order).
pub open spec fn plan_steps(actual: Option<Seq<u16>>, desired: Seq<u16>) -> Seq<Seq<u16>> {
    let matches = match actual {
        Some(a) => a == desired,
        None => desired.len() == 0,
    };
    if matches {
        seq![]
    } else {
        seq![desired]
    }
}

/// The global variables after applying some steps.
pub open spec fn applied(m: Map<Seq<char>, Seq<u8>>, steps: Seq<Seq<u16>>) -> Map<Seq<char>, Seq<u8>>
    decreases steps.len(),
{
    if steps.len() == 0 {
        m
    } else {
        applied(m.insert(VAR_BOOT_ORDER@, order_bytes(steps[0])), steps.drop_first())
    }
}

/// The global variables after restoring a snapshot.
pub open spec fn restored(m: Map<Seq<char>, Seq<u8>>, snap: Option<Seq<u16>>) -> Map<Seq<char>, Seq<u8>> {
    match snap {
        Some(o) => m.insert(VAR_BOOT_ORDER@, order_bytes(o)),
        None => m.remove(VAR_BOOT_ORDER@),
    }
}

/// The boot order a read of BootOrder gave: the order its bytes hold, or
/// none when the read failed (absent or unreadable).
pub open spec fn order_answer(answer: IoResult<Vec<u8>>) -> Option<Seq<u16>> {
    match answer {
        Ok(b) => Some(order_of(b@)),
        Err(_) => None,
    }
}

fn order_from_read(answer: &IoResult<Vec<u8>>) -> (r: Option<Vec<u16>>)
    ensures
        match r {
            Some(o) => order_answer(*answer) == Some(o@),
            None => order_answer(*answer) is None,
        },
{
    match answer {
        Ok(bytes) => Some(decode_boot_order(bytes.as_slice())),
        Err(_) => None,
    }
}

fn same_order(a: &Vec<u16>, b: &[u16]) -> (r: bool)
    ensures
        r == (a@ == b@),
{
    if a.len() != b.len() {
        return false;
    }
    let mut i: usize = 0;
    while i < a.len()
        invariant
            a@.len() == b@.len(),
            i <= a@.len(),
            forall|k: int| 0 <= k < i ==> a@[k] == b@[k],
        decreases a@.len() - i,
    {
        if a[i] != b[i] {
            return false;
        }
        i = i + 1;
    }
    assert(a@ =~= b@);
    true
}

fn copy_order(o: &[u16]) -> (r: Vec<u16>)
    ensures
        r@ == o@,
{
    vstd::slice::slice_to_vec(o)
}

/// The plan for a desired boot order given what reading BootOrder
/// answered: the snapshot is the order read (none when the read failed),
/// and there is one step, to `desired`, unless the order read already is it.
pub fn plan_from_read(answer: &IoResult<Vec<u8>>, desired: &[u16]) -> (r: ReconcilePlan)
    ensures
        snap_view(r.snapshot) == order_answer(*answer),
        steps_view(r.steps@) == plan_steps(order_answer(*answer), desired@),
{
    let actual = order_from_read(answer);
    let matches = match &actual {
        Some(a) => same_order(a, desired),
        None => desired.len() == 0,
    };
    let snap_order = match &actual {
        Some(a) => Some(copy_order(a.as_slice())),
        None => None,
    };
    let snapshot = Snapshot { boot_order: snap_order };
    let mut steps: Vec<PlanStep> = Vec::new();
    if !matches {
        steps.push(PlanStep::SetBootOrder(copy_order(desired)));
    }
    assert(steps_view(steps@) =~= plan_steps(snap_view(snapshot), desired@));
    ReconcilePlan { steps, snapshot }
}

/// Compute the plan for a desired boot order. Reads BootOrder through the
/// port once and plans from its answer as [`plan_from_read`] says; performs
/// no writes. The snapshot is the actual order whenever the store answered.
pub fn plan_boot_order<V: VarStore>(vars: &V, desired: &[u16]) -> (r: ReconcilePlan)
    ensures
        vars.modelled() ==> (snap_view(r.snapshot) is Some ==> snap_view(r.snapshot) == actual_order(
                vars.vars(VarNamespace::Global),
            )),
        vars.modelled() ==> (actual_order(vars.vars(VarNamespace::Global)) is None ==> snap_view(r.snapshot) is None),
        vars.modelled() ==> (vars.never_fails() ==> snap_view(r.snapshot) == actual_order(vars.vars(VarNamespace::Global))),
        steps_view(r.steps@) == plan_steps(snap_view(r.snapshot), desired@),
{
    let answer = vars.get(VarNamespace::Global, VAR_BOOT_ORDER);
    plan_from_read(&answer, desired)
}

/// Keeps every option but `first`.
pub open spec fn other_than(first: u16) -> spec_fn(u16) -> bool {
    |n: u16| n != first
}

/// The desired order with `first` at the head and every other option
/// already present after it, in their relative order.
pub open spec fn with_first(actual: Option<Seq<u16>>, first: u16) -> Seq<u16> {
    match actual {
        Some(a) => seq![first] + a.filter(other_than(first)),
        None => seq![first],
    }
}

/// The drift-repair order given what reading BootOrder answered:
/// `myboot_option` first, then every other option of the order read, in
/// their relative order.
pub fn desired_from_read(answer: &IoResult<Vec<u8>>, myboot_option: u16) -> (r: Vec<u16>)
    ensures
        r@ == with_first(order_answer(*answer), myboot_option),
{
    let mut out: Vec<u16> = Vec::new();
    out.push(myboot_option);
    match order_from_read(answer) {
        Some(actual) => {
            let ghost a = actual@;
            let mut i: usize = 0;
            assert(a.take(0).filter(other_than(myboot_option)) =~= Seq::<u16>::empty()) by {
                reveal(Seq::filter);
            }
            while i < actual.len()
                invariant
                    i <= a.len(),
                    a == actual@,
                    out@ == seq![myboot_option] + a.take(i as int).filter(other_than(myboot_option)),
                decreases a.len() - i,
            {
                let n = actual[i];
                proof {
                    assert(a.take(i + 1).drop_last() == a.take(i as int));
                    assert(a.take(i + 1).last() == n);
                    reveal(Seq::filter);
                }
                if n != myboot_option {
                    out.push(n);
                }
                i = i + 1;
                assert(out@ =~= seq![myboot_option] + a.take(i as int).filter(other_than(myboot_option)));
            }
            assert(a.take(i as int) == a);
        },
        None => {},
    }
    out
}

/// Desired order that puts `myboot_option` first and preserves the relative
/// order of everything else already present: the drift-repair policy (e.g.
/// after an OS update pushes its own manager to the front). Reads BootOrder
/// once and goes on as [`desired_from_read`] says.
pub fn desired_with_myboot_first<V: VarStore>(vars: &V, myboot_option: u16) -> (r: Vec<u16>)
    ensures
        vars.modelled() ==> (r@ == with_first(actual_order(vars.vars(VarNamespace::Global)), myboot_option) || (
            vars.vars(VarNamespace::Global).contains_key(VAR_BOOT_ORDER@) && r@ == seq![myboot_option])),
        vars.modelled() ==> (vars.never_fails() ==> r@ == with_first(actual_order(vars.vars(VarNamespace::Global)), myboot_option)),
{
    let answer = vars.get(VarNamespace::Global, VAR_BOOT_ORDER);
    desired_from_read(&answer, myboot_option)
}

proof fn lemma_applied_push(m: Map<Seq<char>, Seq<u8>>, steps: Seq<Seq<u16>>, o: Seq<u16>)
    ensures
        applied(m, steps.push(o)) == applied(m, steps).insert(VAR_BOOT_ORDER@, order_bytes(o)),
    decreases steps.len(),
{
    if steps.len() == 0 {
        reveal_with_fuel(applied, 2);
        assert(steps.push(o).drop_first() =~= Seq::<Seq<u16>>::empty());
    } else {
        lemma_applied_push(m.insert(VAR_BOOT_ORDER@, order_bytes(steps[0])), steps.drop_first(), o);
        assert(steps.push(o).drop_first() =~= steps.drop_first().push(o));
    }
}

/// Apply a plan through the port. On any write failure the caller should
/// `restore` the snapshot.
pub fn apply<V: VarStore>(vars: &mut V, plan: &ReconcilePlan) -> (r: Result<(), IoError>)
    ensures
        old(vars).modelled() ==> (r is Ok ==> final(vars).vars(VarNamespace::Global) == applied(
                old(vars).vars(VarNamespace::Global),
                steps_view(plan.steps@),
            )),
        old(vars).modelled() ==> (r is Err ==> exists|k: int|
                0 <= k < plan.steps@.len() && final(vars).vars(VarNamespace::Global) == applied(
                    old(vars).vars(VarNamespace::Global),
                    steps_view(plan.steps@).take(k),
                )),
        old(vars).never_fails() ==> r is Ok,
        plan.steps@.len() == 0 ==> r is Ok && *final(vars) == *old(vars),
        final(vars).never_fails() == old(vars).never_fails(),
        final(vars).modelled() == old(vars).modelled(),
        old(vars).modelled() ==> (final(vars).vars(VarNamespace::Vendor) == old(vars).vars(VarNamespace::Vendor)),
{
    let ghost all = steps_view(plan.steps@);
    let ghost start = old(vars).vars(VarNamespace::Global);
    let mut i: usize = 0;
    assert(all.skip(0) == all);
    assert(all.take(0) =~= Seq::<Seq<u16>>::empty());
    while i < plan.steps.len()
        invariant
            i <= plan.steps@.len(),
            all == steps_view(plan.steps@),
            old(vars).modelled() ==> applied(start, all) == applied(
                vars.vars(VarNamespace::Global),
                all.skip(i as int),
            ),
            old(vars).modelled() ==> vars.vars(VarNamespace::Vendor) == old(vars).vars(
                VarNamespace::Vendor,
            ),
            vars.never_fails() == old(vars).never_fails(),
            vars.modelled() == old(vars).modelled(),
            old(vars).modelled() ==> vars.vars(VarNamespace::Global) == applied(start, all.take(i as int)),
            start == old(vars).vars(VarNamespace::Global),
            i == 0 ==> *vars == *old(vars),
        decreases plan.steps@.len() - i,
    {
        match &plan.steps[i] {
            PlanStep::SetBootOrder(order) => {
                let bytes = encode_boot_order(order.as_slice());
                let ghost before = vars.vars(VarNamespace::Global);
                match vars.set(VarNamespace::Global, VAR_BOOT_ORDER, bytes.as_slice()) {
                    Ok(()) => {},
                    Err(e) => {
                        assert(old(vars).modelled() ==> vars.vars(VarNamespace::Global) == applied(
                            old(vars).vars(VarNamespace::Global),
                            steps_view(plan.steps@).take(i as int),
                        ));
                        return Err(e);
                    },
                }
                assert(all.skip(i as int)[0] == order@);
                assert(all.skip(i as int).drop_first() == all.skip(i + 1));
                proof {
                    assert(all[i as int] == order@);
                    assert(all.take(i + 1) == all.take(i as int).push(order@));
                    lemma_applied_push(start, all.take(i as int), order@);
                }
            },
        }
        i = i + 1;
    }
    assert(all.skip(i as int).len() == 0);
    Ok(())
}

/// Restore the pre-reconciliation state from a snapshot (rollback path).
pub fn restore<V: VarStore>(vars: &mut V, snap: &Snapshot) -> (r: Result<(), IoError>)
    ensures
        old(vars).modelled() ==> (r is Ok ==> final(vars).vars(VarNamespace::Global) == restored(
                old(vars).vars(VarNamespace::Global),
                snap_view(*snap),
            )),
        old(vars).modelled() ==> (r is Err ==> final(vars).vars(VarNamespace::Global) == old(vars).vars(VarNamespace::Global)),
        old(vars).never_fails() ==> r is Ok,
        final(vars).never_fails() == old(vars).never_fails(),
        final(vars).modelled() == old(vars).modelled(),
        old(vars).modelled() ==> (final(vars).vars(VarNamespace::Vendor) == old(vars).vars(VarNamespace::Vendor)),
{
    match &snap.boot_order {
        Some(order) => {
            let bytes = encode_boot_order(order.as_slice());
            vars.set(VarNamespace::Global, VAR_BOOT_ORDER, bytes.as_slice())
        },
        None => vars.delete(VarNamespace::Global, VAR_BOOT_ORDER),
    }
}

/// Restoring the snapshot a plan was made from undoes applying it: the boot
/// order reads as before (absent if it was absent) and every other global
/// variable is as before.
pub proof fn law_restore_undoes_apply(m0: Map<Seq<char>, Seq<u8>>, desired: Seq<u16>)
    ensures
        actual_order(restored(applied(m0, plan_steps(actual_order(m0), desired)), actual_order(m0)))
            == actual_order(m0),
        restored(applied(m0, plan_steps(actual_order(m0), desired)), actual_order(m0)).remove(
            VAR_BOOT_ORDER@,
        ) == m0.remove(VAR_BOOT_ORDER@),
{
    let snap = actual_order(m0);
    let steps = plan_steps(snap, desired);
    let m1 = applied(m0, steps);
    reveal_with_fuel(applied, 2);
    if steps.len() == 0 {
        assert(m1 == m0);
    } else {
        assert(steps.drop_first().len() == 0);
        assert(m1 == m0.insert(VAR_BOOT_ORDER@, order_bytes(desired)));
    }
    let m2 = restored(m1, snap);
    match snap {
        Some(o) => {
            crate::persistence::loadopt::law_boot_order_roundtrip(o);
            assert(m2.remove(VAR_BOOT_ORDER@) =~= m0.remove(VAR_BOOT_ORDER@));
        },
        None => {
            assert(m2.remove(VAR_BOOT_ORDER@) =~= m0.remove(VAR_BOOT_ORDER@));
        },
    }
}

/// Applying a plan leaves the firmware boot order as desired (an empty
/// desired order leaves an absent boot order absent).
pub proof fn law_apply_reaches_desired(m0: Map<Seq<char>, Seq<u8>>, desired: Seq<u16>)
    ensures
        actual_order(applied(m0, plan_steps(actual_order(m0), desired))) == (if actual_order(
            m0,
        ) is None && desired.len() == 0 {
            None
        } else {
            Some(desired)
        }),
{
    let steps = plan_steps(actual_order(m0), desired);
    reveal_with_fuel(applied, 2);
    if steps.len() > 0 {
        assert(steps.drop_first().len() == 0);
        crate::persistence::loadopt::law_boot_order_roundtrip(desired);
    }
}

/// A plan for the order firmware already has does nothing.
pub proof fn law_plan_is_noop_when_matching(m0: Map<Seq<char>, Seq<u8>>)
    requires
        actual_order(m0) is Some,
    ensures
        plan_steps(actual_order(m0), actual_order(m0)->0).len() == 0,
{
}

} // verus!
