//! The pure stages of the boot pipeline.
use vstd::prelude::*;
use vstd::utf8::{valid_utf8, decode_utf8};
use crate::config::{Config, PolicyKind};
use crate::config::schema::{ConfigV, ConfigErrorV, config_of_text};
use crate::graph::{BootGraph, BootEntry, EntryId, EfiPath};
use crate::graph::entry::BootEntryV;
use crate::graph::tree::{first_with_id, select};
use crate::policy::{History, Strategy, ranked_candidates};
use crate::policy::decide::ranked;
use crate::policy::model::id_text;
use crate::ports::{VarStore, FileStore, VarNamespace};
use crate::persistence::nvram::{read_last_good, stored_id, VAR_LASTGOOD};
use crate::providers::{BootProvider, LaunchPlan, LaunchPlanV, plan_view, spec_plan};
use crate::providers::registry::{provider_for, provider_kind, spec_provider_for};
use crate::text::{str_from_utf8, concat, chars_of, lower_chars, eq_chars, lower_seq, extend_str,
    string_of};

verus! {

/// Where the configuration file lives on the ESP.
pub const CONFIG_PATH: &'static str = "\\EFI\\MyBoot\\config.toml";

/// The boot manager's own loader path (the removable-media fallback path).
pub const OWN_LOADER: &'static str = "\\EFI\\BOOT\\BOOTX64.EFI";

/// The strategy the configuration asks for: `Default` only when it says so.
pub fn map_strategy(cfg: &Option<Config>) -> (r: Strategy)
    ensures
        r == (if cfg matches Some(c) && c.policy == PolicyKind::Default {
            Strategy::Default
        } else {
            Strategy::LastGoodThenDefault
        }),
{
    match cfg {
        Some(c) => match c.policy {
            PolicyKind::Default => Strategy::Default,
            _ => Strategy::LastGoodThenDefault,
        },
        None => Strategy::LastGoodThenDefault,
    }
}

/// The menu timeout: the configured one, else five seconds.
pub fn timeout_secs(cfg: &Option<Config>) -> (r: u16)
    ensures
        r == (match cfg {
            Some(c) => c.timeout_secs,
            None => 5,
        }),
{
    match cfg {
        Some(c) => c.timeout_secs,
        None => 5,
    }
}

/// The number of attempts an entry gets: the configured one, else two.
pub fn max_tries(cfg: &Option<Config>) -> (r: u8)
    ensures
        r == (match cfg {
            Some(c) => c.max_tries,
            None => 2,
        }),
{
    match cfg {
        Some(c) => c.max_tries,
        None => 2,
    }
}

/// The history the policy may consult: the configured default, and the
/// last confirmed-good entry as stored (none if it is absent or cannot be
/// read); no one-shot.
pub fn build_history<V: VarStore>(vars: &V, cfg: &Option<Config>) -> (r: History)
    ensures
        r@.configured_default == (match cfg {
            Some(c) => Some(c.default@),
            None => None,
        }),
        vars.modelled() ==> (r@.last_good matches Some(t) ==> stored_id(vars.vars(VarNamespace::Vendor), VAR_LASTGOOD@) == Some(
                Some(t),
            )),
        vars.modelled() ==> (stored_id(vars.vars(VarNamespace::Vendor), VAR_LASTGOOD@) is None ==> r@.last_good is None),
        vars.modelled() ==> (vars.never_fails() ==> r@.last_good == match stored_id(
                vars.vars(VarNamespace::Vendor),
                VAR_LASTGOOD@,
            ) {
                Some(Some(t)) => Some(t),
                _ => None::<Seq<char>>,
            }),
        r@.one_shot is None,
{
    let configured_default = match cfg {
        Some(c) => Some(EntryId::from_raw(c.default.as_str())),
        None => None,
    };
    let last_good = match read_last_good(vars) {
        Ok(Some(id)) => Some(id),
        _ => None,
    };
    History { configured_default, last_good, one_shot: None }
}

/// Read and parse the configuration file; `None` when it is absent,
/// unreadable, not UTF-8 or invalid.
pub fn load_config<F: FileStore>(fs: &F) -> (r: Option<Config>)
    ensures
        fs.modelled() ==> (r matches Some(c) ==> {
                &&& fs.files().contains_key(CONFIG_PATH@)
                &&& valid_utf8(fs.files()[CONFIG_PATH@])
                &&& config_of_text(decode_utf8(fs.files()[CONFIG_PATH@])) == Ok::<ConfigV, ConfigErrorV>(c@)
            }),
        fs.modelled() ==> (!fs.files().contains_key(CONFIG_PATH@) ==> r is None),
        fs.modelled() ==> (fs.never_fails() && fs.files().contains_key(CONFIG_PATH@) && valid_utf8(
                fs.files()[CONFIG_PATH@],
            ) && config_of_text(decode_utf8(fs.files()[CONFIG_PATH@])) is Ok ==> r is Some),
{
    let bytes = match fs.read(CONFIG_PATH) {
        Ok(b) => b,
        Err(_) => return None,
    };
    let text = match str_from_utf8(bytes.as_slice()) {
        Some(t) => t,
        None => return None,
    };
    match Config::parse(text) {
        Ok(c) => Some(c),
        Err(_) => None,
    }
}

/// The plan for the entry with `id`: its provider's plan, if the entry
/// exists and the provider can plan it.
pub open spec fn spec_plan_for(flat: Seq<BootEntry>, id: Seq<char>) -> Option<LaunchPlanV> {
    match first_with_id(flat, id) {
        Some(i) => match spec_plan(provider_kind(spec_provider_for(flat[i]@)), flat[i]@) {
            Ok(p) => Some(p),
            Err(_) => None,
        },
        None => None,
    }
}

/// The launch plan for the entry with `id`, if it can be planned.
pub fn plan_for(graph: &BootGraph, id: &EntryId) -> (r: Option<LaunchPlan>)
    ensures
        match spec_plan_for(graph.flat(), id@) {
            Some(p) => r matches Some(x) && x@ == p,
            None => r is None,
        },
{
    let entry = match graph.find(id) {
        Some(e) => e,
        None => return None,
    };
    let provider = match provider_for(entry) {
        Some(p) => p,
        None => return None,
    };
    match provider.plan(entry) {
        Ok(p) => Some(p),
        Err(_) => None,
    }
}

/// The volume the entry with `id` boots from: that of the first entry
/// carrying the id (none if there is no such entry).
pub open spec fn entry_volume(flat: Seq<BootEntry>, id: Seq<char>) -> Option<Seq<char>> {
    match first_with_id(flat, id) {
        Some(i) => flat[i]@.volume,
        None => None,
    }
}

/// The next hand-off to try after the attempts before `from` failed: the
/// first candidate at or after `from` whose entry can be planned, with its
/// position, its plan and the volume it boots from. `None` once no later
/// candidate can be planned, when the boot gives up.
pub fn next_handoff(graph: &BootGraph, candidates: &[EntryId], from: usize) -> (r: Option<
    (usize, LaunchPlan, Option<String>),
>)
    requires
        from <= candidates@.len(),
    ensures
        match r {
            Some((k, p, v)) => {
                &&& from <= k < candidates@.len()
                &&& spec_plan_for(graph.flat(), candidates@[k as int]@) == Some(p@)
                &&& crate::graph::entry::opt_text(v) == entry_volume(graph.flat(), candidates@[k as int]@)
                &&& forall|j: int|
                    from <= j < k ==> spec_plan_for(graph.flat(), #[trigger] candidates@[j]@) is None
            },
            None => forall|j: int|
                from <= j < candidates@.len() ==> spec_plan_for(graph.flat(), #[trigger] candidates@[j]@)
                    is None,
        },
{
    let mut k = from;
    while k < candidates.len()
        invariant
            from <= k <= candidates@.len(),
            forall|j: int|
                from <= j < k ==> spec_plan_for(graph.flat(), #[trigger] candidates@[j]@) is None,
        decreases candidates@.len() - k,
    {
        match plan_for(graph, &candidates[k]) {
            Some(p) => {
                let volume = match graph.find(&candidates[k]) {
                    Some(e) => match &e.volume {
                        Some(v) => Some(v.clone()),
                        None => None,
                    },
                    None => None,
                };
                return Some((k, p, volume));
            },
            None => {},
        }
        k = k + 1;
    }
    None
}

/// A plan with its command line replaced by a non-empty edited one.
pub open spec fn overridden(plan: LaunchPlanV, cmd: Option<Seq<char>>) -> LaunchPlanV {
    match cmd {
        Some(c) if c.len() > 0 => match plan {
            LaunchPlanV::Chainload { image, initrd, .. } => LaunchPlanV::Chainload { image, options: Some(c), initrd },
            LaunchPlanV::DirectKernel { kernel, initrd, .. } => LaunchPlanV::DirectKernel {
                kernel,
                initrd,
                cmdline: Some(c),
            },
        },
        _ => plan,
    }
}

/// Replace a plan's command line with a user-edited one; an absent or
/// empty edit leaves the plan unchanged.
pub fn apply_cmdline_override(plan: LaunchPlan, cmd: Option<&str>) -> (r: LaunchPlan)
    ensures
        r@ == overridden(
            plan@,
            match cmd {
                Some(c) => Some(c@),
                None => None,
            },
        ),
{
    let c = match cmd {
        Some(c) => c,
        None => return plan,
    };
    if chars_of(c).len() == 0 {
        return plan;
    }
    match plan {
        LaunchPlan::Chainload { image, initrd, .. } => LaunchPlan::Chainload {
            image,
            options: Some(c.to_owned()),
            initrd,
        },
        LaunchPlan::DirectKernel { kernel, initrd, .. } => LaunchPlan::DirectKernel {
            kernel,
            initrd,
            cmdline: Some(c.to_owned()),
        },
    }
}

/// The load options a chainloaded image receives: its options, then
/// `initrd=<path>` (space-separated) when it has an initrd.
pub open spec fn chainload_options_text(options: Option<Seq<char>>, initrd: Option<Seq<char>>) -> Seq<char> {
    let base = match options {
        Some(o) => o,
        None => seq![],
    };
    match initrd {
        Some(p) => (if base.len() > 0 {
            base + " "@
        } else {
            base
        }) + "initrd="@ + p,
        None => base,
    }
}

/// The load options for a chainloaded image.
pub fn chainload_options(options: Option<String>, initrd: Option<EfiPath>) -> (r: String)
    ensures
        r@ == chainload_options_text(crate::graph::entry::opt_text(options), crate::graph::entry::path_text(initrd)),
{
    let mut cmd: Vec<char> = match &options {
        Some(o) => chars_of(o.as_str()),
        None => Vec::new(),
    };
    match &initrd {
        Some(p) => {
            if cmd.len() > 0 {
                cmd.push(' ');
            }
            extend_str(&mut cmd, "initrd=");
            extend_str(&mut cmd, p.0.as_str());
            proof {
                reveal_strlit(" ");
            }
        },
        None => {},
    }
    string_of(&cmd)
}

/// Whether `e` is the boot manager's own loader on its own volume.
pub open spec fn own_loader(e: BootEntryV, own_vol: Seq<char>) -> bool {
    &&& e.volume == Some(own_vol)
    &&& e.loader matches Some(l) && lower_seq(l) == lower_seq(OWN_LOADER@)
}

/// Whether `e` is the boot manager's own loader (compared ignoring ASCII
/// case) on the volume `own_vol`.
pub fn is_own_loader(e: &BootEntry, own_vol: &str) -> (r: bool)
    ensures
        r == own_loader(e@, own_vol@),
{
    let on_own = match &e.volume {
        Some(v) => eq_chars(&chars_of(v.as_str()), &chars_of(own_vol)),
        None => false,
    };
    if !on_own {
        return false;
    }
    match &e.loader {
        Some(p) => {
            let a = lower_chars(&chars_of(p.0.as_str()));
            let b = lower_chars(&chars_of(OWN_LOADER));
            eq_chars(&a, &b)
        },
        None => false,
    }
}

/// Drop the boot manager's own loader from the graph so it never offers to
/// boot itself; every other entry stays.
pub fn exclude_own_loader(graph: &mut BootGraph, own_vol: &str)
    ensures
        final(graph).flat() == select(
            old(graph).flat(),
            Seq::new(old(graph).flat().len(), |i: int| !own_loader(old(graph).flat()[i]@, own_vol@)),
        ),
{
    let keep = |e: &BootEntry| -> (r: bool)
        ensures
            r == !own_loader(e@, own_vol@),
        { !is_own_loader(e, own_vol) };
    let ghost orig = graph.flat();
    graph.retain_entries(keep);
    proof {
        let flags = choose|flags: Seq<bool>|
            {
                &&& crate::graph::tree::keep_flags(keep, orig, flags)
                &&& graph.flat() == select(orig, flags)
            };
        assert(flags =~= Seq::new(orig.len(), |i: int| !own_loader(orig[i]@, own_vol@)));
    }
}

/// The ids of a run of entries.
pub open spec fn entry_ids(s: Seq<BootEntry>) -> Seq<Seq<char>> {
    s.map_values(|e: BootEntry| e.id@)
}

/// The texts of a run of ids.
pub open spec fn id_texts(s: Seq<EntryId>) -> Seq<Seq<char>> {
    s.map_values(|e: EntryId| e@)
}

/// `s` without the occurrences of `x`.
pub open spec fn without(s: Seq<Seq<char>>, x: Seq<char>) -> Seq<Seq<char>>
    decreases s.len(),
{
    if s.len() == 0 {
        seq![]
    } else if s.last() == x {
        without(s.drop_last(), x)
    } else {
        without(s.drop_last(), x).push(s.last())
    }
}

/// The order in which entries are attempted: the chosen one first, then
/// every other bootable entry, best first.
pub open spec fn attempt_order_ids(flat: Seq<BootEntry>, chosen: Seq<char>) -> Seq<Seq<char>> {
    seq![chosen] + without(entry_ids(ranked(flat)), chosen)
}

/// The entries to attempt, in order: the chosen one, then the other
/// bootable entries best first, so a failed hand-off falls through to the
/// next instead of a dead end.
pub fn attempt_order(graph: &BootGraph, chosen: &EntryId) -> (r: Vec<EntryId>)
    ensures
        id_texts(r@) == attempt_order_ids(graph.flat(), chosen@),
{
    let ranked_ids = ranked_candidates(graph);
    let ghost all = entry_ids(ranked(graph.flat()));
    assert(id_texts(ranked_ids@) =~= all);
    let mut out: Vec<EntryId> = Vec::new();
    out.push(chosen.clone());
    let mut i: usize = 0;
    while i < ranked_ids.len()
        invariant
            i <= ranked_ids@.len(),
            id_texts(ranked_ids@) == all,
            id_texts(out@) == seq![chosen@] + without(all.take(i as int), chosen@),
        decreases ranked_ids@.len() - i,
    {
        assert(all.take(i + 1).drop_last() =~= all.take(i as int));
        assert(all[i as int] == ranked_ids@[i as int]@);
        if ranked_ids[i] != *chosen {
            let ghost before = out@;
            out.push(ranked_ids[i].clone());
            assert(id_texts(out@) =~= id_texts(before).push(ranked_ids@[i as int]@));
        }
        i = i + 1;
    }
    assert(all.take(i as int) =~= all);
    out
}

} // verus!
