use myboot::graph::{BootEntry, BootGraph, BootMethod, DiskId, DiskNode, EntryId, EntryRole, Health, OsKind, OsNode, Reason as GReason};
use myboot::policy::{decide, ranked_candidates, History, Reason, Strategy};

fn entry(g: u32, health: Health) -> BootEntry {
    let mut e = BootEntry::new(OsKind::NixOs, "gen", EntryRole::Generation(g), BootMethod::NixGeneration);
    e.health = health; e
}
fn graph_with(entries: Vec<BootEntry>) -> BootGraph {
    let mut g = BootGraph::new();
    let mut os = OsNode::new(OsKind::NixOs, "NixOS");
    for e in entries { os.push(e); }
    g.add_disk(DiskNode { id: DiskId(0), label: "d".to_string(), systems: vec![os] });
    g
}
fn id(g: u32) -> EntryId { EntryId::derive(OsKind::NixOs, &EntryRole::Generation(g), None) }

#[test]
fn one_shot_wins_when_bootable() {
    let g = graph_with(vec![entry(128, Health::Healthy), entry(127, Health::Healthy)]);
    let h = History { one_shot: Some(id(127)), ..Default::default() };
    let d = decide(&g, &h, Strategy::LastGoodThenDefault).unwrap();
    assert_eq!(d.chosen, id(127));
    assert_eq!(d.reason, Reason::OneShot);
}

#[test]
fn last_good_preferred_then_falls_back_when_unbootable() {
    let g = graph_with(vec![
        entry(128, Health::Healthy),
        entry(127, Health::Unbootable(GReason::new("missing kernel"))),
    ]);
    let h = History { last_good: Some(id(127)), ..Default::default() };
    let d = decide(&g, &h, Strategy::LastGoodThenDefault).unwrap();
    assert_eq!(d.chosen, id(128));
    match d.reason {
        Reason::FellBackToHealthiest { skipped } => assert!(skipped.contains("127")),
        other => panic!("expected fallback, got {other:?}"),
    }
}

#[test]
fn healthiest_available_when_no_history() {
    let g = graph_with(vec![
        entry(126, Health::Degraded(GReason::new("kernel changed"))),
        entry(128, Health::Healthy),
    ]);
    let d = decide(&g, &History::default(), Strategy::LastGoodThenDefault).unwrap();
    assert_eq!(d.chosen, id(128));
    assert_eq!(d.reason, Reason::HealthiestAvailable);
}

#[test]
fn none_when_nothing_bootable() {
    let g = graph_with(vec![entry(128, Health::Unbootable(GReason::new("x")))]);
    assert!(decide(&g, &History::default(), Strategy::LastGoodThenDefault).is_none());
}

#[test]
fn decision_is_deterministic() {
    let g = graph_with(vec![entry(128, Health::Healthy), entry(127, Health::Healthy)]);
    let a = decide(&g, &History::default(), Strategy::LastGoodThenDefault);
    let b = decide(&g, &History::default(), Strategy::LastGoodThenDefault);
    assert_eq!(a, b);
}

#[test]
fn configured_default_and_strategy_reasons() {
    let g = graph_with(vec![entry(128, Health::Healthy), entry(127, Health::Healthy)]);
    let h = History { configured_default: Some(id(127)), last_good: Some(id(128)), one_shot: None };
    let d = decide(&g, &h, Strategy::Default).unwrap();
    assert_eq!((d.chosen, d.reason), (id(127), Reason::ConfiguredDefault));
    let d = decide(&g, &h, Strategy::LastGoodThenDefault).unwrap();
    assert_eq!((d.chosen, d.reason), (id(128), Reason::LastGood));
    let h2 = History { configured_default: Some(id(127)), ..Default::default() };
    let d = decide(&g, &h2, Strategy::LastGoodThenDefault).unwrap();
    assert_eq!((d.chosen, d.reason), (id(127), Reason::ConfiguredDefault));
}

#[test]
fn ties_go_to_graph_order_and_unbootable_one_shot_is_ignored() {
    let g = graph_with(vec![
        entry(120, Health::Degraded(GReason::new("x"))),
        entry(127, Health::Healthy),
        entry(128, Health::Healthy),
        entry(129, Health::Unbootable(GReason::new("x"))),
    ]);
    let h = History { one_shot: Some(id(129)), ..Default::default() };
    let d = decide(&g, &h, Strategy::Default).unwrap();
    assert_eq!((d.chosen, d.reason), (id(127), Reason::HealthiestAvailable));
}

#[test]
fn ranked_candidates_are_best_first_and_bootable_only() {
    let g = graph_with(vec![
        entry(120, Health::Degraded(GReason::new("x"))),
        entry(127, Health::Healthy),
        entry(129, Health::Unbootable(GReason::new("x"))),
        entry(128, Health::Healthy),
        entry(121, Health::Unknown),
    ]);
    assert_eq!(ranked_candidates(&g), vec![id(127), id(128), id(120)]);
}
