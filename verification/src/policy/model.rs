//! The policy's inputs and outputs: the strategy selector, the history the
//! decision may consult, and the explainable result.
use vstd::prelude::*;
use crate::graph::EntryId;

verus! {

/// How the default is chosen.
#[derive(Clone, Copy, Debug, PartialEq, Eq, Structural)]
pub enum Strategy {
    /// Always prefer the configured default entry (if bootable).
    Default,
    /// Prefer the last confirmed-good entry, else the configured default.
    LastGoodThenDefault,
}

/// Inputs the decision may consult beyond the graph itself. All optional:
/// the policy degrades gracefully when history is absent (first boot).
#[derive(Clone, Debug)]
pub struct History {
    /// The configured default entry id, if any.
    pub configured_default: Option<EntryId>,
    /// The last entry that confirmed a successful boot, if any.
    pub last_good: Option<EntryId>,
    /// The entry the user asked to try once; highest priority.
    pub one_shot: Option<EntryId>,
}

/// The text of an optional id.
pub open spec fn id_text(o: Option<EntryId>) -> Option<Seq<char>> {
    match o {
        Some(i) => Some(i@),
        None => None,
    }
}

/// The mathematical value of a [`History`].
pub struct HistoryV {
    pub configured_default: Option<Seq<char>>,
    pub last_good: Option<Seq<char>>,
    pub one_shot: Option<Seq<char>>,
}

impl View for History {
    type V = HistoryV;

    open spec fn view(&self) -> HistoryV {
        HistoryV {
            configured_default: id_text(self.configured_default),
            last_good: id_text(self.last_good),
            one_shot: id_text(self.one_shot),
        }
    }
}

impl Default for History {
    fn default() -> (r: History)
        ensures
            r.configured_default is None,
            r.last_good is None,
            r.one_shot is None,
    {
        History { configured_default: None, last_good: None, one_shot: None }
    }
}

/// A decision plus its justification.
#[derive(Clone, Debug, PartialEq, Eq)]
pub struct Decision {
    pub chosen: EntryId,
    pub reason: Reason,
}

/// Why an entry was chosen: a closed set, so callers can localise or log it.
#[derive(Clone, Debug, PartialEq, Eq)]
pub enum Reason {
    OneShot,
    ConfiguredDefault,
    LastGood,
    /// The configured or last-good choice was not bootable, so the policy
    /// fell back.
    FellBackToHealthiest { skipped: String },
    /// Nothing was configured; the healthiest bootable entry was picked.
    HealthiestAvailable,
}

/// The mathematical value of a [`Reason`].
pub enum ReasonV {
    OneShot,
    ConfiguredDefault,
    LastGood,
    FellBackToHealthiest { skipped: Seq<char> },
    HealthiestAvailable,
}

impl View for Reason {
    type V = ReasonV;

    open spec fn view(&self) -> ReasonV {
        match self {
            Reason::OneShot => ReasonV::OneShot,
            Reason::ConfiguredDefault => ReasonV::ConfiguredDefault,
            Reason::LastGood => ReasonV::LastGood,
            Reason::FellBackToHealthiest { skipped } => ReasonV::FellBackToHealthiest { skipped: skipped@ },
            Reason::HealthiestAvailable => ReasonV::HealthiestAvailable,
        }
    }
}

/// The mathematical value of a [`Decision`].
pub struct DecisionV {
    pub chosen: Seq<char>,
    pub reason: ReasonV,
}

impl View for Decision {
    type V = DecisionV;

    open spec fn view(&self) -> DecisionV {
        DecisionV { chosen: self.chosen@, reason: self.reason@ }
    }
}

} // verus!
