//! Health annotations and boot outcomes. Health is always a machine-readable
//! reason, never a bare present/absent flag.
use vstd::prelude::*;

verus! {

/// A human-readable explanation attached to a health state or decision.
#[derive(Clone, PartialEq, Eq, Debug)]
pub struct Reason(pub String);

impl Reason {
    pub fn new(s: &str) -> (r: Reason)
        ensures
            r.0@ == s@,
    {
        Reason(s.to_owned())
    }
}

/// Health annotation consumed by policy, the UIs and recovery.
#[derive(Clone, PartialEq, Eq, Debug)]
pub enum Health {
    Healthy,
    Degraded(Reason),
    Unbootable(Reason),
    Unknown,
}

/// The mathematical value of a [`Health`].
pub enum HealthV {
    Healthy,
    Degraded(Seq<char>),
    Unbootable(Seq<char>),
    Unknown,
}

impl View for Health {
    type V = HealthV;

    open spec fn view(&self) -> HealthV {
        match self {
            Health::Healthy => HealthV::Healthy,
            Health::Degraded(r) => HealthV::Degraded(r.0@),
            Health::Unbootable(r) => HealthV::Unbootable(r.0@),
            Health::Unknown => HealthV::Unknown,
        }
    }
}

/// Only healthy and degraded entries are boot candidates.
pub open spec fn spec_bootable(h: HealthV) -> bool {
    h is Healthy || h is Degraded
}

/// Healthy > Degraded > Unknown > Unbootable.
pub open spec fn spec_rank(h: HealthV) -> u8 {
    match h {
        HealthV::Healthy => 3,
        HealthV::Degraded(_) => 2,
        HealthV::Unknown => 1,
        HealthV::Unbootable(_) => 0,
    }
}

impl Health {
    /// Can this entry be booted at all? Unbootable and Unknown are not candidates.
    pub fn is_bootable(&self) -> (r: bool)
        ensures
            r == spec_bootable(self@),
    {
        match self {
            Health::Healthy => true,
            Health::Degraded(_) => true,
            _ => false,
        }
    }

    /// Rank for default selection: Healthy > Degraded > Unknown > Unbootable.
    pub fn rank(&self) -> (r: u8)
        ensures
            r == spec_rank(self@),
    {
        match self {
            Health::Healthy => 3,
            Health::Degraded(_) => 2,
            Health::Unknown => 1,
            Health::Unbootable(_) => 0,
        }
    }
}

/// The recorded outcome of the last attempt on an entry.
#[derive(Clone, Copy, PartialEq, Eq, Debug, Structural)]
pub enum BootResult {
    Confirmed,
    Failed,
    Unknown,
}

} // verus!
