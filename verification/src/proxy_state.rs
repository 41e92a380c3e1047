//! Process-wide health flags. Updates are fire-and-forget; a supervisor
//! outside the library polls the snapshot and decides whether to restart the
//! upstream subsystem or exit on a declared inconsistency.
use vstd::prelude::*;

verus! {

#[derive(Debug, Clone, Copy, PartialEq, Eq, Structural)]
pub enum UpstreamState {
    Up,
    Down,
}

#[derive(Debug, Clone, Copy, PartialEq, Eq, Structural)]
pub enum DownstreamState {
    Healthy,
    Faulty,
}

/// Which downstream subsystem reported a fault.
#[derive(Debug, Clone, Copy, PartialEq, Eq, Structural)]
pub enum DownstreamType {
    TranslatorDownstream,
}

/// The coarse health record: three independent flags.
pub struct ProxyState {
    pub upstream: UpstreamState,
    pub downstream: DownstreamState,
    pub inconsistency: Option<u32>,
}

impl ProxyState {
    /// A freshly started proxy: everything healthy, no inconsistency.
    pub fn new() -> (r: Self)
        ensures
            r.upstream is Up,
            r.downstream is Healthy,
            r.inconsistency is None,
    {
        ProxyState { upstream: UpstreamState::Up, downstream: DownstreamState::Healthy, inconsistency: None }
    }

    /// Marks the upstream connection down; the other flags keep their value.
    pub fn update_upstream_state(&mut self, s: UpstreamState)
        ensures
            final(self).upstream == s,
            final(self).downstream == old(self).downstream,
            final(self).inconsistency == old(self).inconsistency,
    {
        self.upstream = s;
    }

    /// Marks a downstream subsystem faulty; the other flags keep their value.
    pub fn update_downstream_state(&mut self, _which: DownstreamType)
        ensures
            final(self).downstream is Faulty,
            final(self).upstream == old(self).upstream,
            final(self).inconsistency == old(self).inconsistency,
    {
        self.downstream = DownstreamState::Faulty;
    }

    /// Raises (or clears) the inconsistency code; the other flags keep their
    /// value. A set code is fatal: the supervisor exits on it.
    pub fn update_inconsistency(&mut self, code: Option<u32>)
        ensures
            final(self).inconsistency == code,
            final(self).upstream == old(self).upstream,
            final(self).downstream == old(self).downstream,
    {
        self.inconsistency = code;
    }

    /// Whether the supervisor must exit: a declared inconsistency.
    pub fn is_fatal(&self) -> (r: bool)
        ensures
            r == (self.inconsistency is Some),
    {
        self.inconsistency.is_some()
    }
}

} // verus!
