//! Process-wide packet counters. Handlers increment them as packets pass;
//! a reporting cycle samples all six and then clears the per-interval
//! traffic counters. The active-flow counter is live state: it is only
//! moved by flow creation and eviction, never by the reporting cycle.

use crate::utils::StatType;
use vstd::prelude::*;

verus! {

/// The six counters: IPv4 packets, IPv6 packets, TCP segments, UDP
/// datagrams, DNS messages, and active flow contexts.
#[derive(Debug)]
pub struct Stats {
    pub ipv4: usize,
    pub ipv6: usize,
    pub tcp: usize,
    pub udp: usize,
    pub dns: usize,
    pub ctx: usize,
}

/// The counter that [`Stats::get_stat`] reads back for each discriminant.
pub open spec fn spec_stat(s: Stats, stat: StatType) -> usize {
    match stat {
        StatType::IPV4 => s.ipv4,
        StatType::IPV6 => s.ipv6,
        StatType::TCP => s.tcp,
        StatType::UDP => s.udp,
        StatType::DNS => s.dns,
        StatType::CTX => s.ctx,
    }
}

/// The state after one reporting cycle's clear: the four per-interval
/// traffic counters return to zero; the DNS and active-flow counters keep
/// their values.
pub open spec fn spec_reset(s: Stats) -> Stats {
    Stats { ipv4: 0, ipv6: 0, tcp: 0, udp: 0, dns: s.dns, ctx: s.ctx }
}

/// `n` minus one, stopping at zero: the guarded decrement used for the
/// active-flow counter so racing eviction paths can never drive it negative.
pub open spec fn dec_saturating(n: usize) -> usize {
    if n > 0 {
        (n - 1) as usize
    } else {
        0
    }
}

impl Stats {
    /// A fresh aggregator with every counter at zero.
    pub fn new() -> (s: Stats)
        ensures
            s == (Stats { ipv4: 0, ipv6: 0, tcp: 0, udp: 0, dns: 0, ctx: 0 }),
    {
        Stats { ipv4: 0, ipv6: 0, tcp: 0, udp: 0, dns: 0, ctx: 0 }
    }

    /// Clears the per-interval traffic counters, leaving the DNS and
    /// active-flow counters untouched.
    pub fn reset(&mut self)
        ensures
            *final(self) == spec_reset(*old(self)),
    {
        self.ipv4 = 0;
        self.ipv6 = 0;
        self.tcp = 0;
        self.udp = 0;
    }

    /// Reads one counter.
    pub fn get_stat(&self, stat: StatType) -> (r: usize)
        ensures
            r == spec_stat(*self, stat),
    {
        match stat {
            StatType::TCP => self.tcp,
            StatType::UDP => self.udp,
            StatType::DNS => self.dns,
            StatType::IPV4 => self.ipv4,
            StatType::IPV6 => self.ipv6,
            StatType::CTX => self.ctx,
        }
    }

    /// Guarded decrement of the active-flow counter: skipped when the
    /// counter already reads zero.
    pub fn dec_ctx(&mut self)
        ensures
            *final(self) == (Stats { ctx: dec_saturating(old(self).ctx), ..*old(self) }),
    {
        if self.ctx > 0 {
            self.ctx = self.ctx - 1;
        }
    }
}

/// Stats cadence: immediately before a cycle's clear, every counter reads
/// back exactly what has been accumulated in it; after the clear, the four
/// per-interval traffic counters read back zero while the DNS and
/// active-flow counters are unchanged.
pub proof fn lemma_stats_cadence(s: Stats)
    ensures
        spec_stat(s, StatType::IPV4) == s.ipv4,
        spec_stat(s, StatType::IPV6) == s.ipv6,
        spec_stat(s, StatType::TCP) == s.tcp,
        spec_stat(s, StatType::UDP) == s.udp,
        spec_stat(s, StatType::DNS) == s.dns,
        spec_stat(s, StatType::CTX) == s.ctx,
        spec_stat(spec_reset(s), StatType::IPV4) == 0,
        spec_stat(spec_reset(s), StatType::IPV6) == 0,
        spec_stat(spec_reset(s), StatType::TCP) == 0,
        spec_stat(spec_reset(s), StatType::UDP) == 0,
        spec_stat(spec_reset(s), StatType::DNS) == s.dns,
        spec_stat(spec_reset(s), StatType::CTX) == s.ctx,
{
}

} // verus!
