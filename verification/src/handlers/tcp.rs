//! TCP flow lifecycle and application classification.
//!
//! Flows are tracked under a bidirectional key: the same unordered pair of
//! endpoints is one flow no matter which side's packet is observed. A flow
//! is created on SYN+ACK, updated by payload-carrying segments, and removed
//! on FIN+ACK, RST, or watchdog-detected inactivity.

use crate::handlers::dns;
use crate::handlers::dns::{
    app_of, chain_from, string_views, DnsStore,
};
use crate::stats::Stats;
use crate::utils::{ipv4_of_u32, AppType, DnsKey, DnsRecord, DnsRecordType, QueuePacket};
use vstd::prelude::*;

verus! {

/// Bidirectional flow key: an unordered pair of `(address, port)`
/// endpoints. Equality is symmetric: swapping source and destination
/// yields the same key.
#[derive(Debug, Clone, Copy)]
pub struct Quad {
    pub src: (u32, u16),
    pub dst: (u32, u16),
}

/// Symmetric key equality: the two endpoint pairs match either way around.
pub open spec fn quad_matches(a: Quad, b: Quad) -> bool {
    (a.src == b.src && a.dst == b.dst) || (a.src == b.dst && a.dst == b.src)
}

/// The canonical representative of a key's equivalence class: endpoints
/// ordered by address, then port.
pub open spec fn canon(q: Quad) -> Quad {
    if q.src.0 < q.dst.0 || (q.src.0 == q.dst.0 && q.src.1 <= q.dst.1) {
        q
    } else {
        Quad { src: q.dst, dst: q.src }
    }
}

/// Two keys match exactly when they share a canonical representative.
pub proof fn lemma_quad_matches_canon(a: Quad, b: Quad)
    ensures
        quad_matches(a, b) <==> canon(a) == canon(b),
{
}

impl PartialEq for Quad {
    fn eq(&self, other: &Self) -> bool {
        (self.src.0 == other.src.0 && self.src.1 == other.src.1 && self.dst.0 == other.dst.0
            && self.dst.1 == other.dst.1) || (self.src.0 == other.dst.0 && self.src.1
            == other.dst.1 && self.dst.0 == other.src.0 && self.dst.1 == other.src.1)
    }
}

impl vstd::std_specs::cmp::PartialEqSpecImpl for Quad {
    open spec fn obeys_eq_spec() -> bool {
        true
    }

    open spec fn eq_spec(&self, other: &Quad) -> bool {
        quad_matches(*self, *other)
    }
}

/// The hash value both directions of a flow share: the sum of all four
/// endpoint components, which is invariant under the endpoint swap.
pub open spec fn quad_hash(q: Quad) -> int {
    q.src.0 + q.src.1 + q.dst.0 + q.dst.1
}

impl Quad {
    /// The symmetric hash code of this key.
    pub fn hash_code(&self) -> (h: u64)
        ensures
            h == quad_hash(*self),
    {
        self.src.0 as u64 + self.src.1 as u64 + self.dst.0 as u64 + self.dst.1 as u64
    }
}

/// Flow-key symmetry: a key built from `(A, B)` equals the key built from
/// `(B, A)`, and the two hash identically.
pub proof fn lemma_quad_symmetry(a: (u32, u16), b: (u32, u16))
    ensures
        quad_matches(Quad { src: a, dst: b }, Quad { src: b, dst: a }),
        quad_hash(Quad { src: a, dst: b }) == quad_hash(Quad { src: b, dst: a }),
{
}

/// Mathematical value of a [`TcpContext`].
pub struct CtxView {
    pub src_ip: u32,
    pub dst_ip: u32,
    pub src_port: u16,
    pub dst_port: u16,
    pub len: nat,
    pub first_ts: u128,
    pub last_ts: u128,
    pub app_type: AppType,
    pub associated_dns: Seq<Seq<char>>,
}

/// A context never runs backward: the last-seen timestamp is at or after
/// the first-seen one.
pub open spec fn ctx_ok(c: CtxView) -> bool {
    c.first_ts <= c.last_ts
}

/// One live TCP flow: endpoints, segment count, first- and last-seen
/// timestamps (milliseconds since epoch), the classified application, and
/// the hostname chain recovered from the DNS correlation store at creation
/// time.
#[derive(Debug)]
pub struct TcpContext {
    pub src_ip: u32,
    pub dst_ip: u32,
    pub src_port: u16,
    pub dst_port: u16,
    pub len: usize,
    pub first_ts: u128,
    pub last_ts: u128,
    pub app_type: AppType,
    pub associated_dns: Vec<String>,
}

impl View for TcpContext {
    type V = CtxView;

    open spec fn view(&self) -> CtxView {
        CtxView {
            src_ip: self.src_ip,
            dst_ip: self.dst_ip,
            src_port: self.src_port,
            dst_port: self.dst_port,
            len: self.len as nat,
            first_ts: self.first_ts,
            last_ts: self.last_ts,
            app_type: self.app_type,
            associated_dns: string_views(self.associated_dns@),
        }
    }
}

/// The mapping described by an association list of flows, keyed by the
/// canonical form of each entry's quad.
pub open spec fn table_map(s: Seq<(Quad, TcpContext)>) -> Map<Quad, CtxView>
    decreases s.len(),
{
    if s.len() == 0 {
        Map::empty()
    } else {
        table_map(s.drop_last()).insert(canon(s.last().0), s.last().1@)
    }
}

/// No two entries track the same unordered endpoint pair.
pub open spec fn unique_quads(s: Seq<(Quad, TcpContext)>) -> bool {
    forall|i: int, j: int| 0 <= i < j < s.len() ==> canon(s[i].0) != canon(s[j].0)
}

proof fn lemma_table_map_contains(s: Seq<(Quad, TcpContext)>, k: Quad)
    ensures
        table_map(s).contains_key(k) <==> (exists|i: int| 0 <= i < s.len() && canon(s[i].0) == k),
    decreases s.len(),
{
    if s.len() > 0 {
        lemma_table_map_contains(s.drop_last(), k);
        assert(forall|i: int| 0 <= i < s.len() - 1 ==> s.drop_last()[i] == s[i]);
        if table_map(s).contains_key(k) {
            if k == canon(s.last().0) {
                assert(canon(s[s.len() - 1].0) == k);
            } else {
                let i = choose|i: int|
                    0 <= i < s.drop_last().len() && canon(s.drop_last()[i].0) == k;
                assert(canon(s[i].0) == k);
            }
        }
        if exists|i: int| 0 <= i < s.len() && canon(s[i].0) == k {
            let i = choose|i: int| 0 <= i < s.len() && canon(s[i].0) == k;
            if i < s.len() - 1 {
                assert(canon(s.drop_last()[i].0) == k);
            }
        }
    }
}

proof fn lemma_table_map_get(s: Seq<(Quad, TcpContext)>, k: Quad, i: int)
    requires
        unique_quads(s),
        0 <= i < s.len(),
        canon(s[i].0) == k,
    ensures
        table_map(s).contains_key(k),
        table_map(s)[k] == s[i].1@,
    decreases s.len(),
{
    if i == s.len() - 1 {
        assert(s.last() == s[i]);
    } else {
        assert(s.drop_last()[i] == s[i]);
        lemma_table_map_get(s.drop_last(), k, i);
        assert(canon(s.last().0) != k);
    }
}

proof fn lemma_table_map_absent(s: Seq<(Quad, TcpContext)>, k: Quad)
    requires
        forall|i: int| 0 <= i < s.len() ==> canon(s[i].0) != k,
    ensures
        !table_map(s).contains_key(k),
{
    lemma_table_map_contains(s, k);
}

proof fn lemma_table_map_remove(s: Seq<(Quad, TcpContext)>, k: Quad, i: int)
    requires
        unique_quads(s),
        0 <= i < s.len(),
        canon(s[i].0) == k,
    ensures
        table_map(s.remove(i)) == table_map(s).remove(k),
    decreases s.len(),
{
    let s2 = s.remove(i);
    if i == s.len() - 1 {
        assert(s2 =~= s.drop_last());
        assert(forall|j: int| 0 <= j < s.len() - 1 ==> s.drop_last()[j] == s[j]);
        lemma_table_map_absent(s.drop_last(), k);
        assert(table_map(s.drop_last()).insert(k, s.last().1@).remove(k) =~= table_map(
            s.drop_last(),
        ));
        assert(canon(s.last().0) == k);
    } else {
        assert(s2.len() == s.len() - 1);
        assert(s2.last() == s.last());
        assert(s2.drop_last() =~= s.drop_last().remove(i));
        assert(forall|j: int| 0 <= j < s.len() - 1 ==> s.drop_last()[j] == s[j]);
        lemma_table_map_remove(s.drop_last(), k, i);
        let tail = s.last();
        assert(canon(tail.0) != k);
        assert(table_map(s.drop_last()).remove(k).insert(canon(tail.0), tail.1@) =~= table_map(
            s.drop_last(),
        ).insert(canon(tail.0), tail.1@).remove(k));
    }
}

/// The bidirectional flow table: at most one live context per unordered
/// endpoint pair, each context keeping its timestamps ordered.
pub struct FlowTable {
    entries: Vec<(Quad, TcpContext)>,
}

impl View for FlowTable {
    type V = Map<Quad, CtxView>;

    closed spec fn view(&self) -> Map<Quad, CtxView> {
        table_map(self.entries@)
    }
}

impl FlowTable {
    /// The table's internal invariant: one context per unordered endpoint
    /// pair, every context with ordered timestamps.
    pub closed spec fn wf(&self) -> bool {
        &&& unique_quads(self.entries@)
        &&& forall|i: int|
            0 <= i < self.entries@.len() ==> ctx_ok(#[trigger] self.entries@[i].1@)
    }

    /// An empty table, as created at process start.
    pub fn new() -> (t: FlowTable)
        ensures
            t.wf(),
            t@ == Map::<Quad, CtxView>::empty(),
    {
        FlowTable { entries: Vec::new() }
    }

    /// Every context a well-formed table holds has its last-seen timestamp
    /// at or after its first-seen one.
    pub proof fn lemma_timestamps_ordered(&self)
        requires
            self.wf(),
        ensures
            forall|k: Quad| self@.contains_key(k) ==> ctx_ok(#[trigger] self@[k]),
    {
        assert forall|k: Quad| self@.contains_key(k) implies ctx_ok(self@[k]) by {
            lemma_table_map_contains(self.entries@, k);
            let i = choose|i: int|
                0 <= i < self.entries@.len() && canon(self.entries@[i].0) == k;
            lemma_table_map_get(self.entries@, k, i);
        }
    }

    /// Whether a context is tracked under this key (in either direction).
    pub fn contains_key(&self, quad: &Quad) -> (r: bool)
        requires
            self.wf(),
        ensures
            r == self@.contains_key(canon(*quad)),
    {
        let n = self.entries.len();
        let mut idx: usize = 0;
        while idx < n
            invariant
                n == self.entries.len(),
                idx <= n,
                self.wf(),
                forall|j: int| 0 <= j < idx ==> canon(self.entries@[j].0) != canon(*quad),
            decreases n - idx,
        {
            if self.entries[idx].0 == *quad {
                proof {
                    lemma_quad_matches_canon(self.entries@[idx as int].0, *quad);
                    lemma_table_map_get(self.entries@, canon(*quad), idx as int);
                }
                return true;
            }
            proof {
                lemma_quad_matches_canon(self.entries@[idx as int].0, *quad);
            }
            idx += 1;
        }
        proof {
            lemma_table_map_absent(self.entries@, canon(*quad));
        }
        false
    }

    /// The context tracked under this key, if any.
    pub fn get(&self, quad: &Quad) -> (r: Option<&TcpContext>)
        requires
            self.wf(),
        ensures
            match r {
                Some(ctx) => self@.contains_key(canon(*quad)) && ctx@ == self@[canon(*quad)],
                None => !self@.contains_key(canon(*quad)),
            },
    {
        let n = self.entries.len();
        let mut idx: usize = 0;
        while idx < n
            invariant
                n == self.entries.len(),
                idx <= n,
                self.wf(),
                forall|j: int| 0 <= j < idx ==> canon(self.entries@[j].0) != canon(*quad),
            decreases n - idx,
        {
            if self.entries[idx].0 == *quad {
                proof {
                    lemma_quad_matches_canon(self.entries@[idx as int].0, *quad);
                    lemma_table_map_get(self.entries@, canon(*quad), idx as int);
                }
                return Some(&self.entries[idx].1);
            }
            proof {
                lemma_quad_matches_canon(self.entries@[idx as int].0, *quad);
            }
            idx += 1;
        }
        proof {
            lemma_table_map_absent(self.entries@, canon(*quad));
        }
        None
    }

    /// Tracks a context under a key, replacing any context the key already
    /// had (in either direction).
    #[verifier::loop_isolation(false)]
    pub fn insert(&mut self, quad: Quad, ctx: TcpContext)
        requires
            old(self).wf(),
            ctx.first_ts <= ctx.last_ts,
        ensures
            final(self).wf(),
            final(self)@ == old(self)@.insert(canon(quad), ctx@),
    {
        let ghost s0 = self.entries@;
        let n = self.entries.len();
        let mut idx: usize = 0;
        while idx < n
            invariant
                n == self.entries.len(),
                idx <= n,
                self.entries@ == s0,
                forall|j: int| 0 <= j < idx ==> canon(s0[j].0) != canon(quad),
            decreases n - idx,
        {
            if self.entries[idx].0 == quad {
                proof {
                    lemma_quad_matches_canon(s0[idx as int].0, quad);
                    lemma_table_map_remove(s0, canon(quad), idx as int);
                    s0.remove_ensures(idx as int);
                }
                self.entries.remove(idx);
                self.entries.push((quad, ctx));
                proof {
                    let s1 = s0.remove(idx as int);
                    assert(self.entries@.drop_last() =~= s1);
                    assert(unique_quads(s1));
                    assert(forall|j: int|
                        0 <= j < s1.len() ==> canon((#[trigger] s1[j]).0) != canon(quad));
                    assert(unique_quads(self.entries@));
                    assert(table_map(self.entries@) =~= table_map(s0).insert(canon(quad), ctx@));
                }
                return ;
            }
            proof {
                lemma_quad_matches_canon(s0[idx as int].0, quad);
            }
            idx += 1;
        }
        proof {
            lemma_table_map_absent(s0, canon(quad));
        }
        self.entries.push((quad, ctx));
        proof {
            assert(self.entries@.drop_last() =~= s0);
            assert(unique_quads(self.entries@));
            assert(table_map(self.entries@) =~= table_map(s0).insert(canon(quad), ctx@));
        }
    }

    /// Drops the context tracked under a key; nothing happens when the key
    /// is not tracked.
    #[verifier::loop_isolation(false)]
    pub fn remove(&mut self, quad: &Quad)
        requires
            old(self).wf(),
        ensures
            final(self).wf(),
            final(self)@ == old(self)@.remove(canon(*quad)),
    {
        let ghost s0 = self.entries@;
        let n = self.entries.len();
        let mut idx: usize = 0;
        while idx < n
            invariant
                n == self.entries.len(),
                idx <= n,
                self.entries@ == s0,
                forall|j: int| 0 <= j < idx ==> canon(s0[j].0) != canon(*quad),
            decreases n - idx,
        {
            if self.entries[idx].0 == *quad {
                proof {
                    lemma_quad_matches_canon(s0[idx as int].0, *quad);
                    lemma_table_map_remove(s0, canon(*quad), idx as int);
                    s0.remove_ensures(idx as int);
                }
                self.entries.remove(idx);
                proof {
                    assert(unique_quads(self.entries@));
                }
                return ;
            }
            proof {
                lemma_quad_matches_canon(s0[idx as int].0, *quad);
            }
            idx += 1;
        }
        proof {
            lemma_table_map_absent(s0, canon(*quad));
            assert(table_map(s0).remove(canon(*quad)) =~= table_map(s0));
        }
    }

    /// Registers one payload-carrying segment on a tracked flow: the
    /// segment count moves up by one, the last-seen timestamp moves to
    /// `now_ms`, and a matching payload magic forces the WhatsApp label.
    /// Returns whether the key was tracked; an untracked key changes
    /// nothing.
    #[verifier::loop_isolation(false)]
    pub fn touch(&mut self, quad: &Quad, now_ms: u128, whatsapp: bool) -> (found: bool)
        requires
            old(self).wf(),
            ready(old(self)@, now_ms),
        ensures
            final(self).wf(),
            found == old(self)@.contains_key(canon(*quad)),
            final(self)@ == (if old(self)@.contains_key(canon(*quad)) {
                old(self)@.insert(
                    canon(*quad),
                    touched(old(self)@[canon(*quad)], now_ms, whatsapp),
                )
            } else {
                old(self)@
            }),
    {
        let ghost s0 = self.entries@;
        let n = self.entries.len();
        let mut idx: usize = 0;
        while idx < n
            invariant
                n == self.entries.len(),
                idx <= n,
                self.entries@ == s0,
                forall|j: int| 0 <= j < idx ==> canon(s0[j].0) != canon(*quad),
            decreases n - idx,
        {
            if self.entries[idx].0 == *quad {
                proof {
                    lemma_quad_matches_canon(s0[idx as int].0, *quad);
                    lemma_table_map_get(s0, canon(*quad), idx as int);
                    lemma_table_map_remove(s0, canon(*quad), idx as int);
                    s0.remove_ensures(idx as int);
                }
                let (key, mut ctx) = self.entries.remove(idx);
                ctx.len = ctx.len + 1;
                ctx.last_ts = now_ms;
                if whatsapp {
                    ctx.app_type = AppType::WHATSAPP;
                }
                self.entries.push((key, ctx));
                proof {
                    let s1 = s0.remove(idx as int);
                    assert(self.entries@.drop_last() =~= s1);
                    assert(unique_quads(s1));
                    assert(forall|j: int|
                        0 <= j < s1.len() ==> canon((#[trigger] s1[j]).0) != canon(*quad));
                    assert(unique_quads(self.entries@));
                    assert(table_map(self.entries@) =~= table_map(s0).insert(
                        canon(*quad),
                        touched(table_map(s0)[canon(*quad)], now_ms, whatsapp),
                    ));
                }
                return true;
            }
            proof {
                lemma_quad_matches_canon(s0[idx as int].0, *quad);
            }
            idx += 1;
        }
        proof {
            lemma_table_map_absent(s0, canon(*quad));
        }
        false
    }

    /// Whether one more segment can be registered at `now_ms`: no tracked
    /// context has exhausted its segment counter, and none carries a
    /// timestamp later than `now_ms`.
    pub fn ready_for(&self, now_ms: u128) -> (b: bool)
        requires
            self.wf(),
        ensures
            b == ready(self@, now_ms),
    {
        let n = self.entries.len();
        let mut idx: usize = 0;
        while idx < n
            invariant
                n == self.entries.len(),
                idx <= n,
                self.wf(),
                forall|j: int|
                    0 <= j < idx ==> (#[trigger] self.entries@[j].1@).len < usize::MAX
                        && self.entries@[j].1@.last_ts <= now_ms,
            decreases n - idx,
        {
            if self.entries[idx].1.len >= usize::MAX || self.entries[idx].1.last_ts > now_ms {
                proof {
                    lemma_quad_matches_canon(self.entries@[idx as int].0, self.entries@[idx as int].0);
                    lemma_table_map_get(
                        self.entries@,
                        canon(self.entries@[idx as int].0),
                        idx as int,
                    );
                }
                return false;
            }
            idx += 1;
        }
        proof {
            assert forall|k: Quad| self@.contains_key(k) implies (#[trigger] self@[k]).len
                < usize::MAX && self@[k].last_ts <= now_ms by {
                lemma_table_map_contains(self.entries@, k);
                let i = choose|i: int|
                    0 <= i < self.entries@.len() && canon(self.entries@[i].0) == k;
                lemma_table_map_get(self.entries@, k, i);
            }
        }
        true
    }
}

/// A table is ready for a step at `now_ms` when no tracked context has
/// exhausted its segment counter and none carries a timestamp later than
/// `now_ms` (the clock never runs behind what is already recorded).
pub open spec fn ready(m: Map<Quad, CtxView>, now_ms: u128) -> bool {
    forall|k: Quad|
        m.contains_key(k) ==> (#[trigger] m[k]).len < usize::MAX && m[k].last_ts <= now_ms
}

/// A context after one payload-carrying segment: count up by one,
/// last-seen at `now_ms`, and the WhatsApp label forced when the payload
/// magic matched.
pub open spec fn touched(c: CtxView, now_ms: u128, whatsapp: bool) -> CtxView {
    CtxView {
        len: c.len + 1,
        last_ts: now_ms,
        app_type: if whatsapp {
            AppType::WHATSAPP
        } else {
            c.app_type
        },
        ..c
    }
}

/// The first application matched by any hostname of the chain, in chain
/// order; `NONE` when no hostname matches or the chain is empty.
pub open spec fn chain_app(chain: Seq<Seq<char>>) -> AppType
    decreases chain.len(),
{
    if chain.len() == 0 {
        AppType::NONE
    } else {
        match app_of(chain[0]) {
            Some(app) => app,
            None => chain_app(chain.subrange(1, chain.len() as int)),
        }
    }
}

/// Classifies a resolved hostname chain against the static application
/// table, first match winning.
pub fn classify_chain(chain: &Vec<String>) -> (r: AppType)
    ensures
        r == chain_app(string_views(chain@)),
{
    let ghost full = string_views(chain@);
    let n = chain.len();
    proof {
        assert(full.subrange(0, n as int) =~= full);
    }
    let mut idx: usize = 0;
    while idx < n
        invariant
            n == chain@.len(),
            idx <= n,
            full == string_views(chain@),
            chain_app(full) == chain_app(full.subrange(idx as int, n as int)),
        decreases n - idx,
    {
        let r = dns::dns_to_app(chain[idx].as_str());
        match r {
            Some(app) => {
                proof {
                    assert(full.subrange(idx as int, n as int)[0] == chain@[idx as int]@);
                }
                return app;
            },
            None => {
                proof {
                    assert(full.subrange(idx as int, n as int)[0] == chain@[idx as int]@);
                    assert(full.subrange(idx as int, n as int).subrange(
                        1,
                        (n - idx) as int,
                    ) =~= full.subrange(idx + 1, n as int));
                }
                idx += 1;
            },
        }
    }
    proof {
        assert(full.subrange(n as int, n as int) =~= Seq::<Seq<char>>::empty());
    }
    AppType::NONE
}

/// Classification precedence: a chain that contains the known WhatsApp
/// hostname classifies as WhatsApp (the table knows exactly one
/// application, so the first match cannot be anything else).
pub proof fn lemma_chain_with_whatsapp(chain: Seq<Seq<char>>)
    requires
        exists|i: int| 0 <= i < chain.len() && app_of(#[trigger] chain[i]) is Some,
    ensures
        chain_app(chain) == AppType::WHATSAPP,
    decreases chain.len(),
{
    let i = choose|i: int| 0 <= i < chain.len() && app_of(#[trigger] chain[i]) is Some;
    if app_of(chain[0]) is Some {
    } else {
        let rest = chain.subrange(1, chain.len() as int);
        assert(rest[i - 1] == chain[i]);
        lemma_chain_with_whatsapp(rest);
    }
}

/// Whether a payload starts with the 4-byte magic that identifies
/// WhatsApp traffic.
pub open spec fn whatsapp_magic(payload: Seq<u8>) -> bool {
    payload.len() > 3 && payload[0] == 69 && payload[1] == 68 && payload[2] == 0 && payload[3] == 1
}

/// Checks a segment payload for the WhatsApp magic bytes.
pub fn payload_has_magic(payload: &[u8]) -> (r: bool)
    ensures
        r == whatsapp_magic(payload@),
{
    payload.len() > 3 && payload[0] == 69 && payload[1] == 68 && payload[2] == 0 && payload[3]
        == 1
}

/// The header fields of a decoded TCP segment this pipeline reads: ports
/// and the four connection-control flags.
#[derive(Debug, Clone, Copy, PartialEq, Eq, Structural)]
pub struct TcpHeaderInfo {
    pub source_port: u16,
    pub destination_port: u16,
    pub syn: bool,
    pub ack: bool,
    pub fin: bool,
    pub rst: bool,
}

/// What parsing a TCP segment yields: refused when the bytes are shorter
/// than the 20-byte minimum header, the data-offset field (the high
/// nibble of byte 12) is below 5, or the bytes are shorter than the
/// header length that field gives. Otherwise the ports read big-endian
/// from the first four bytes, the connection-control flags of byte 13,
/// and the payload after the header.
pub open spec fn tcp_decode(bytes: Seq<u8>) -> Option<(TcpHeaderInfo, Seq<u8>)> {
    if bytes.len() < 20 {
        None
    } else {
        let offset = (bytes[12] >> 4) as int;
        if offset < 5 || bytes.len() < 4 * offset {
            None
        } else {
            Some(
                (
                    TcpHeaderInfo {
                        source_port: crate::utils::be16(bytes[0], bytes[1]),
                        destination_port: crate::utils::be16(bytes[2], bytes[3]),
                        syn: bytes[13] & 0x02 != 0,
                        ack: bytes[13] & 0x10 != 0,
                        fin: bytes[13] & 0x01 != 0,
                        rst: bytes[13] & 0x04 != 0,
                    },
                    bytes.skip(4 * offset),
                ),
            )
        }
    }
}

/// Relies on etherparse::TcpHeader::from_slice: the slice is refused
/// exactly when shorter than 20 bytes, when its data-offset nibble is
/// below 5, or when shorter than the header length that nibble gives;
/// otherwise the ports, the flags of byte 13, and everything after the
/// header are returned.
#[verifier::external_body]
fn decode_tcp(payload: &[u8]) -> (r: Option<(TcpHeaderInfo, Vec<u8>)>)
    ensures
        match r {
            Some(seg) => tcp_decode(payload@) == Some((seg.0, seg.1@)),
            None => tcp_decode(payload@) is None,
        },
{
    match etherparse::TcpHeader::from_slice(payload) {
        Err(_) => None,
        Ok((h, rest)) => Some((TcpHeaderInfo {
            source_port: h.source_port,
            destination_port: h.destination_port,
            syn: h.syn,
            ack: h.ack,
            fin: h.fin,
            rst: h.rst,
        }, rest.to_vec())),
    }
}

/// Which branch of the flow state machine one segment took.
#[derive(Debug, Clone, Copy, PartialEq, Eq, Structural)]
pub enum TcpEvent {
    /// SYN+ACK for an untracked key: a context was created. The caller is
    /// expected to start this flow's watchdog.
    Created,
    /// SYN+ACK for a tracked key: a retransmission, ignored.
    DuplicateSyn,
    /// FIN+ACK or RST: the context, if any, was dropped.
    Closed,
    /// A data segment for an untracked key: dropped.
    NotTracked,
    /// A data segment of at most 3 payload bytes on a tracked flow:
    /// dropped without touching the context.
    ShortPayload,
    /// A data segment on a tracked flow: the context was updated.
    Updated,
    /// The bytes did not decode as a TCP segment: dropped, nothing
    /// counted.
    DecodeFailed,
}

/// The flow key a packet's addresses and ports identify.
pub open spec fn packet_quad(src_ip: u32, dst_ip: u32, header: TcpHeaderInfo) -> Quad {
    Quad { src: (src_ip, header.source_port), dst: (dst_ip, header.destination_port) }
}

/// The DNS seed key used at flow creation: the packet's source address as
/// an A-record key.
pub open spec fn creation_seed(src_ip: u32) -> DnsKey {
    DnsKey { dtype: DnsRecordType::A, data: ipv4_of_u32(src_ip) }
}

/// The context created for a fresh flow at `now_ms`: one counted segment,
/// both timestamps at `now_ms`, and the classification of the chain
/// resolved from the packet's source address.
pub open spec fn fresh_ctx(
    dns: Map<DnsKey, Seq<char>>,
    src_ip: u32,
    dst_ip: u32,
    header: TcpHeaderInfo,
    now_ms: u128,
) -> CtxView {
    let chain = chain_from(dns, creation_seed(src_ip), dns.dom().len() + 1);
    CtxView {
        src_ip: src_ip,
        dst_ip: dst_ip,
        src_port: header.source_port,
        dst_port: header.destination_port,
        len: 1,
        first_ts: now_ms,
        last_ts: now_ms,
        app_type: chain_app(chain),
        associated_dns: chain,
    }
}

/// The outcome of one segment: the table afterward, whether a context was
/// created (the one case that moves the active-flow counter up), and the
/// branch taken.
pub struct SegmentOutcome {
    pub table: Map<Quad, CtxView>,
    pub created: bool,
    pub event: TcpEvent,
}

/// The flow state machine, one decoded segment at a time.
///
/// SYN+ACK creates a context for an untracked key and ignores a tracked
/// one; FIN+ACK or RST drops the context immediately; any other segment
/// is dropped when the key is untracked or the payload holds at most 3
/// bytes, and otherwise updates the tracked context.
pub open spec fn segment_step(
    m: Map<Quad, CtxView>,
    dns: Map<DnsKey, Seq<char>>,
    src_ip: u32,
    dst_ip: u32,
    header: TcpHeaderInfo,
    payload: Seq<u8>,
    now_ms: u128,
) -> SegmentOutcome {
    let key = canon(packet_quad(src_ip, dst_ip, header));
    if header.syn && header.ack {
        if m.contains_key(key) {
            SegmentOutcome { table: m, created: false, event: TcpEvent::DuplicateSyn }
        } else {
            SegmentOutcome {
                table: m.insert(key, fresh_ctx(dns, src_ip, dst_ip, header, now_ms)),
                created: true,
                event: TcpEvent::Created,
            }
        }
    } else if (header.fin && header.ack) || header.rst {
        SegmentOutcome { table: m.remove(key), created: false, event: TcpEvent::Closed }
    } else if !m.contains_key(key) {
        SegmentOutcome { table: m, created: false, event: TcpEvent::NotTracked }
    } else if payload.len() <= 3 {
        SegmentOutcome { table: m, created: false, event: TcpEvent::ShortPayload }
    } else {
        SegmentOutcome {
            table: m.insert(key, touched(m[key], now_ms, whatsapp_magic(payload))),
            created: false,
            event: TcpEvent::Updated,
        }
    }
}

/// Advances the flow state machine by one decoded segment and counts it.
pub fn process_segment(
    connections: &mut FlowTable,
    dns_records: &DnsStore,
    stats: &mut Stats,
    src_ip: u32,
    dst_ip: u32,
    header: TcpHeaderInfo,
    payload: &Vec<u8>,
    now_ms: u128,
) -> (event: TcpEvent)
    requires
        old(connections).wf(),
        dns_records.wf(),
        ready(old(connections)@, now_ms),
        old(stats).tcp < usize::MAX,
        old(stats).ctx < usize::MAX,
    ensures
        final(connections).wf(),
        ({
            let o = segment_step(
                old(connections)@,
                dns_records@,
                src_ip,
                dst_ip,
                header,
                payload@,
                now_ms,
            );
            final(connections)@ == o.table && event == o.event && *final(stats) == (Stats {
                tcp: (old(stats).tcp + 1) as usize,
                ctx: if o.created {
                    (old(stats).ctx + 1) as usize
                } else {
                    old(stats).ctx
                },
                ..*old(stats)
            })
        }),
{
    let quad = Quad {
        src: (src_ip, header.source_port),
        dst: (dst_ip, header.destination_port),
    };
    let event: TcpEvent;
    if header.syn && header.ack {
        if connections.contains_key(&quad) {
            event = TcpEvent::DuplicateSyn;
        } else {
            let addr = crate::utils::ipv4_addr_string(src_ip);
            let seed = DnsRecord { dtype: DnsRecordType::A, data: addr };
            let results = dns::parse_dns_record(seed, dns_records);
            let app = classify_chain(&results);
            let ctx = TcpContext {
                src_ip: src_ip,
                dst_ip: dst_ip,
                src_port: header.source_port,
                dst_port: header.destination_port,
                len: 1,
                first_ts: now_ms,
                last_ts: now_ms,
                app_type: app,
                associated_dns: results,
            };
            connections.insert(quad, ctx);
            stats.ctx = stats.ctx + 1;
            event = TcpEvent::Created;
        }
    } else if (header.fin && header.ack) || header.rst {
        connections.remove(&quad);
        event = TcpEvent::Closed;
    } else if payload.len() <= 3 {
        if connections.contains_key(&quad) {
            event = TcpEvent::ShortPayload;
        } else {
            event = TcpEvent::NotTracked;
        }
    } else {
        let whatsapp = payload_has_magic(payload.as_slice());
        let found = connections.touch(&quad, now_ms, whatsapp);
        if found {
            event = TcpEvent::Updated;
        } else {
            event = TcpEvent::NotTracked;
        }
    }
    stats.tcp = stats.tcp + 1;
    event
}

/// Everything one raw TCP packet does: `DecodeFailed` with nothing
/// changed when the bytes do not decode, otherwise the state machine's
/// outcome with the TCP counter moved up by one.
pub open spec fn tcp_handle_post(
    m0: Map<Quad, CtxView>,
    m1: Map<Quad, CtxView>,
    s0: Stats,
    s1: Stats,
    dns: Map<DnsKey, Seq<char>>,
    src_ip: u32,
    dst_ip: u32,
    bytes: Seq<u8>,
    now_ms: u128,
    event: TcpEvent,
) -> bool {
    match tcp_decode(bytes) {
        Some(seg) => {
            let o = segment_step(m0, dns, src_ip, dst_ip, seg.0, seg.1, now_ms);
            m1 == o.table && event == o.event && s1 == (Stats {
                tcp: (s0.tcp + 1) as usize,
                ctx: if o.created {
                    (s0.ctx + 1) as usize
                } else {
                    s0.ctx
                },
                ..s0
            })
        },
        None => m1 == m0 && s1 == s0 && event == TcpEvent::DecodeFailed,
    }
}

/// Handles one TCP packet: decodes the segment and advances the flow
/// state machine. Bytes that do not decode are dropped with nothing
/// changed and no segment counted; every decoded segment moves the TCP
/// counter up by exactly one, whichever branch it takes.
pub fn handle(
    connections: &mut FlowTable,
    packet: &QueuePacket,
    dns_records: &DnsStore,
    stats: &mut Stats,
    now_ms: u128,
) -> (event: TcpEvent)
    requires
        old(connections).wf(),
        dns_records.wf(),
        ready(old(connections)@, now_ms),
        old(stats).tcp < usize::MAX,
        old(stats).ctx < usize::MAX,
    ensures
        final(connections).wf(),
        tcp_handle_post(
            old(connections)@,
            final(connections)@,
            *old(stats),
            *final(stats),
            dns_records@,
            packet.source,
            packet.destination,
            packet.payload@,
            now_ms,
            event,
        ),
{
    match decode_tcp(packet.payload.as_slice()) {
        None => TcpEvent::DecodeFailed,
        Some((header, tcp_payload)) => {
            process_segment(
                connections,
                dns_records,
                stats,
                packet.source,
                packet.destination,
                header,
                &tcp_payload,
                now_ms,
            )
        },
    }
}

/// Lifecycle, creation: a SYN+ACK for an untracked key creates exactly one
/// fresh context — one counted segment, both timestamps at now, the
/// classification of the chain seeded from the source address — and is the
/// only outcome that asks for the active-flow counter to move up, by one.
pub proof fn lemma_syn_ack_creates(
    m: Map<Quad, CtxView>,
    dns: Map<DnsKey, Seq<char>>,
    src_ip: u32,
    dst_ip: u32,
    header: TcpHeaderInfo,
    payload: Seq<u8>,
    now_ms: u128,
)
    requires
        header.syn && header.ack,
        !m.contains_key(canon(packet_quad(src_ip, dst_ip, header))),
    ensures
        ({
            let o = segment_step(m, dns, src_ip, dst_ip, header, payload, now_ms);
            o.table == m.insert(
                canon(packet_quad(src_ip, dst_ip, header)),
                fresh_ctx(dns, src_ip, dst_ip, header, now_ms),
            ) && o.created && o.event == TcpEvent::Created
        }),
{
}

/// Lifecycle, retransmission: a SYN+ACK for a key already tracked changes
/// nothing and creates nothing.
pub proof fn lemma_duplicate_syn_ack(
    m: Map<Quad, CtxView>,
    dns: Map<DnsKey, Seq<char>>,
    src_ip: u32,
    dst_ip: u32,
    header: TcpHeaderInfo,
    payload: Seq<u8>,
    now_ms: u128,
)
    requires
        header.syn && header.ack,
        m.contains_key(canon(packet_quad(src_ip, dst_ip, header))),
    ensures
        ({
            let o = segment_step(m, dns, src_ip, dst_ip, header, payload, now_ms);
            o.table == m && !o.created && o.event == TcpEvent::DuplicateSyn
        }),
{
}

/// Lifecycle, close: FIN+ACK or RST removes the key's context at once. The
/// active-flow counter is not touched here: its decrement belongs to the
/// flow's watchdog, which notices the absence on its next wake.
pub proof fn lemma_close_removes(
    m: Map<Quad, CtxView>,
    dns: Map<DnsKey, Seq<char>>,
    src_ip: u32,
    dst_ip: u32,
    header: TcpHeaderInfo,
    payload: Seq<u8>,
    now_ms: u128,
)
    requires
        !(header.syn && header.ack),
        (header.fin && header.ack) || header.rst,
    ensures
        ({
            let o = segment_step(m, dns, src_ip, dst_ip, header, payload, now_ms);
            o.table == m.remove(canon(packet_quad(src_ip, dst_ip, header))) && !o.created
                && o.event == TcpEvent::Closed
        }),
{
}

/// Segment counting, short payloads: a data segment of at most 3 payload
/// bytes on a tracked flow leaves the table — in particular the flow's
/// segment count and last-seen timestamp — exactly as it was.
pub proof fn lemma_short_payload_untouched(
    m: Map<Quad, CtxView>,
    dns: Map<DnsKey, Seq<char>>,
    src_ip: u32,
    dst_ip: u32,
    header: TcpHeaderInfo,
    payload: Seq<u8>,
    now_ms: u128,
)
    requires
        !(header.syn && header.ack),
        !((header.fin && header.ack) || header.rst),
        m.contains_key(canon(packet_quad(src_ip, dst_ip, header))),
        payload.len() <= 3,
    ensures
        ({
            let o = segment_step(m, dns, src_ip, dst_ip, header, payload, now_ms);
            o.table == m && !o.created && o.event == TcpEvent::ShortPayload
        }),
{
}

/// Sticky classification: whatever branch a segment takes, a flow already
/// classified to a known application is never reverted to `NONE`.
pub proof fn lemma_classification_sticky(
    m: Map<Quad, CtxView>,
    dns: Map<DnsKey, Seq<char>>,
    src_ip: u32,
    dst_ip: u32,
    header: TcpHeaderInfo,
    payload: Seq<u8>,
    now_ms: u128,
    k: Quad,
)
    requires
        m.contains_key(k),
        m[k].app_type != AppType::NONE,
        segment_step(m, dns, src_ip, dst_ip, header, payload, now_ms).table.contains_key(k),
    ensures
        segment_step(m, dns, src_ip, dst_ip, header, payload, now_ms).table[k].app_type
            != AppType::NONE,
{
}

/// Classification precedence, payload override: a matching payload magic
/// on a tracked flow sets WhatsApp regardless of any prior DNS-based
/// classification — also on a flow that had no DNS match at all.
pub proof fn lemma_magic_forces_whatsapp(
    m: Map<Quad, CtxView>,
    dns: Map<DnsKey, Seq<char>>,
    src_ip: u32,
    dst_ip: u32,
    header: TcpHeaderInfo,
    payload: Seq<u8>,
    now_ms: u128,
)
    requires
        !(header.syn && header.ack),
        !((header.fin && header.ack) || header.rst),
        m.contains_key(canon(packet_quad(src_ip, dst_ip, header))),
        whatsapp_magic(payload),
    ensures
        ({
            let o = segment_step(m, dns, src_ip, dst_ip, header, payload, now_ms);
            o.table[canon(packet_quad(src_ip, dst_ip, header))].app_type == AppType::WHATSAPP
        }),
{
}

/// Classification precedence, creation: a flow whose resolved chain holds
/// the known WhatsApp hostname is classified WhatsApp the moment it is
/// created.
pub proof fn lemma_creation_classifies_whatsapp(
    m: Map<Quad, CtxView>,
    dns: Map<DnsKey, Seq<char>>,
    src_ip: u32,
    dst_ip: u32,
    header: TcpHeaderInfo,
    payload: Seq<u8>,
    now_ms: u128,
)
    requires
        header.syn && header.ack,
        !m.contains_key(canon(packet_quad(src_ip, dst_ip, header))),
        ({
            let chain = chain_from(dns, creation_seed(src_ip), dns.dom().len() + 1);
            exists|i: int| 0 <= i < chain.len() && app_of(#[trigger] chain[i]) is Some
        }),
    ensures
        ({
            let o = segment_step(m, dns, src_ip, dst_ip, header, payload, now_ms);
            o.table[canon(packet_quad(src_ip, dst_ip, header))].app_type == AppType::WHATSAPP
        }),
{
    lemma_chain_with_whatsapp(chain_from(dns, creation_seed(src_ip), dns.dom().len() + 1));
}

/// What a watchdog decided on one wake.
#[derive(Debug, Clone, Copy, PartialEq, Eq, Structural)]
pub enum WatchdogVerdict {
    /// The flow is gone (evicted here on timeout, or already removed by
    /// FIN/RST): the active-flow counter was decremented once, guarded at
    /// zero, and this watchdog is done.
    Terminated,
    /// The flow is alive and within its inactivity allowance: check again
    /// on the next wake.
    KeepWatching,
}

/// A flow with no traffic for this many milliseconds is evicted by its
/// watchdog.
pub const INACTIVITY_TIMEOUT_MS: u128 = 120000;

/// One wake of a flow's watchdog. If the key is gone (removed by FIN/RST),
/// the active-flow counter is decremented once and the watchdog ends; if
/// the flow has been inactive for [`INACTIVITY_TIMEOUT_MS`] or longer, it
/// is removed with the same single decrement; otherwise nothing changes.
/// The decrement is guarded: a counter already at zero stays at zero.
pub fn watchdog_tick(
    connections: &mut FlowTable,
    stats: &mut Stats,
    quad: &Quad,
    now_ms: u128,
) -> (verdict: WatchdogVerdict)
    requires
        old(connections).wf(),
        ready(old(connections)@, now_ms),
    ensures
        final(connections).wf(),
        ({
            let k = canon(*quad);
            let m = old(connections)@;
            if !m.contains_key(k) {
                final(connections)@ == m && *final(stats) == (Stats {
                    ctx: crate::stats::dec_saturating(old(stats).ctx),
                    ..*old(stats)
                }) && verdict == WatchdogVerdict::Terminated
            } else if now_ms - m[k].last_ts >= INACTIVITY_TIMEOUT_MS {
                final(connections)@ == m.remove(k) && *final(stats) == (Stats {
                    ctx: crate::stats::dec_saturating(old(stats).ctx),
                    ..*old(stats)
                }) && verdict == WatchdogVerdict::Terminated
            } else {
                final(connections)@ == m && *final(stats) == *old(stats) && verdict
                    == WatchdogVerdict::KeepWatching
            }
        }),
{
    let expired: bool;
    match connections.get(quad) {
        None => {
            stats.dec_ctx();
            return WatchdogVerdict::Terminated;
        },
        Some(ctx) => {
            expired = now_ms - ctx.last_ts >= INACTIVITY_TIMEOUT_MS;
        },
    }
    if expired {
        connections.remove(quad);
        stats.dec_ctx();
        WatchdogVerdict::Terminated
    } else {
        WatchdogVerdict::KeepWatching
    }
}

} // verus!
