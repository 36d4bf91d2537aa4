//! The DNS correlation store and chain resolution.
//!
//! Every observed DNS answer is recorded as `(kind, value) -> owner name`,
//! so that a later flow can be walked backward from an address to the
//! sequence of hostnames that produced it.

use crate::stats::Stats;
use crate::utils::{AppType, DnsKey, DnsRecord, DnsRecordType};
use vstd::prelude::*;

verus! {

/// The mapping described by an association list of records and owner names.
/// Later entries win, matching last-write-wins insertion.
pub open spec fn store_map(s: Seq<(DnsRecord, String)>) -> Map<DnsKey, Seq<char>>
    decreases s.len(),
{
    if s.len() == 0 {
        Map::empty()
    } else {
        store_map(s.drop_last()).insert(s.last().0@, s.last().1@)
    }
}

/// No two entries carry the same record key.
pub open spec fn unique_keys(s: Seq<(DnsRecord, String)>) -> bool {
    forall|i: int, j: int| 0 <= i < j < s.len() ==> s[i].0@ != s[j].0@
}

proof fn lemma_store_map_contains(s: Seq<(DnsRecord, String)>, k: DnsKey)
    ensures
        store_map(s).contains_key(k) <==> (exists|i: int| 0 <= i < s.len() && s[i].0@ == k),
    decreases s.len(),
{
    if s.len() > 0 {
        lemma_store_map_contains(s.drop_last(), k);
        assert(forall|i: int| 0 <= i < s.len() - 1 ==> s.drop_last()[i] == s[i]);
        if store_map(s).contains_key(k) {
            if k == s.last().0@ {
                assert(s[s.len() - 1].0@ == k);
            } else {
                let i = choose|i: int| 0 <= i < s.drop_last().len() && s.drop_last()[i].0@ == k;
                assert(s[i].0@ == k);
            }
        }
        if exists|i: int| 0 <= i < s.len() && s[i].0@ == k {
            let i = choose|i: int| 0 <= i < s.len() && s[i].0@ == k;
            if i < s.len() - 1 {
                assert(s.drop_last()[i].0@ == k);
            }
        }
    }
}

proof fn lemma_store_map_get(s: Seq<(DnsRecord, String)>, k: DnsKey, i: int)
    requires
        unique_keys(s),
        0 <= i < s.len(),
        s[i].0@ == k,
    ensures
        store_map(s).contains_key(k),
        store_map(s)[k] == s[i].1@,
    decreases s.len(),
{
    if i == s.len() - 1 {
        assert(s.last() == s[i]);
    } else {
        assert(s.drop_last()[i] == s[i]);
        lemma_store_map_get(s.drop_last(), k, i);
        assert(s.last().0@ != k);
    }
}

proof fn lemma_store_map_absent(s: Seq<(DnsRecord, String)>, k: DnsKey)
    requires
        forall|i: int| 0 <= i < s.len() ==> s[i].0@ != k,
    ensures
        !store_map(s).contains_key(k),
{
    lemma_store_map_contains(s, k);
}

proof fn lemma_store_map_remove(s: Seq<(DnsRecord, String)>, k: DnsKey, i: int)
    requires
        unique_keys(s),
        0 <= i < s.len(),
        s[i].0@ == k,
    ensures
        store_map(s.remove(i)) == store_map(s).remove(k),
    decreases s.len(),
{
    let s2 = s.remove(i);
    if i == s.len() - 1 {
        assert(s2 =~= s.drop_last());
        assert(forall|j: int| 0 <= j < s.len() - 1 ==> s.drop_last()[j] == s[j]);
        lemma_store_map_absent(s.drop_last(), k);
        assert(store_map(s.drop_last()).insert(k, s.last().1@).remove(k) =~= store_map(
            s.drop_last(),
        ));
        assert(s.last().0@ == k);
    } else {
        assert(s2.len() == s.len() - 1);
        assert(s2.last() == s.last());
        assert(s2.drop_last() =~= s.drop_last().remove(i));
        assert(forall|j: int| 0 <= j < s.len() - 1 ==> s.drop_last()[j] == s[j]);
        lemma_store_map_remove(s.drop_last(), k, i);
        let tail = s.last();
        assert(tail.0@ != k);
        assert(store_map(s.drop_last()).remove(k).insert(tail.0@, tail.1@) =~= store_map(
            s.drop_last(),
        ).insert(tail.0@, tail.1@).remove(k));
    }
}

proof fn lemma_store_map_dom_len(s: Seq<(DnsRecord, String)>)
    requires
        unique_keys(s),
    ensures
        store_map(s).dom().finite(),
        store_map(s).dom().len() == s.len(),
    decreases s.len(),
{
    if s.len() > 0 {
        assert(forall|j: int| 0 <= j < s.len() - 1 ==> s.drop_last()[j] == s[j]);
        lemma_store_map_dom_len(s.drop_last());
        lemma_store_map_absent(s.drop_last(), s.last().0@);
    }
}

/// The DNS correlation store: a mapping from record key to the owner name
/// that produced it. Grows for the process lifetime; insertion overwrites
/// any prior owner for the same key.
pub struct DnsStore {
    entries: Vec<(DnsRecord, String)>,
}

impl View for DnsStore {
    type V = Map<DnsKey, Seq<char>>;

    closed spec fn view(&self) -> Map<DnsKey, Seq<char>> {
        store_map(self.entries@)
    }
}

impl DnsStore {
    /// The store's internal invariant: one entry per record key.
    pub closed spec fn wf(&self) -> bool {
        unique_keys(self.entries@)
    }

    /// An empty store, as created at process start.
    pub fn new() -> (s: DnsStore)
        ensures
            s.wf(),
            s@ == Map::<DnsKey, Seq<char>>::empty(),
    {
        DnsStore { entries: Vec::new() }
    }

    /// The number of distinct record keys held.
    pub fn len(&self) -> (n: usize)
        requires
            self.wf(),
        ensures
            n == self@.dom().len(),
    {
        proof {
            lemma_store_map_dom_len(self.entries@);
        }
        self.entries.len()
    }

    /// The store's mapping is always a finite one.
    pub proof fn lemma_dom_finite(&self)
        requires
            self.wf(),
        ensures
            self@.dom().finite(),
    {
        lemma_store_map_dom_len(self.entries@);
    }

    /// Looks an observed record up, returning the owner name under which it
    /// was answered, if any.
    pub fn get(&self, rec: &DnsRecord) -> (r: Option<&String>)
        requires
            self.wf(),
        ensures
            match r {
                Some(owner) => self@.contains_key(rec@) && owner@ == self@[rec@],
                None => !self@.contains_key(rec@),
            },
    {
        let n = self.entries.len();
        let mut idx: usize = 0;
        while idx < n
            invariant
                n == self.entries.len(),
                idx <= n,
                self.wf(),
                forall|j: int| 0 <= j < idx ==> self.entries@[j].0@ != rec@,
            decreases n - idx,
        {
            if self.entries[idx].0 == *rec {
                proof {
                    lemma_store_map_get(self.entries@, rec@, idx as int);
                }
                return Some(&self.entries[idx].1);
            }
            idx += 1;
        }
        proof {
            lemma_store_map_absent(self.entries@, rec@);
        }
        None
    }

    /// Records one answer: the query that produced value `rec.data` of kind
    /// `rec.dtype` was issued for `owner`. Overwrites any prior owner for
    /// the same key (last-write-wins).
    #[verifier::loop_isolation(false)]
    pub fn record_answer(&mut self, rec: DnsRecord, owner: String)
        requires
            old(self).wf(),
        ensures
            final(self).wf(),
            final(self)@ == old(self)@.insert(rec@, owner@),
    {
        let ghost s0 = self.entries@;
        let n = self.entries.len();
        let mut idx: usize = 0;
        while idx < n
            invariant
                n == self.entries.len(),
                idx <= n,
                self.entries@ == s0,
                unique_keys(s0),
                forall|j: int| 0 <= j < idx ==> s0[j].0@ != rec@,
            decreases n - idx,
        {
            if self.entries[idx].0 == rec {
                proof {
                    lemma_store_map_remove(s0, rec@, idx as int);
                    s0.remove_ensures(idx as int);
                }
                self.entries.remove(idx);
                self.entries.push((rec, owner));
                proof {
                    let s1 = s0.remove(idx as int);
                    assert(self.entries@.drop_last() =~= s1);
                    assert(unique_keys(s1));
                    assert(forall|j: int| 0 <= j < s1.len() ==> (#[trigger] s1[j]).0@ != rec@);
                    assert(unique_keys(self.entries@));
                    assert(store_map(self.entries@) =~= store_map(s0).insert(rec@, owner@));
                }
                return ;
            }
            idx += 1;
        }
        proof {
            lemma_store_map_absent(s0, rec@);
        }
        self.entries.push((rec, owner));
        proof {
            assert(self.entries@.drop_last() =~= s0);
            assert(unique_keys(self.entries@));
            assert(store_map(self.entries@) =~= store_map(s0).insert(rec@, owner@));
        }
    }
}

/// The key the walk tries after discovering `owner`: the owner name treated
/// as a potential CNAME target, continuing upward through the chain of
/// names that pointed at it.
pub open spec fn cname_key(owner: Seq<char>) -> DnsKey {
    DnsKey { dtype: DnsRecordType::CNAME, data: owner }
}

/// The owner names produced by walking `m` from `key`: while the current
/// key is present its owner is appended and the walk continues at that
/// owner's CNAME key; the walk stops at the first miss. `fuel` bounds the
/// number of lookups, so a cyclic mapping yields a truncated chain instead
/// of an endless one.
pub open spec fn chain_from(m: Map<DnsKey, Seq<char>>, key: DnsKey, fuel: nat) -> Seq<Seq<char>>
    decreases fuel,
{
    if fuel == 0 {
        Seq::empty()
    } else if m.contains_key(key) {
        seq![m[key]] + chain_from(m, cname_key(m[key]), (fuel - 1) as nat)
    } else {
        Seq::empty()
    }
}

/// The keys the walk of [`chain_from`] finds present, in visiting order.
pub open spec fn walk_keys(m: Map<DnsKey, Seq<char>>, key: DnsKey, fuel: nat) -> Seq<DnsKey>
    decreases fuel,
{
    if fuel == 0 {
        Seq::empty()
    } else if m.contains_key(key) {
        seq![key] + walk_keys(m, cname_key(m[key]), (fuel - 1) as nat)
    } else {
        Seq::empty()
    }
}

/// The character sequences of a sequence of strings.
pub open spec fn string_views(s: Seq<String>) -> Seq<Seq<char>> {
    s.map_values(|x: String| x@)
}

/// An empty store resolves every seed to the empty chain.
pub proof fn lemma_chain_empty_store(key: DnsKey, fuel: nat)
    ensures
        chain_from(Map::empty(), key, fuel) == Seq::<Seq<char>>::empty(),
{
}

proof fn lemma_chain_len_le_fuel(m: Map<DnsKey, Seq<char>>, key: DnsKey, fuel: nat)
    ensures
        chain_from(m, key, fuel).len() <= fuel,
    decreases fuel,
{
    if fuel > 0 && m.contains_key(key) {
        lemma_chain_len_le_fuel(m, cname_key(m[key]), (fuel - 1) as nat);
    }
}

/// Once the walk reaches a missing key within its fuel, it has produced the
/// whole chain: more fuel returns exactly the same names.
pub proof fn lemma_chain_stable(m: Map<DnsKey, Seq<char>>, key: DnsKey, fuel: nat, extra: nat)
    requires
        chain_from(m, key, fuel).len() < fuel,
    ensures
        chain_from(m, key, fuel + extra) == chain_from(m, key, fuel),
    decreases fuel,
{
    if fuel > 0 && m.contains_key(key) {
        let rest = chain_from(m, cname_key(m[key]), (fuel - 1) as nat);
        assert(chain_from(m, key, fuel).len() == 1 + rest.len());
        lemma_chain_stable(m, cname_key(m[key]), (fuel - 1) as nat, extra);
        assert((fuel + extra - 1) as nat == ((fuel - 1) as nat) + extra);
    }
}

proof fn lemma_walk_matches_chain(m: Map<DnsKey, Seq<char>>, key: DnsKey, fuel: nat)
    ensures
        walk_keys(m, key, fuel).len() == chain_from(m, key, fuel).len(),
        forall|i: int|
            0 <= i < walk_keys(m, key, fuel).len() ==> m.dom().contains(
                #[trigger] walk_keys(m, key, fuel)[i],
            ),
    decreases fuel,
{
    if fuel > 0 && m.contains_key(key) {
        lemma_walk_matches_chain(m, cname_key(m[key]), (fuel - 1) as nat);
        let w = walk_keys(m, key, fuel);
        let w2 = walk_keys(m, cname_key(m[key]), (fuel - 1) as nat);
        assert(forall|i: int| 1 <= i < w.len() ==> w[i] == w2[i - 1]);
    }
}

/// Chain resolution termination: when the walk from `key` repeats no key
/// (the stored mapping is acyclic along this chain), a fuel of one more
/// than the store's size already reaches the walk's natural end, so the
/// resolved chain is the full one: its length is at most the store's size
/// and any further fuel returns exactly the same names in the same order.
pub proof fn lemma_chain_resolution_terminates(m: Map<DnsKey, Seq<char>>, key: DnsKey, extra: nat)
    requires
        m.dom().finite(),
        walk_keys(m, key, m.dom().len() + 1).no_duplicates(),
    ensures
        chain_from(m, key, m.dom().len() + 1).len() <= m.dom().len(),
        chain_from(m, key, m.dom().len() + 1 + extra) == chain_from(m, key, m.dom().len() + 1),
{
    let fuel = m.dom().len() + 1;
    let w = walk_keys(m, key, fuel);
    lemma_walk_matches_chain(m, key, fuel);
    lemma_chain_len_le_fuel(m, key, fuel);
    if chain_from(m, key, fuel).len() >= fuel {
        w.unique_seq_to_set();
        assert(w.to_set().subset_of(m.dom())) by {
            assert(forall|k: DnsKey| #[trigger] w.to_set().contains(k) ==> m.dom().contains(k));
        }
        vstd::set_lib::lemma_len_subset(w.to_set(), m.dom());
        assert(false);
    }
    lemma_chain_stable(m, key, fuel, extra);
}

proof fn lemma_string_views_push(s: Seq<String>, x: String)
    ensures
        string_views(s.push(x)) == string_views(s).push(x@),
{
    assert(string_views(s.push(x)) =~= string_views(s).push(x@));
}

/// Chain resolution: starting from the seed record, repeatedly look the
/// current key up; on a hit, append the owner name found and continue at
/// that owner's CNAME key; stop at the first miss. The walk is bounded by
/// one lookup more than the store's size, which is enough to take any
/// acyclic chain to its natural end ([`lemma_chain_resolution_terminates`])
/// while a cyclic mapping is cut off instead of walked forever.
pub fn parse_dns_record(dns_record: DnsRecord, dns_records: &DnsStore) -> (results: Vec<String>)
    requires
        dns_records.wf(),
    ensures
        string_views(results@) == chain_from(
            dns_records@,
            dns_record@,
            dns_records@.dom().len() + 1,
        ),
{
    let ghost m = dns_records@;
    let ghost fuel = m.dom().len() + 1;
    let bound = dns_records.len();
    let mut record = dns_record;
    let mut results: Vec<String> = Vec::new();
    let mut steps: usize = 0;
    loop
        invariant_except_break
            string_views(results@) + chain_from(m, record@, (fuel - steps) as nat) == chain_from(
                m,
                dns_record@,
                fuel,
            ),
        invariant
            dns_records.wf(),
            m == dns_records@,
            fuel == m.dom().len() + 1,
            bound == m.dom().len(),
            steps <= bound,
        ensures
            string_views(results@) == chain_from(m, dns_record@, fuel),
        decreases bound - steps,
    {
        match dns_records.get(&record) {
            None => {
                proof {
                    assert(chain_from(m, record@, (fuel - steps) as nat) =~= Seq::<
                        Seq<char>,
                    >::empty());
                    assert(string_views(results@) + Seq::<Seq<char>>::empty() =~= string_views(
                        results@,
                    ));
                }
                break ;
            },
            Some(owner) => {
                let owner_name = owner.clone();
                proof {
                    lemma_string_views_push(results@, owner_name);
                    assert(chain_from(m, record@, (fuel - steps) as nat) == seq![m[record@]]
                        + chain_from(m, cname_key(m[record@]), (fuel - steps - 1) as nat));
                    assert((string_views(results@) + (seq![m[record@]] + chain_from(
                        m,
                        cname_key(m[record@]),
                        (fuel - steps - 1) as nat,
                    ))) =~= (string_views(results@).push(owner_name@) + chain_from(
                        m,
                        cname_key(m[record@]),
                        (fuel - steps - 1) as nat,
                    )));
                }
                results.push(owner_name);
                let next = owner.clone();
                record = DnsRecord { dtype: DnsRecordType::CNAME, data: next };
                if steps == bound {
                    proof {
                        assert(chain_from(m, record@, 0) =~= Seq::<Seq<char>>::empty());
                        assert(string_views(results@) + Seq::<Seq<char>>::empty() =~= string_views(
                            results@,
                        ));
                    }
                    break ;
                }
                steps = steps + 1;
            },
        }
    }
    results
}

/// The static hostname-to-application table: a hostname identifies
/// WhatsApp exactly when it is the known WhatsApp signaling hostname.
pub open spec fn app_of(name: Seq<char>) -> Option<AppType> {
    if name == "g.whatsapp.net"@ {
        Some(AppType::WHATSAPP)
    } else {
        None
    }
}

/// Looks one hostname up in the static application table.
pub fn dns_to_app(dns: &str) -> (r: Option<AppType>)
    ensures
        r == app_of(dns@),
{
    let host: String = "g.whatsapp.net".to_owned();
    if dns.to_owned() == host {
        Some(AppType::WHATSAPP)
    } else {
        None
    }
}

/// Mathematical value of one decoded answer's record data.
pub enum DnsAnswerDataView {
    A(Seq<char>),
    Cname(Seq<char>),
    Other,
}

/// Mathematical value of one decoded answer record.
pub struct DnsAnswerView {
    pub name: Seq<char>,
    pub data: DnsAnswerDataView,
}

/// Record data of one decoded answer: the address string of an A record,
/// the canonical name of a CNAME record, or `Other` for the record types
/// this store ignores.
#[derive(Debug)]
pub enum DnsAnswerData {
    A(String),
    Cname(String),
    Other,
}

impl View for DnsAnswerData {
    type V = DnsAnswerDataView;

    open spec fn view(&self) -> DnsAnswerDataView {
        match self {
            DnsAnswerData::A(addr) => DnsAnswerDataView::A(addr@),
            DnsAnswerData::Cname(cname) => DnsAnswerDataView::Cname(cname@),
            DnsAnswerData::Other => DnsAnswerDataView::Other,
        }
    }
}

/// One answer record of a decoded DNS message: the owner name it was
/// answered under, and its record data.
#[derive(Debug)]
pub struct DnsAnswer {
    pub name: String,
    pub data: DnsAnswerData,
}

impl View for DnsAnswer {
    type V = DnsAnswerView;

    open spec fn view(&self) -> DnsAnswerView {
        DnsAnswerView { name: self.name@, data: self.data@ }
    }
}

/// The mathematical values of a sequence of decoded answers.
pub open spec fn answer_views(s: Seq<DnsAnswer>) -> Seq<DnsAnswerView> {
    s.map_values(|a: DnsAnswer| a@)
}

/// What parsing a DNS message yields: `None` when the bytes do not parse,
/// otherwise the answer records in message order. A pure function of the
/// bytes alone.
pub uninterp spec fn dns_decode(bytes: Seq<u8>) -> Option<Seq<DnsAnswerView>>;

/// Relies on dns_parser::Packet::parse: whether a byte string parses as a
/// DNS message, and which answer records it then holds, depend on the bytes
/// alone. A and CNAME answers are kept with their owner names; all other
/// record types are carried as `Other`.
#[verifier::external_body]
fn decode_dns(payload: &[u8]) -> (r: Option<Vec<DnsAnswer>>)
    ensures
        match r {
            Some(answers) => dns_decode(payload@) == Some(answer_views(answers@)),
            None => dns_decode(payload@) is None,
        },
{
    match dns_parser::Packet::parse(payload) {
        Err(_) => None,
        Ok(packet) => Some(packet.answers.iter().map(|record| DnsAnswer {
            name: record.name.to_string(),
            data: match &record.data {
                dns_parser::RData::A(a) => DnsAnswerData::A(a.0.to_string()),
                dns_parser::RData::CNAME(c) => DnsAnswerData::Cname(c.0.to_string()),
                _ => DnsAnswerData::Other,
            },
        }).collect()),
    }
}

/// The store after recording one answer: A and CNAME records insert under
/// their key, every other record type changes nothing.
pub open spec fn apply_answer(m: Map<DnsKey, Seq<char>>, a: DnsAnswerView) -> Map<
    DnsKey,
    Seq<char>,
> {
    match a.data {
        DnsAnswerDataView::A(addr) => m.insert(
            DnsKey { dtype: DnsRecordType::A, data: addr },
            a.name,
        ),
        DnsAnswerDataView::Cname(cname) => m.insert(
            DnsKey { dtype: DnsRecordType::CNAME, data: cname },
            a.name,
        ),
        DnsAnswerDataView::Other => m,
    }
}

/// The store after recording a message's answers in order.
pub open spec fn apply_answers(m: Map<DnsKey, Seq<char>>, answers: Seq<DnsAnswerView>) -> Map<
    DnsKey,
    Seq<char>,
>
    decreases answers.len(),
{
    if answers.len() == 0 {
        m
    } else {
        apply_answer(apply_answers(m, answers.drop_last()), answers.last())
    }
}

/// Records every A and CNAME answer of one decoded message, in message
/// order, so that a later answer for the same key overwrites an earlier
/// one.
#[verifier::loop_isolation(false)]
pub fn process_answers(dns_records: &mut DnsStore, answers: &Vec<DnsAnswer>)
    requires
        old(dns_records).wf(),
    ensures
        final(dns_records).wf(),
        final(dns_records)@ == apply_answers(old(dns_records)@, answer_views(answers@)),
{
    let ghost m0 = dns_records@;
    let ghost views = answer_views(answers@);
    let n = answers.len();
    let mut idx: usize = 0;
    while idx < n
        invariant
            idx <= n,
            dns_records.wf(),
            dns_records@ == apply_answers(m0, views.subrange(0, idx as int)),
        decreases n - idx,
    {
        proof {
            assert(views.subrange(0, idx + 1).drop_last() =~= views.subrange(0, idx as int));
            assert(views.subrange(0, idx + 1).last() == answers@[idx as int]@);
        }
        match &answers[idx].data {
            DnsAnswerData::A(addr) => {
                dns_records.record_answer(
                    DnsRecord { dtype: DnsRecordType::A, data: addr.clone() },
                    answers[idx].name.clone(),
                );
            },
            DnsAnswerData::Cname(cname) => {
                dns_records.record_answer(
                    DnsRecord { dtype: DnsRecordType::CNAME, data: cname.clone() },
                    answers[idx].name.clone(),
                );
            },
            DnsAnswerData::Other => {},
        }
        idx += 1;
    }
    proof {
        assert(views.subrange(0, n as int) =~= views);
    }
}

/// Handles one suspected DNS payload. Bytes that do not parse are dropped
/// with nothing changed. A parsed message moves the DNS counter up by one
/// and records every A and CNAME answer; the store is exclusively borrowed
/// for the whole message, so readers see all of a message's answers or
/// none.
pub fn handle(payload: &[u8], dns_records: &mut DnsStore, stats: &mut Stats)
    requires
        old(dns_records).wf(),
        old(stats).dns < usize::MAX,
    ensures
        final(dns_records).wf(),
        match dns_decode(payload@) {
            Some(answers) => final(dns_records)@ == apply_answers(old(dns_records)@, answers)
                && *final(stats) == (Stats { dns: (old(stats).dns + 1) as usize, ..*old(stats) }),
            None => final(dns_records)@ == old(dns_records)@ && *final(stats) == *old(stats),
        },
{
    match decode_dns(payload) {
        None => {},
        Some(answers) => {
            stats.dns = stats.dns + 1;
            process_answers(dns_records, &answers);
        },
    }
}

/// Last-write-wins: inserting a second owner for a key leaves only the
/// second one retrievable, and no other key is touched.
pub proof fn lemma_record_overwrite(
    m: Map<DnsKey, Seq<char>>,
    k: DnsKey,
    v1: Seq<char>,
    v2: Seq<char>,
)
    ensures
        m.insert(k, v1).insert(k, v2) == m.insert(k, v2),
        m.insert(k, v2)[k] == v2,
{
    assert(m.insert(k, v1).insert(k, v2) =~= m.insert(k, v2));
}

} // verus!
