use netprobe::handlers::dns::DnsStore;
use netprobe::handlers::tcp::{
    classify_chain, payload_has_magic, process_segment, watchdog_tick, FlowTable, Quad,
    TcpEvent, TcpHeaderInfo, WatchdogVerdict, INACTIVITY_TIMEOUT_MS,
};
use netprobe::stats::Stats;
use netprobe::utils::AppType;

const SRC: u32 = 0x0a000001;
const DST: u32 = 0x0a000002;

fn header(syn: bool, ack: bool, fin: bool, rst: bool) -> TcpHeaderInfo {
    TcpHeaderInfo { source_port: 443, destination_port: 5000, syn, ack, fin, rst }
}

fn quad() -> Quad {
    Quad { src: (SRC, 443), dst: (DST, 5000) }
}

fn reversed_quad() -> Quad {
    Quad { src: (DST, 5000), dst: (SRC, 443) }
}

#[test]
fn quad_symmetry() {
    assert_eq!(quad(), reversed_quad());
    assert_eq!(quad().hash_code(), reversed_quad().hash_code());
    let other = Quad { src: (SRC, 444), dst: (DST, 5000) };
    assert!(quad() != other);
}

#[test]
fn classify_chain_first_match_wins() {
    let chain = vec!["x.example.com".to_string(), "g.whatsapp.net".to_string()];
    assert_eq!(classify_chain(&chain), AppType::WHATSAPP);
    let none = vec!["x.example.com".to_string(), "y.example.com".to_string()];
    assert_eq!(classify_chain(&none), AppType::NONE);
    assert_eq!(classify_chain(&Vec::new()), AppType::NONE);
}

#[test]
fn payload_magic_needs_all_four_bytes() {
    assert!(payload_has_magic(&[69, 68, 0, 1]));
    assert!(payload_has_magic(&[69, 68, 0, 1, 42]));
    assert!(!payload_has_magic(&[69, 68, 0]));
    assert!(!payload_has_magic(&[69, 68, 0, 2]));
    assert!(!payload_has_magic(&[]));
}

#[test]
fn syn_ack_creates_exactly_one_context() {
    let mut table = FlowTable::new();
    let dns = DnsStore::new();
    let mut stats = Stats::new();
    let event = process_segment(
        &mut table, &dns, &mut stats, SRC, DST, header(true, true, false, false), &Vec::new(),
        1000,
    );
    assert_eq!(event, TcpEvent::Created);
    assert_eq!(stats.ctx, 1);
    assert_eq!(stats.tcp, 1);
    let ctx = table.get(&quad()).unwrap();
    assert_eq!(ctx.len, 1);
    assert_eq!(ctx.first_ts, 1000);
    assert_eq!(ctx.last_ts, 1000);
    assert_eq!(ctx.app_type, AppType::NONE);
    assert!(ctx.associated_dns.is_empty());
    // The same flow is found from the other direction too.
    assert!(table.get(&reversed_quad()).is_some());
}

#[test]
fn duplicate_syn_ack_is_a_no_op() {
    let mut table = FlowTable::new();
    let dns = DnsStore::new();
    let mut stats = Stats::new();
    process_segment(
        &mut table, &dns, &mut stats, SRC, DST, header(true, true, false, false), &Vec::new(),
        1000,
    );
    // The retransmission arrives from the opposite direction.
    let event = process_segment(
        &mut table, &dns, &mut stats, DST, SRC,
        TcpHeaderInfo { source_port: 5000, destination_port: 443, syn: true, ack: true, fin: false, rst: false },
        &Vec::new(), 2000,
    );
    assert_eq!(event, TcpEvent::DuplicateSyn);
    assert_eq!(stats.ctx, 1);
    assert_eq!(stats.tcp, 2);
    assert_eq!(table.get(&quad()).unwrap().first_ts, 1000);
}

#[test]
fn fin_ack_removes_context_without_decrement() {
    let mut table = FlowTable::new();
    let dns = DnsStore::new();
    let mut stats = Stats::new();
    process_segment(
        &mut table, &dns, &mut stats, SRC, DST, header(true, true, false, false), &Vec::new(),
        1000,
    );
    let event = process_segment(
        &mut table, &dns, &mut stats, SRC, DST, header(false, true, true, false), &Vec::new(),
        2000,
    );
    assert_eq!(event, TcpEvent::Closed);
    assert!(table.get(&quad()).is_none());
    // The decrement belongs to the watchdog, not to the FIN/RST path.
    assert_eq!(stats.ctx, 1);
    assert_eq!(stats.tcp, 2);
}

#[test]
fn rst_removes_context() {
    let mut table = FlowTable::new();
    let dns = DnsStore::new();
    let mut stats = Stats::new();
    process_segment(
        &mut table, &dns, &mut stats, SRC, DST, header(true, true, false, false), &Vec::new(),
        1000,
    );
    let event = process_segment(
        &mut table, &dns, &mut stats, SRC, DST, header(false, false, false, true), &Vec::new(),
        2000,
    );
    assert_eq!(event, TcpEvent::Closed);
    assert!(table.get(&quad()).is_none());
}

#[test]
fn data_segment_on_unknown_key_is_dropped() {
    let mut table = FlowTable::new();
    let dns = DnsStore::new();
    let mut stats = Stats::new();
    let event = process_segment(
        &mut table, &dns, &mut stats, SRC, DST, header(false, true, false, false),
        &vec![1, 2, 3, 4, 5], 1000,
    );
    assert_eq!(event, TcpEvent::NotTracked);
    assert!(table.get(&quad()).is_none());
    // The segment is still counted.
    assert_eq!(stats.tcp, 1);
}

#[test]
fn short_payload_changes_nothing_but_the_segment_counter() {
    let mut table = FlowTable::new();
    let dns = DnsStore::new();
    let mut stats = Stats::new();
    process_segment(
        &mut table, &dns, &mut stats, SRC, DST, header(true, true, false, false), &Vec::new(),
        1000,
    );
    let event = process_segment(
        &mut table, &dns, &mut stats, SRC, DST, header(false, true, false, false),
        &vec![1, 2, 3], 2000,
    );
    assert_eq!(event, TcpEvent::ShortPayload);
    let ctx = table.get(&quad()).unwrap();
    assert_eq!(ctx.len, 1);
    assert_eq!(ctx.last_ts, 1000);
    assert_eq!(stats.tcp, 2);
}

#[test]
fn data_segment_updates_count_and_timestamp() {
    let mut table = FlowTable::new();
    let dns = DnsStore::new();
    let mut stats = Stats::new();
    process_segment(
        &mut table, &dns, &mut stats, SRC, DST, header(true, true, false, false), &Vec::new(),
        1000,
    );
    let event = process_segment(
        &mut table, &dns, &mut stats, SRC, DST, header(false, true, false, false),
        &vec![9, 9, 9, 9], 5000,
    );
    assert_eq!(event, TcpEvent::Updated);
    let ctx = table.get(&quad()).unwrap();
    assert_eq!(ctx.len, 2);
    assert_eq!(ctx.first_ts, 1000);
    assert_eq!(ctx.last_ts, 5000);
    assert_eq!(ctx.app_type, AppType::NONE);
    assert_eq!(stats.tcp, 2);
}

#[test]
fn payload_magic_sets_whatsapp_without_dns_match() {
    let mut table = FlowTable::new();
    let dns = DnsStore::new();
    let mut stats = Stats::new();
    process_segment(
        &mut table, &dns, &mut stats, SRC, DST, header(true, true, false, false), &Vec::new(),
        1000,
    );
    assert_eq!(table.get(&quad()).unwrap().app_type, AppType::NONE);
    process_segment(
        &mut table, &dns, &mut stats, SRC, DST, header(false, true, false, false),
        &vec![69, 68, 0, 1], 2000,
    );
    assert_eq!(table.get(&quad()).unwrap().app_type, AppType::WHATSAPP);
    // A later non-matching payload does not revert the classification.
    process_segment(
        &mut table, &dns, &mut stats, SRC, DST, header(false, true, false, false),
        &vec![7, 7, 7, 7], 3000,
    );
    assert_eq!(table.get(&quad()).unwrap().app_type, AppType::WHATSAPP);
}

#[test]
fn watchdog_keeps_watching_within_allowance() {
    let mut table = FlowTable::new();
    let dns = DnsStore::new();
    let mut stats = Stats::new();
    process_segment(
        &mut table, &dns, &mut stats, SRC, DST, header(true, true, false, false), &Vec::new(),
        1000,
    );
    let verdict = watchdog_tick(&mut table, &mut stats, &quad(), 1000 + INACTIVITY_TIMEOUT_MS - 1);
    assert_eq!(verdict, WatchdogVerdict::KeepWatching);
    assert!(table.get(&quad()).is_some());
    assert_eq!(stats.ctx, 1);
}

#[test]
fn watchdog_evicts_after_timeout_and_decrements_once() {
    let mut table = FlowTable::new();
    let dns = DnsStore::new();
    let mut stats = Stats::new();
    process_segment(
        &mut table, &dns, &mut stats, SRC, DST, header(true, true, false, false), &Vec::new(),
        1000,
    );
    let verdict = watchdog_tick(&mut table, &mut stats, &quad(), 1000 + INACTIVITY_TIMEOUT_MS);
    assert_eq!(verdict, WatchdogVerdict::Terminated);
    assert!(table.get(&quad()).is_none());
    assert_eq!(stats.ctx, 0);
}

#[test]
fn watchdog_notices_absent_key_and_never_goes_below_zero() {
    let mut table = FlowTable::new();
    let dns = DnsStore::new();
    let mut stats = Stats::new();
    process_segment(
        &mut table, &dns, &mut stats, SRC, DST, header(true, true, false, false), &Vec::new(),
        1000,
    );
    process_segment(
        &mut table, &dns, &mut stats, SRC, DST, header(false, true, true, false), &Vec::new(),
        2000,
    );
    // FIN removed the key: the watchdog's wake decrements once and ends.
    let verdict = watchdog_tick(&mut table, &mut stats, &quad(), 3000);
    assert_eq!(verdict, WatchdogVerdict::Terminated);
    assert_eq!(stats.ctx, 0);
    // A second racing wake finds the counter at zero and leaves it there.
    let verdict = watchdog_tick(&mut table, &mut stats, &quad(), 4000);
    assert_eq!(verdict, WatchdogVerdict::Terminated);
    assert_eq!(stats.ctx, 0);
}

#[test]
fn ready_for_notices_clock_behind_flow() {
    let mut table = FlowTable::new();
    let dns = DnsStore::new();
    let mut stats = Stats::new();
    process_segment(
        &mut table, &dns, &mut stats, SRC, DST, header(true, true, false, false), &Vec::new(),
        1000,
    );
    assert!(table.ready_for(1000));
    assert!(table.ready_for(5000));
    assert!(!table.ready_for(999));
}
