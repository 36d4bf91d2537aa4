use netprobe::stats::Stats;
use netprobe::utils::StatType;

#[test]
fn new_stats_read_zero() {
    let stats = Stats::new();
    assert_eq!(stats.get_stat(StatType::IPV4), 0);
    assert_eq!(stats.get_stat(StatType::IPV6), 0);
    assert_eq!(stats.get_stat(StatType::TCP), 0);
    assert_eq!(stats.get_stat(StatType::UDP), 0);
    assert_eq!(stats.get_stat(StatType::DNS), 0);
    assert_eq!(stats.get_stat(StatType::CTX), 0);
}

#[test]
fn snapshot_reflects_events_and_reset_clears_traffic_counters() {
    let mut stats = Stats::new();
    stats.ipv4 = 10;
    stats.ipv6 = 2;
    stats.tcp = 7;
    stats.udp = 4;
    stats.dns = 3;
    stats.ctx = 5;
    // The snapshot immediately before the clear shows what accumulated.
    assert_eq!(stats.get_stat(StatType::IPV4), 10);
    assert_eq!(stats.get_stat(StatType::IPV6), 2);
    assert_eq!(stats.get_stat(StatType::TCP), 7);
    assert_eq!(stats.get_stat(StatType::UDP), 4);
    assert_eq!(stats.get_stat(StatType::DNS), 3);
    assert_eq!(stats.get_stat(StatType::CTX), 5);
    stats.reset();
    // The per-interval traffic counters read back zero.
    assert_eq!(stats.get_stat(StatType::IPV4), 0);
    assert_eq!(stats.get_stat(StatType::IPV6), 0);
    assert_eq!(stats.get_stat(StatType::TCP), 0);
    assert_eq!(stats.get_stat(StatType::UDP), 0);
    // The DNS counter and the live flow counter are not part of the clear.
    assert_eq!(stats.get_stat(StatType::DNS), 3);
    assert_eq!(stats.get_stat(StatType::CTX), 5);
}

#[test]
fn guarded_decrement_stops_at_zero() {
    let mut stats = Stats::new();
    stats.ctx = 2;
    stats.dec_ctx();
    assert_eq!(stats.ctx, 1);
    stats.dec_ctx();
    assert_eq!(stats.ctx, 0);
    stats.dec_ctx();
    assert_eq!(stats.ctx, 0);
}
