//! End-to-end scenarios on raw bytes: captured frames through the
//! Ethernet/IP decoders, DNS answers through the UDP path, and flow
//! creation with DNS-based classification through the TCP path.

use netprobe::handlers::dns::DnsStore;
use netprobe::handlers::tcp::{FlowTable, Quad, TcpEvent};
use netprobe::handlers::udp;
use netprobe::interface::decode_frame;
use netprobe::packet_handler::handle_packet;
use netprobe::stats::Stats;
use netprobe::utils::{AppType, DnsRecord, DnsRecordType, QueuePacket};

/// One DNS response carrying a single A answer: owner g.whatsapp.net,
/// address 5.6.7.8.
fn dns_response_bytes() -> Vec<u8> {
    let mut bytes = vec![
        0x12, 0x34, // id
        0x81, 0x80, // flags: response, recursion desired and available
        0x00, 0x00, // no questions
        0x00, 0x01, // one answer
        0x00, 0x00, // no authority records
        0x00, 0x00, // no additional records
    ];
    // owner name: g.whatsapp.net
    bytes.extend_from_slice(&[1, b'g', 8]);
    bytes.extend_from_slice(b"whatsapp");
    bytes.push(3);
    bytes.extend_from_slice(b"net");
    bytes.push(0);
    bytes.extend_from_slice(&[
        0x00, 0x01, // type A
        0x00, 0x01, // class IN
        0x00, 0x00, 0x00, 0x3c, // ttl
        0x00, 0x04, // rdata length
        5, 6, 7, 8, // address
    ]);
    bytes
}

/// A UDP datagram from port 53 wrapping `payload`.
fn udp_datagram(payload: &[u8]) -> Vec<u8> {
    let length = (8 + payload.len()) as u16;
    let mut bytes = vec![
        0x00, 53, // source port 53
        0x0d, 0x05, // destination port 3333
    ];
    bytes.extend_from_slice(&length.to_be_bytes());
    bytes.extend_from_slice(&[0x00, 0x00]); // checksum not filled in
    bytes.extend_from_slice(payload);
    bytes
}

/// A 20-byte TCP header from port 443 to port 5000 with the given flag
/// byte, followed by `payload`.
fn tcp_segment(flags: u8, payload: &[u8]) -> Vec<u8> {
    let mut bytes = vec![
        0x01, 0xbb, // source port 443
        0x13, 0x88, // destination port 5000
        0x00, 0x00, 0x00, 0x01, // sequence number
        0x00, 0x00, 0x00, 0x01, // acknowledgment number
        0x50, // data offset 5, no options
        flags, 0xff, 0xff, // window
        0x00, 0x00, // checksum not filled in
        0x00, 0x00, // urgent pointer
    ];
    bytes.extend_from_slice(payload);
    bytes
}

const SYN_ACK: u8 = 0x12;
const ACK: u8 = 0x10;

fn packet(protocol: u8, source: u32, destination: u32, payload: Vec<u8>) -> QueuePacket {
    let payload_len = payload.len() as u16;
    QueuePacket { protocol, source, destination, payload_len, payload }
}

#[test]
fn udp_datagram_on_port_53_fills_the_store() {
    let mut store = DnsStore::new();
    let mut stats = Stats::new();
    let pkt = packet(17, 0x01010101, 0x02020202, udp_datagram(&dns_response_bytes()));
    udp::handle(&pkt, &mut store, &mut stats);
    assert_eq!(stats.udp, 1);
    assert_eq!(stats.dns, 1);
    let owner = store
        .get(&DnsRecord { dtype: DnsRecordType::A, data: "5.6.7.8".to_string() })
        .unwrap();
    assert_eq!(owner, "g.whatsapp.net");
}

#[test]
fn udp_datagram_on_other_ports_is_only_counted() {
    let mut store = DnsStore::new();
    let mut stats = Stats::new();
    let mut datagram = udp_datagram(&dns_response_bytes());
    datagram[1] = 99; // source port 99 instead of 53
    let pkt = packet(17, 0x01010101, 0x02020202, datagram);
    udp::handle(&pkt, &mut store, &mut stats);
    assert_eq!(stats.udp, 1);
    assert_eq!(stats.dns, 0);
    assert_eq!(store.len(), 0);
}

#[test]
fn malformed_dns_payload_is_dropped_after_counting_the_datagram() {
    let mut store = DnsStore::new();
    let mut stats = Stats::new();
    let pkt = packet(17, 0x01010101, 0x02020202, udp_datagram(&[1, 2, 3]));
    udp::handle(&pkt, &mut store, &mut stats);
    assert_eq!(stats.udp, 1);
    assert_eq!(stats.dns, 0);
    assert_eq!(store.len(), 0);
}

#[test]
fn truncated_udp_header_changes_nothing() {
    let mut store = DnsStore::new();
    let mut stats = Stats::new();
    let pkt = packet(17, 0x01010101, 0x02020202, vec![0, 53, 0]);
    udp::handle(&pkt, &mut store, &mut stats);
    assert_eq!(stats.udp, 0);
    assert_eq!(store.len(), 0);
}

#[test]
fn dns_answer_then_syn_ack_classifies_whatsapp() {
    let mut store = DnsStore::new();
    let mut table = FlowTable::new();
    let mut stats = Stats::new();

    // First the observed DNS answer: (A, 5.6.7.8) -> g.whatsapp.net.
    let dns_pkt = packet(17, 0x0a000001, 0x0a000002, udp_datagram(&dns_response_bytes()));
    let r = handle_packet(&mut table, &mut store, &mut stats, &dns_pkt, 500);
    assert!(r.is_none());

    // Then a SYN+ACK whose source address is that answer's address.
    let syn_pkt = packet(6, 0x05060708, 0x0a000002, tcp_segment(SYN_ACK, &[]));
    let r = handle_packet(&mut table, &mut store, &mut stats, &syn_pkt, 1000);
    assert_eq!(r, Some(TcpEvent::Created));
    assert_eq!(stats.ctx, 1);
    assert_eq!(stats.tcp, 1);

    let ctx = table.get(&Quad { src: (0x05060708, 443), dst: (0x0a000002, 5000) }).unwrap();
    assert_eq!(ctx.app_type, AppType::WHATSAPP);
    assert_eq!(ctx.associated_dns, vec!["g.whatsapp.net"]);
    assert_eq!(ctx.src_ip, 0x05060708);
    assert_eq!(ctx.src_port, 443);
    assert_eq!(ctx.dst_port, 5000);
}

#[test]
fn tcp_bytes_that_do_not_decode_count_nothing() {
    let mut store = DnsStore::new();
    let mut table = FlowTable::new();
    let mut stats = Stats::new();
    let pkt = packet(6, 0x0a000001, 0x0a000002, vec![1, 2, 3]);
    let r = handle_packet(&mut table, &mut store, &mut stats, &pkt, 1000);
    assert_eq!(r, Some(TcpEvent::DecodeFailed));
    assert_eq!(stats.tcp, 0);
}

#[test]
fn tcp_data_segment_from_raw_bytes_updates_the_flow() {
    let mut store = DnsStore::new();
    let mut table = FlowTable::new();
    let mut stats = Stats::new();
    let syn_pkt = packet(6, 0x0a000001, 0x0a000002, tcp_segment(SYN_ACK, &[]));
    handle_packet(&mut table, &mut store, &mut stats, &syn_pkt, 1000);
    let data_pkt = packet(6, 0x0a000001, 0x0a000002, tcp_segment(ACK, &[69, 68, 0, 1, 9]));
    let r = handle_packet(&mut table, &mut store, &mut stats, &data_pkt, 2000);
    assert_eq!(r, Some(TcpEvent::Updated));
    let ctx = table.get(&Quad { src: (0x0a000001, 443), dst: (0x0a000002, 5000) }).unwrap();
    assert_eq!(ctx.len, 2);
    assert_eq!(ctx.last_ts, 2000);
    assert_eq!(ctx.app_type, AppType::WHATSAPP);
}

#[test]
fn igmp_and_unknown_protocols_are_dropped() {
    let mut store = DnsStore::new();
    let mut table = FlowTable::new();
    let mut stats = Stats::new();
    let r = handle_packet(&mut table, &mut store, &mut stats, &packet(2, 1, 2, vec![0; 8]), 10);
    assert!(r.is_none());
    let r = handle_packet(&mut table, &mut store, &mut stats, &packet(99, 1, 2, vec![0; 8]), 10);
    assert!(r.is_none());
    assert_eq!(stats.tcp, 0);
    assert_eq!(stats.udp, 0);
}

/// An Ethernet II frame wrapping an IPv4 packet with the given protocol
/// number and a 4-byte payload.
fn ethernet_ipv4_frame(protocol: u8, payload: &[u8]) -> Vec<u8> {
    let total_len = (20 + payload.len()) as u16;
    let mut bytes = vec![
        0xaa, 0xaa, 0xaa, 0xaa, 0xaa, 0xaa, // destination mac
        0xbb, 0xbb, 0xbb, 0xbb, 0xbb, 0xbb, // source mac
        0x08, 0x00, // ethertype: IPv4
        0x45, 0x00, // version 4, header length 20, dscp/ecn 0
    ];
    bytes.extend_from_slice(&total_len.to_be_bytes());
    bytes.extend_from_slice(&[
        0x00, 0x00, // identification
        0x40, 0x00, // don't fragment
        0x40, // ttl
    ]);
    bytes.push(protocol);
    bytes.extend_from_slice(&[0x00, 0x00]); // checksum not filled in
    bytes.extend_from_slice(&[1, 2, 3, 4]); // source address
    bytes.extend_from_slice(&[5, 6, 7, 8]); // destination address
    bytes.extend_from_slice(payload);
    bytes
}

#[test]
fn captured_ipv4_frame_becomes_a_queue_packet() {
    let mut stats = Stats::new();
    let frame = ethernet_ipv4_frame(6, &[9, 8, 7, 6]);
    let pkt = decode_frame(&frame, &mut stats).unwrap();
    assert_eq!(pkt.protocol, 6);
    assert_eq!(pkt.source, 0x01020304);
    assert_eq!(pkt.destination, 0x05060708);
    assert_eq!(pkt.payload_len, 4);
    assert_eq!(pkt.payload, vec![9, 8, 7, 6]);
    assert_eq!(stats.ipv4, 1);
    assert_eq!(stats.ipv6, 0);
}

#[test]
fn captured_ipv6_frame_is_counted_and_dropped() {
    let mut stats = Stats::new();
    // Ethernet header with the IPv6 ethertype and a minimal IPv6 header.
    let mut frame = vec![
        0xaa, 0xaa, 0xaa, 0xaa, 0xaa, 0xaa, 0xbb, 0xbb, 0xbb, 0xbb, 0xbb, 0xbb, 0x86, 0xdd,
    ];
    frame.extend_from_slice(&[0x60, 0, 0, 0]); // version 6
    frame.extend_from_slice(&[0, 0]); // payload length 0
    frame.push(59); // next header: no next header
    frame.push(64); // hop limit
    frame.extend_from_slice(&[0; 32]); // source and destination addresses
    let r = decode_frame(&frame, &mut stats);
    assert!(r.is_none());
    assert_eq!(stats.ipv4, 0);
    assert_eq!(stats.ipv6, 1);
}

#[test]
fn unreadable_frame_changes_nothing() {
    let mut stats = Stats::new();
    let r = decode_frame(&[1, 2, 3], &mut stats);
    assert!(r.is_none());
    assert_eq!(stats.ipv4, 0);
    assert_eq!(stats.ipv6, 0);
}
