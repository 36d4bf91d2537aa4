//! The single-consumer dispatch step: routes one queued packet to the TCP
//! or UDP handler by its protocol number. The surrounding queue and thread
//! live outside the library; serializing all flow and DNS mutation through
//! this one entry point is what makes the shared state single-writer.

use crate::handlers::tcp;
use crate::handlers::tcp::{tcp_handle_post, FlowTable, TcpEvent};
use crate::handlers::udp;
use crate::handlers::udp::udp_handle_post;
use crate::handlers::dns::DnsStore;
use crate::stats::Stats;
use crate::utils::{protocol_from_u8, ProtocolType, QueuePacket};
use vstd::prelude::*;

verus! {

/// Routes one decoded packet. TCP advances the flow state machine and
/// reports the branch taken (`Some`); UDP counts the datagram and may
/// record DNS answers; IGMP and unknown protocol numbers are dropped with
/// nothing changed.
pub fn handle_packet(
    connections: &mut FlowTable,
    dns_records: &mut DnsStore,
    stats: &mut Stats,
    packet: &QueuePacket,
    now_ms: u128,
) -> (r: Option<TcpEvent>)
    requires
        old(connections).wf(),
        old(dns_records).wf(),
        tcp::ready(old(connections)@, now_ms),
        old(stats).tcp < usize::MAX,
        old(stats).ctx < usize::MAX,
        old(stats).udp < usize::MAX,
        old(stats).dns < usize::MAX,
    ensures
        final(connections).wf(),
        final(dns_records).wf(),
        packet.protocol == 6 ==> final(dns_records)@ == old(dns_records)@ && (r matches Some(
            event,
        ) && tcp_handle_post(
            old(connections)@,
            final(connections)@,
            *old(stats),
            *final(stats),
            old(dns_records)@,
            packet.source,
            packet.destination,
            packet.payload@,
            now_ms,
            event,
        )),
        packet.protocol == 17 ==> final(connections)@ == old(connections)@ && r is None
            && udp_handle_post(
            old(dns_records)@,
            final(dns_records)@,
            *old(stats),
            *final(stats),
            packet.payload@,
        ),
        packet.protocol != 6 && packet.protocol != 17 ==> final(connections)@ == old(
            connections,
        )@ && final(dns_records)@ == old(dns_records)@ && *final(stats) == *old(stats) && r
            is None,
{
    match protocol_from_u8(packet.protocol) {
        Some(ProtocolType::TCP) => {
            let event = tcp::handle(connections, packet, dns_records, stats, now_ms);
            Some(event)
        },
        Some(ProtocolType::UDP) => {
            udp::handle(packet, dns_records, stats);
            None
        },
        Some(ProtocolType::IGMP) => None,
        None => None,
    }
}

} // verus!
