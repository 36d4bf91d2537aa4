//! UDP datagram routing: counts datagrams and hands DNS traffic (either
//! port 53) to the DNS handler.

use crate::handlers::dns;
use crate::handlers::dns::{apply_answers, dns_decode, DnsStore};
use crate::stats::Stats;
use crate::utils::{be16, DnsKey, QueuePacket};
use vstd::prelude::*;

verus! {

/// What parsing a UDP header yields: a datagram shorter than the 8-byte
/// header is refused; otherwise the source and destination ports, read
/// big-endian, and the payload after the header.
pub open spec fn udp_decode(bytes: Seq<u8>) -> Option<(u16, u16, Seq<u8>)> {
    if bytes.len() < 8 {
        None
    } else {
        Some((be16(bytes[0], bytes[1]), be16(bytes[2], bytes[3]), bytes.skip(8)))
    }
}

/// Relies on etherparse::UdpHeader::from_slice: a slice shorter than the
/// 8-byte header is refused; otherwise the ports are read big-endian from
/// the first four bytes and everything after the header is the rest.
#[verifier::external_body]
fn decode_udp(payload: &[u8]) -> (r: Option<(u16, u16, Vec<u8>)>)
    ensures
        match r {
            Some(d) => udp_decode(payload@) == Some((d.0, d.1, d.2@)),
            None => udp_decode(payload@) is None,
        },
{
    match etherparse::UdpHeader::from_slice(payload) {
        Err(_) => None,
        Ok((h, rest)) => Some((h.source_port, h.destination_port, rest.to_vec())),
    }
}

/// Everything one UDP packet does. Bytes that do not decode are dropped
/// with nothing changed. A decoded datagram moves the UDP counter up by
/// one; when either port is 53 its payload goes to the DNS handler, which
/// counts and records a parsed message's answers and drops anything else.
pub open spec fn udp_handle_post(
    store0: Map<DnsKey, Seq<char>>,
    store1: Map<DnsKey, Seq<char>>,
    s0: Stats,
    s1: Stats,
    bytes: Seq<u8>,
) -> bool {
    match udp_decode(bytes) {
        None => store1 == store0 && s1 == s0,
        Some(d) => {
            let counted = Stats { udp: (s0.udp + 1) as usize, ..s0 };
            if d.0 == 53 || d.1 == 53 {
                match dns_decode(d.2) {
                    Some(answers) => store1 == apply_answers(store0, answers) && s1 == (Stats {
                        dns: (counted.dns + 1) as usize,
                        ..counted
                    }),
                    None => store1 == store0 && s1 == counted,
                }
            } else {
                store1 == store0 && s1 == counted
            }
        },
    }
}

/// Handles one UDP packet: decodes the header, counts the datagram, and
/// forwards the payload to the DNS handler when either port is 53.
pub fn handle(packet: &QueuePacket, dns_records: &mut DnsStore, stats: &mut Stats)
    requires
        old(dns_records).wf(),
        old(stats).udp < usize::MAX,
        old(stats).dns < usize::MAX,
    ensures
        final(dns_records).wf(),
        udp_handle_post(
            old(dns_records)@,
            final(dns_records)@,
            *old(stats),
            *final(stats),
            packet.payload@,
        ),
{
    match decode_udp(packet.payload.as_slice()) {
        None => {},
        Some((source_port, destination_port, udp_payload)) => {
            stats.udp = stats.udp + 1;
            if source_port == 53 || destination_port == 53 {
                dns::handle(udp_payload.as_slice(), dns_records, stats);
            }
        },
    }
}

} // verus!
