//! Decoding of captured frames: Ethernet, then IP. IPv4 packets become
//! queue packets for the dispatch pipeline; IPv6 packets are counted and
//! dropped; anything else is dropped silently. The capture source itself
//! (live interface or file) lives outside the library and hands raw frame
//! bytes in.

use crate::stats::Stats;
use crate::utils::{QueuePacket, QueuePacketView};
use vstd::prelude::*;

verus! {

/// What parsing an Ethernet II header yields: a frame shorter than the
/// 14-byte header is refused; otherwise the bytes after the header.
pub open spec fn eth_decode(bytes: Seq<u8>) -> Option<Seq<u8>> {
    if bytes.len() < 14 {
        None
    } else {
        Some(bytes.skip(14))
    }
}

/// Relies on etherparse::Ethernet2Header::from_slice: a slice shorter
/// than the 14-byte header is refused, and everything after those 14
/// bytes is returned as the rest.
#[verifier::external_body]
fn decode_ethernet(data: &[u8]) -> (r: Option<Vec<u8>>)
    ensures
        match r {
            Some(rest) => eth_decode(data@) == Some(rest@),
            None => eth_decode(data@) is None,
        },
{
    match etherparse::Ethernet2Header::from_slice(data) {
        Err(_) => None,
        Ok((_, rest)) => Some(rest.to_vec()),
    }
}

/// Mathematical value of an [`IpDecoded`].
pub enum IpDecodedView {
    V4(QueuePacketView),
    V6,
    Unreadable,
}

/// One parsed IP packet: an IPv4 packet with the fields this pipeline
/// carries, an IPv6 packet (only counted), or bytes that did not parse.
#[derive(Debug)]
pub enum IpDecoded {
    V4(QueuePacket),
    V6,
    Unreadable,
}

impl View for IpDecoded {
    type V = IpDecodedView;

    open spec fn view(&self) -> IpDecodedView {
        match self {
            IpDecoded::V4(packet) => IpDecodedView::V4(packet@),
            IpDecoded::V6 => IpDecodedView::V6,
            IpDecoded::Unreadable => IpDecodedView::Unreadable,
        }
    }
}

/// What parsing an IP header yields: the version parsed, and for IPv4 the
/// protocol number, addresses, payload length field, and the bytes after
/// the header. A pure function of the bytes alone.
pub uninterp spec fn ip_decode(bytes: Seq<u8>) -> IpDecodedView;

/// Relies on etherparse::IpHeader::from_slice: the version field decides
/// the variant; for IPv4 the header's protocol number, source and
/// destination addresses (read big-endian), payload length, and the bytes
/// after the header and its extensions are returned. All of it depends on
/// the input bytes alone.
#[verifier::external_body]
fn decode_ip(data: &[u8]) -> (r: IpDecoded)
    ensures
        r@ == ip_decode(data@),
{
    match etherparse::IpHeader::from_slice(data) {
        Err(_) => IpDecoded::Unreadable,
        Ok((etherparse::IpHeader::Version4(h, _), _, rest)) => IpDecoded::V4(QueuePacket {
            protocol: h.protocol,
            source: u32::from_be_bytes(h.source),
            destination: u32::from_be_bytes(h.destination),
            payload_len: h.payload_len,
            payload: rest.to_vec(),
        }),
        Ok((etherparse::IpHeader::Version6(_, _), _, _)) => IpDecoded::V6,
    }
}

/// Decodes one captured frame. An IPv4 packet is counted and returned for
/// dispatch; an IPv6 packet is counted and dropped; a frame that does not
/// decode as Ethernet plus IP is dropped with nothing changed.
pub fn decode_frame(data: &[u8], stats: &mut Stats) -> (r: Option<QueuePacket>)
    requires
        old(stats).ipv4 < usize::MAX,
        old(stats).ipv6 < usize::MAX,
    ensures
        match eth_decode(data@) {
            None => r is None && *final(stats) == *old(stats),
            Some(ip_bytes) => match ip_decode(ip_bytes) {
                IpDecodedView::V4(p) => (r matches Some(packet) && packet@ == p) && *final(stats)
                    == (Stats { ipv4: (old(stats).ipv4 + 1) as usize, ..*old(stats) }),
                IpDecodedView::V6 => r is None && *final(stats) == (Stats {
                    ipv6: (old(stats).ipv6 + 1) as usize,
                    ..*old(stats)
                }),
                IpDecodedView::Unreadable => r is None && *final(stats) == *old(stats),
            },
        },
{
    match decode_ethernet(data) {
        None => None,
        Some(ip_bytes) => {
            match decode_ip(ip_bytes.as_slice()) {
                IpDecoded::V4(packet) => {
                    stats.ipv4 = stats.ipv4 + 1;
                    Some(packet)
                },
                IpDecoded::V6 => {
                    stats.ipv6 = stats.ipv6 + 1;
                    None
                },
                IpDecoded::Unreadable => None,
            }
        },
    }
}

} // verus!
