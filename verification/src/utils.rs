//! Shared plain types: protocol and statistic discriminants, DNS record keys,
//! application labels, the decoded-packet value handed in by the capture
//! layer, and dotted-quad address formatting.

use vstd::prelude::*;

verus! {

/// IP protocol numbers the dispatch layer routes on.
#[derive(Debug, Clone, Copy, PartialEq, Eq, Structural)]
pub enum ProtocolType {
    IGMP,
    TCP,
    UDP,
}

/// Which process-wide counter a caller asks the stats aggregator about.
#[derive(Debug, Clone, Copy, PartialEq, Eq, Structural)]
pub enum StatType {
    IPV4,
    IPV6,
    TCP,
    UDP,
    DNS,
    CTX,
}

/// Kind of a stored DNS answer: an address record or an alias record.
#[derive(Debug, Clone, Copy, PartialEq, Eq, Hash, Structural)]
pub enum DnsRecordType {
    A,
    CNAME,
}

/// Application label assigned to a flow. Extensible; `NONE` means unknown.
#[derive(Debug, Clone, Copy, PartialEq, Eq, Structural)]
pub enum AppType {
    NONE,
    WHATSAPP,
}

/// Mathematical identity of a [`DnsRecord`]: kind plus the character
/// sequence of its value.
pub struct DnsKey {
    pub dtype: DnsRecordType,
    pub data: Seq<char>,
}

/// Lookup key of the DNS correlation store: an address string (for `A`)
/// or a domain name (for `CNAME`). Two records are equal exactly when both
/// kind and value match.
#[derive(Debug, Hash)]
pub struct DnsRecord {
    pub data: String,
    pub dtype: DnsRecordType,
}

impl View for DnsRecord {
    type V = DnsKey;

    open spec fn view(&self) -> DnsKey {
        DnsKey { dtype: self.dtype, data: self.data@ }
    }
}

impl PartialEq for DnsRecord {
    fn eq(&self, other: &Self) -> bool {
        self.data == other.data && self.dtype == other.dtype
    }
}

impl vstd::std_specs::cmp::PartialEqSpecImpl for DnsRecord {
    open spec fn obeys_eq_spec() -> bool {
        true
    }

    open spec fn eq_spec(&self, other: &DnsRecord) -> bool {
        self@ == other@
    }
}

/// Mathematical value of a [`QueuePacket`].
pub struct QueuePacketView {
    pub protocol: u8,
    pub source: u32,
    pub destination: u32,
    pub payload_len: u16,
    pub payload: Seq<u8>,
}

/// One decoded IPv4 packet as carried on the dispatch queue: protocol
/// number, source and destination addresses (big-endian numeric form),
/// the header's payload length field, and the raw bytes after the IP header.
#[derive(Debug)]
pub struct QueuePacket {
    pub protocol: u8,
    pub source: u32,
    pub destination: u32,
    pub payload_len: u16,
    pub payload: Vec<u8>,
}

impl View for QueuePacket {
    type V = QueuePacketView;

    open spec fn view(&self) -> QueuePacketView {
        QueuePacketView {
            protocol: self.protocol,
            source: self.source,
            destination: self.destination,
            payload_len: self.payload_len,
            payload: self.payload@,
        }
    }
}

/// Maps an IP protocol number to the protocols this pipeline dispatches on.
pub fn protocol_from_u8(p: u8) -> (r: Option<ProtocolType>)
    ensures
        r == (if p == 2 {
            Some(ProtocolType::IGMP)
        } else if p == 6 {
            Some(ProtocolType::TCP)
        } else if p == 17 {
            Some(ProtocolType::UDP)
        } else {
            None::<ProtocolType>
        }),
{
    if p == 2 {
        Some(ProtocolType::IGMP)
    } else if p == 6 {
        Some(ProtocolType::TCP)
    } else if p == 17 {
        Some(ProtocolType::UDP)
    } else {
        None
    }
}

/// A 16-bit value read big-endian from two bytes.
pub open spec fn be16(hi: u8, lo: u8) -> u16 {
    (hi * 256 + lo) as u16
}

/// The decimal digit `d` as a character.
pub open spec fn digit_char(d: u8) -> char {
    if d == 0 {
        '0'
    } else if d == 1 {
        '1'
    } else if d == 2 {
        '2'
    } else if d == 3 {
        '3'
    } else if d == 4 {
        '4'
    } else if d == 5 {
        '5'
    } else if d == 6 {
        '6'
    } else if d == 7 {
        '7'
    } else if d == 8 {
        '8'
    } else {
        '9'
    }
}

/// Decimal rendering of a byte, without leading zeros.
pub open spec fn dec_of_u8(n: u8) -> Seq<char> {
    if n < 10 {
        seq![digit_char(n)]
    } else if n < 100 {
        seq![digit_char((n / 10) as u8), digit_char((n % 10) as u8)]
    } else {
        seq![
            digit_char((n / 100) as u8),
            digit_char(((n / 10) % 10) as u8),
            digit_char((n % 10) as u8),
        ]
    }
}

/// Dotted-quad rendering of four address bytes.
pub open spec fn ipv4_chars(a: u8, b: u8, c: u8, d: u8) -> Seq<char> {
    dec_of_u8(a) + seq!['.'] + dec_of_u8(b) + seq!['.'] + dec_of_u8(c) + seq!['.'] + dec_of_u8(d)
}

/// Dotted-quad rendering of an address held in big-endian numeric form.
pub open spec fn ipv4_of_u32(addr: u32) -> Seq<char> {
    ipv4_chars(
        (addr / 0x1000000) as u8,
        ((addr / 0x10000) % 256) as u8,
        ((addr / 256) % 256) as u8,
        (addr % 256) as u8,
    )
}

fn digit_str(d: u8) -> (s: &'static str)
    requires
        d < 10,
    ensures
        s@ == seq![digit_char(d)],
{
    match d {
        0 => {
            proof {
                reveal_strlit("0");
                assert("0"@ =~= seq![digit_char(0)]);
            }
            "0"
        },
        1 => {
            proof {
                reveal_strlit("1");
                assert("1"@ =~= seq![digit_char(1)]);
            }
            "1"
        },
        2 => {
            proof {
                reveal_strlit("2");
                assert("2"@ =~= seq![digit_char(2)]);
            }
            "2"
        },
        3 => {
            proof {
                reveal_strlit("3");
                assert("3"@ =~= seq![digit_char(3)]);
            }
            "3"
        },
        4 => {
            proof {
                reveal_strlit("4");
                assert("4"@ =~= seq![digit_char(4)]);
            }
            "4"
        },
        5 => {
            proof {
                reveal_strlit("5");
                assert("5"@ =~= seq![digit_char(5)]);
            }
            "5"
        },
        6 => {
            proof {
                reveal_strlit("6");
                assert("6"@ =~= seq![digit_char(6)]);
            }
            "6"
        },
        7 => {
            proof {
                reveal_strlit("7");
                assert("7"@ =~= seq![digit_char(7)]);
            }
            "7"
        },
        8 => {
            proof {
                reveal_strlit("8");
                assert("8"@ =~= seq![digit_char(8)]);
            }
            "8"
        },
        _ => {
            proof {
                reveal_strlit("9");
                assert("9"@ =~= seq![digit_char(9)]);
            }
            "9"
        },
    }
}

/// Decimal rendering of a byte as an owned string.
pub fn u8_dec_string(n: u8) -> (s: String)
    ensures
        s@ == dec_of_u8(n),
{
    let mut s = String::new();
    if n < 10 {
        s.append(digit_str(n));
        proof {
            assert(s@ =~= dec_of_u8(n));
        }
    } else if n < 100 {
        s.append(digit_str(n / 10));
        s.append(digit_str(n % 10));
        proof {
            assert(s@ =~= dec_of_u8(n));
        }
    } else {
        s.append(digit_str(n / 100));
        s.append(digit_str((n / 10) % 10));
        s.append(digit_str(n % 10));
        proof {
            assert(s@ =~= dec_of_u8(n));
        }
    }
    s
}

/// Dotted-quad string of four address bytes, most significant first.
pub fn _u8_to_ipv4(arr: [u8; 4]) -> (ip: String)
    ensures
        ip@ == ipv4_chars(arr[0], arr[1], arr[2], arr[3]),
{
    proof {
        reveal_strlit(".");
        assert("."@ =~= seq!['.']);
    }
    let mut ip = u8_dec_string(arr[0]);
    ip.append(".");
    let part1 = u8_dec_string(arr[1]);
    ip.append(part1.as_str());
    ip.append(".");
    let part2 = u8_dec_string(arr[2]);
    ip.append(part2.as_str());
    ip.append(".");
    let part3 = u8_dec_string(arr[3]);
    ip.append(part3.as_str());
    proof {
        assert(ip@ =~= ipv4_chars(arr[0], arr[1], arr[2], arr[3]));
    }
    ip
}

/// Dotted-quad string of an address held in big-endian numeric form.
pub fn ipv4_addr_string(addr: u32) -> (s: String)
    ensures
        s@ == ipv4_of_u32(addr),
{
    let o0 = (addr / 0x1000000) as u8;
    let o1 = ((addr / 0x10000) % 256) as u8;
    let o2 = ((addr / 256) % 256) as u8;
    let o3 = (addr % 256) as u8;
    _u8_to_ipv4([o0, o1, o2, o3])
}

} // verus!
