//! Header dissection for the link, network and transport layers, done by
//! `pnet`'s packet views. Each dissector hands back plain values; its
//! contract states, over the raw bytes, what `pnet` reads from them.
use vstd::prelude::*;

use pnet::packet::ethernet::EthernetPacket;
use pnet::packet::icmp::IcmpPacket;
use pnet::packet::icmpv6::Icmpv6Packet;
use pnet::packet::ipv4::Ipv4Packet;
use pnet::packet::ipv6::Ipv6Packet;
use pnet::packet::tcp::TcpPacket;
use pnet::packet::udp::UdpPacket;
use pnet::packet::Packet;

use crate::net::{Ipv4Addr, Ipv6Addr};

verus! {


/// The big-endian 16-bit word at byte offset `i`.
pub open spec fn be16(s: Seq<u8>, i: int) -> u16 {
    ((s[i] as int) * 256 + (s[i + 1] as int)) as u16
}

/// The IPv4 address held by the four bytes at offset `i`.
pub open spec fn ipv4_at(s: Seq<u8>, i: int) -> Ipv4Addr {
    Ipv4Addr { a: s[i], b: s[i + 1], c: s[i + 2], d: s[i + 3] }
}

/// The unsigned big-endian number that the bytes of `s` spell.
pub open spec fn be_number(s: Seq<u8>) -> nat
    decreases s.len(),
{
    if s.len() == 0 {
        0
    } else {
        be_number(s.drop_last()) * 256 + s.last() as nat
    }
}

/// The IPv6 address held by the sixteen bytes at offset `i`.
pub open spec fn ipv6_at(s: Seq<u8>, i: int) -> Ipv6Addr {
    Ipv6Addr { bits: be_number(s.subrange(i, i + 16)) as u128 }
}

/// The IPv6 payload as `pnet` delimits it: the bytes after the fixed
/// 40-byte header, up to the payload length of bytes 4..6, clipped to the
/// bytes actually present. Extension headers are part of it.
pub open spec fn ipv6_payload(s: Seq<u8>) -> Seq<u8> {
    let end = if 40 + be16(s, 4) < s.len() {
        40 + be16(s, 4)
    } else {
        s.len() as int
    };
    if s.len() <= 40 {
        Seq::empty()
    } else {
        s.subrange(40, end)
    }
}

/// IPv4 header length in bytes, from the IHL nibble.
pub open spec fn ipv4_header_len(s: Seq<u8>) -> int {
    (s[0] % 16) as int * 4
}

/// Where `pnet` starts the IPv4 payload: after the options that the IHL
/// announces, and never before the fixed 20-byte header ends.
pub open spec fn ipv4_payload_start(s: Seq<u8>) -> int {
    if ipv4_header_len(s) > 20 {
        ipv4_header_len(s)
    } else {
        20
    }
}

/// The IPv4 payload as `pnet` delimits it: from the end of the header up to
/// the datagram's total length, clipped to the bytes actually present.
pub open spec fn ipv4_payload(s: Seq<u8>) -> Seq<u8> {
    let start = ipv4_payload_start(s);
    let total = be16(s, 2) as int;
    let body = if total >= ipv4_header_len(s) {
        total - ipv4_header_len(s)
    } else {
        0
    };
    let end = if start + body < s.len() {
        start + body
    } else {
        s.len() as int
    };
    if s.len() <= start {
        Seq::empty()
    } else {
        s.subrange(start, end)
    }
}

/// Where the TCP payload starts: after the header that the data offset
/// announces, never before the fixed 20-byte header ends.
pub open spec fn tcp_payload_start(s: Seq<u8>) -> int {
    let data_offset = (s[12] / 16) as int;
    if data_offset > 5 {
        data_offset * 4
    } else {
        20
    }
}

/// The TCP payload: everything after the header.
pub open spec fn tcp_payload(s: Seq<u8>) -> Seq<u8> {
    if s.len() <= tcp_payload_start(s) {
        Seq::empty()
    } else {
        s.skip(tcp_payload_start(s))
    }
}

/// What the Ethernet dissector reads.
pub(crate) struct EthernetFields {
    pub ethertype: u16,
    pub payload: Vec<u8>,
}

/// What the IPv4 dissector reads.
pub(crate) struct Ipv4Fields {
    pub next_level_protocol: u8,
    pub source: Ipv4Addr,
    pub destination: Ipv4Addr,
    pub payload: Vec<u8>,
}

/// What the IPv6 dissector reads.
pub(crate) struct Ipv6Fields {
    pub next_header: u8,
    pub source: Ipv6Addr,
    pub destination: Ipv6Addr,
    pub payload: Vec<u8>,
}

/// What the TCP dissector reads.
pub(crate) struct TcpFields {
    pub source: u16,
    pub destination: u16,
    pub flags: u8,
    pub payload: Vec<u8>,
}

/// What the UDP dissector reads.
pub(crate) struct UdpFields {
    pub source: u16,
    pub destination: u16,
    pub payload: Vec<u8>,
}

/// Views `frame` as an Ethernet II frame with `pnet`'s `EthernetPacket::new`,
/// then reads `get_ethertype` and `payload`.
/// Claimed: the view exists exactly when the frame holds the 14-byte header;
/// the EtherType is the big-endian word at offset 12 and the payload is
/// every byte after the header.
#[verifier::external_body]
pub(crate) fn dissect_ethernet(frame: &[u8]) -> (r: Option<EthernetFields>)
    ensures
        r is Some <==> frame@.len() >= 14,
        r matches Some(f) ==> {
            &&& f.ethertype == be16(frame@, 12)
            &&& f.payload@ == frame@.skip(14)
        },
{
    match EthernetPacket::new(frame) {
        Some(p) => Some(EthernetFields { ethertype: p.get_ethertype().0, payload: p.payload().to_vec() }),
        None => None,
    }
}

/// Views `datagram` as an IPv4 header with `pnet`'s `Ipv4Packet::new`, then
/// reads `get_next_level_protocol`, `get_source`, `get_destination` and
/// `payload`.
/// Claimed: the view exists exactly when 20 bytes are present; the protocol
/// is byte 9, the addresses are bytes 12..16 and 16..20, and the payload is
/// `ipv4_payload` (header length and total length honoured, clipped to the
/// buffer).
#[verifier::external_body]
pub(crate) fn dissect_ipv4(datagram: &[u8]) -> (r: Option<Ipv4Fields>)
    ensures
        r is Some <==> datagram@.len() >= 20,
        r matches Some(f) ==> {
            &&& f.next_level_protocol == datagram@[9]
            &&& f.source == ipv4_at(datagram@, 12)
            &&& f.destination == ipv4_at(datagram@, 16)
            &&& f.payload@ == ipv4_payload(datagram@)
        },
{
    match Ipv4Packet::new(datagram) {
        Some(p) => {
            let (s, d) = (p.get_source().octets(), p.get_destination().octets());
            Some(Ipv4Fields {
                next_level_protocol: p.get_next_level_protocol().0,
                source: Ipv4Addr { a: s[0], b: s[1], c: s[2], d: s[3] },
                destination: Ipv4Addr { a: d[0], b: d[1], c: d[2], d: d[3] },
                payload: p.payload().to_vec(),
            })
        },
        None => None,
    }
}

/// Views `datagram` as an IPv6 header with `pnet`'s `Ipv6Packet::new`, then
/// reads `get_next_header`, `get_source`, `get_destination` and `payload`;
/// each address is turned into its 128-bit big-endian number.
/// Claimed: the view exists exactly when the 40-byte fixed header is
/// present; the next header is byte 6, the addresses are bytes 8..24 and
/// 24..40, and the payload is `ipv6_payload` (payload length honoured,
/// clipped to the buffer; extension headers are not followed).
#[verifier::external_body]
pub(crate) fn dissect_ipv6(datagram: &[u8]) -> (r: Option<Ipv6Fields>)
    ensures
        r is Some <==> datagram@.len() >= 40,
        r matches Some(f) ==> {
            &&& f.next_header == datagram@[6]
            &&& f.source == ipv6_at(datagram@, 8)
            &&& f.destination == ipv6_at(datagram@, 24)
            &&& f.payload@ == ipv6_payload(datagram@)
        },
{
    match Ipv6Packet::new(datagram) {
        Some(p) => Some(Ipv6Fields {
            next_header: p.get_next_header().0,
            source: Ipv6Addr { bits: u128::from(p.get_source()) },
            destination: Ipv6Addr { bits: u128::from(p.get_destination()) },
            payload: p.payload().to_vec(),
        }),
        None => None,
    }
}

/// Views `segment` as a TCP header with `pnet`'s `TcpPacket::new`, then reads
/// `get_source`, `get_destination`, `get_flags` and `payload`.
/// Claimed: the view exists exactly when 20 bytes are present; the ports are
/// the big-endian words at offsets 0 and 2, the flags are byte 13, and the
/// payload is everything after the header that the data offset announces.
#[verifier::external_body]
pub(crate) fn dissect_tcp(segment: &[u8]) -> (r: Option<TcpFields>)
    ensures
        r is Some <==> segment@.len() >= 20,
        r matches Some(f) ==> {
            &&& f.source == be16(segment@, 0)
            &&& f.destination == be16(segment@, 2)
            &&& f.flags == segment@[13]
            &&& f.payload@ == tcp_payload(segment@)
        },
{
    match TcpPacket::new(segment) {
        Some(p) => Some(TcpFields {
            source: p.get_source(),
            destination: p.get_destination(),
            flags: p.get_flags(),
            payload: p.payload().to_vec(),
        }),
        None => None,
    }
}

/// Views `datagram` as a UDP header with `pnet`'s `UdpPacket::new`, then reads
/// `get_source`, `get_destination` and `payload`.
/// Claimed: the view exists exactly when the 8-byte header is present; the
/// ports are the big-endian words at offsets 0 and 2 and the payload is every
/// byte after the header (the UDP length field is not consulted).
#[verifier::external_body]
pub(crate) fn dissect_udp(datagram: &[u8]) -> (r: Option<UdpFields>)
    ensures
        r is Some <==> datagram@.len() >= 8,
        r matches Some(f) ==> {
            &&& f.source == be16(datagram@, 0)
            &&& f.destination == be16(datagram@, 2)
            &&& f.payload@ == datagram@.skip(8)
        },
{
    match UdpPacket::new(datagram) {
        Some(p) => Some(UdpFields {
            source: p.get_source(),
            destination: p.get_destination(),
            payload: p.payload().to_vec(),
        }),
        None => None,
    }
}

/// Views `message` as an ICMP header with `pnet`'s `IcmpPacket::new`, then
/// reads `payload`.
/// Claimed: the view exists exactly when the 4-byte type/code/checksum
/// header is present, and the payload is every byte after it.
#[verifier::external_body]
pub(crate) fn dissect_control_message(message: &[u8]) -> (r: Option<Vec<u8>>)
    ensures
        r is Some <==> message@.len() >= 4,
        r matches Some(payload) ==> payload@ == message@.skip(4),
{
    match IcmpPacket::new(message) {
        Some(p) => Some(p.payload().to_vec()),
        None => None,
    }
}

/// Views `message` as an ICMPv6 header with `pnet`'s `Icmpv6Packet::new`,
/// then reads `payload`.
/// Claimed: the view exists exactly when the 4-byte type/code/checksum
/// header is present, and the payload is every byte after it.
#[verifier::external_body]
pub(crate) fn dissect_control_message_v6(message: &[u8]) -> (r: Option<Vec<u8>>)
    ensures
        r is Some <==> message@.len() >= 4,
        r matches Some(payload) ==> payload@ == message@.skip(4),
{
    match Icmpv6Packet::new(message) {
        Some(p) => Some(p.payload().to_vec()),
        None => None,
    }
}

} // verus!
