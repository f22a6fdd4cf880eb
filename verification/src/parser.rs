//! Turns raw Ethernet frames into packet summaries: source and destination
//! address, ports, transport protocol, TCP flags and payload length.
use vstd::prelude::*;

use crate::net::IpAddr;
use crate::wire::{
    be16, dissect_control_message, dissect_control_message_v6, dissect_ethernet, dissect_ipv4, dissect_ipv6,
    dissect_tcp, dissect_udp, ipv4_at, ipv4_payload, ipv6_at, ipv6_payload, tcp_payload,
};

verus! {

/// Microseconds in one second; frame timestamps are counted in microseconds.
pub const MICROS_PER_SEC: i64 = 1_000_000;

/// EtherType of an IPv4 payload.
pub const ETHERTYPE_IPV4: u16 = 0x0800;

/// EtherType of an IPv6 payload.
pub const ETHERTYPE_IPV6: u16 = 0x86DD;

/// IP protocol numbers that the dissector handles specially (1 is ICMP).
pub const IP_PROTO_CONTROL: u8 = 1;

/// The IPv6 next-header number of ICMPv6.
pub const IP_PROTO_CONTROL_V6: u8 = 58;

pub const IP_PROTO_TCP: u8 = 6;

pub const IP_PROTO_UDP: u8 = 17;

/// Transport protocol carried by an IP datagram.
#[derive(Debug, Clone, Copy, PartialEq, Eq, Hash, Structural)]
pub enum Protocol {
    Tcp,
    Udp,
    Icmp,
    /// Any other IP protocol, by number.
    Other(u8),
}

/// The TCP control flags the detectors look at.
#[derive(Debug, Clone, Copy, PartialEq, Eq, Structural)]
pub struct TcpFlags {
    pub syn: bool,
    pub ack: bool,
    pub fin: bool,
    pub rst: bool,
}

impl Default for TcpFlags {
    /// No flag set.
    fn default() -> (f: TcpFlags)
        ensures
            f == (TcpFlags { syn: false, ack: false, fin: false, rst: false }),
    {
        TcpFlags { syn: false, ack: false, fin: false, rst: false }
    }
}

/// One dissected IP packet.
#[derive(Debug, Clone, Copy)]
pub struct PacketSummary {
    pub timestamp_micros: i64,
    pub src_ip: IpAddr,
    pub dst_ip: IpAddr,
    pub src_port: Option<u16>,
    pub dst_port: Option<u16>,
    pub protocol: Protocol,
    pub tcp_flags: Option<TcpFlags>,
    pub payload_len: usize,
}

/// The control flags held by a TCP flags byte (FIN, SYN, RST and ACK are
/// bits 0, 1, 2 and 4).
pub open spec fn flags_of(b: u8) -> TcpFlags {
    TcpFlags { syn: b & 2 != 0, ack: b & 16 != 0, fin: b & 1 != 0, rst: b & 4 != 0 }
}

/// The number of bytes of `s` after its first `header` bytes, as a `usize`.
pub open spec fn len_after(s: Seq<u8>, header: int) -> usize {
    (s.len() - header) as usize
}

/// The summary of an IP packet from `src` to `dst` seen at `ts`, whose
/// transport protocol is `proto` and whose IP payload is `body`; `control`
/// is the number under which the IP version carries its control messages
/// (ICMP or ICMPv6). `None` when the transport header is cut short.
pub open spec fn summarize_transport(
    src: IpAddr,
    dst: IpAddr,
    proto: u8,
    control: u8,
    body: Seq<u8>,
    ts: i64,
) -> Option<PacketSummary> {
    if proto == IP_PROTO_TCP {
        if body.len() < 20 {
            None
        } else {
            Some(PacketSummary {
                timestamp_micros: ts,
                src_ip: src,
                dst_ip: dst,
                src_port: Some(be16(body, 0)),
                dst_port: Some(be16(body, 2)),
                protocol: Protocol::Tcp,
                tcp_flags: Some(flags_of(body[13])),
                payload_len: len_after(tcp_payload(body), 0),
            })
        }
    } else if proto == IP_PROTO_UDP {
        if body.len() < 8 {
            None
        } else {
            Some(PacketSummary {
                timestamp_micros: ts,
                src_ip: src,
                dst_ip: dst,
                src_port: Some(be16(body, 0)),
                dst_port: Some(be16(body, 2)),
                protocol: Protocol::Udp,
                tcp_flags: None,
                payload_len: len_after(body, 8),
            })
        }
    } else if proto == control {
        if body.len() < 4 {
            None
        } else {
            Some(PacketSummary {
                timestamp_micros: ts,
                src_ip: src,
                dst_ip: dst,
                src_port: None,
                dst_port: None,
                protocol: Protocol::Icmp,
                tcp_flags: None,
                payload_len: len_after(body, 4),
            })
        }
    } else {
        Some(PacketSummary {
            timestamp_micros: ts,
            src_ip: src,
            dst_ip: dst,
            src_port: None,
            dst_port: None,
            protocol: Protocol::Other(proto),
            tcp_flags: None,
            payload_len: len_after(body, 0),
        })
    }
}

/// The summary of an IPv4 datagram `ip` (header included) seen at `ts`.
pub open spec fn summarize_ipv4(ip: Seq<u8>, ts: i64) -> Option<PacketSummary> {
    summarize_transport(IpAddr::V4(ipv4_at(ip, 12)), IpAddr::V4(ipv4_at(ip, 16)), ip[9], IP_PROTO_CONTROL, ipv4_payload(ip), ts)
}

/// The summary of an IPv6 packet `ip` (fixed header included) seen at `ts`;
/// the next header of the fixed header is taken as the transport protocol.
pub open spec fn summarize_ipv6(ip: Seq<u8>, ts: i64) -> Option<PacketSummary> {
    summarize_transport(
        IpAddr::V6(ipv6_at(ip, 8)),
        IpAddr::V6(ipv6_at(ip, 24)),
        ip[6],
        IP_PROTO_CONTROL_V6,
        ipv6_payload(ip),
        ts,
    )
}

/// What `parse_frame` makes of the bytes `raw` captured at `ts`: Ethernet
/// frames carrying IPv4 or IPv6 are summarized; other EtherTypes and
/// truncated headers give `None`.
pub open spec fn spec_parse_frame(raw: Seq<u8>, ts: i64) -> Option<PacketSummary> {
    if raw.len() < 14 {
        None
    } else if be16(raw, 12) == ETHERTYPE_IPV4 {
        if raw.skip(14).len() < 20 {
            None
        } else {
            summarize_ipv4(raw.skip(14), ts)
        }
    } else if be16(raw, 12) == ETHERTYPE_IPV6 {
        if raw.skip(14).len() < 40 {
            None
        } else {
            summarize_ipv6(raw.skip(14), ts)
        }
    } else {
        None
    }
}

/// Every summary keeps the frame's timestamp and comes from an IPv4 frame
/// of at least 34 bytes, with IPv4 addresses, or from an IPv6 frame of at
/// least 54 bytes, with IPv6 addresses; it has TCP flags exactly when it is
/// TCP, ports exactly when it is TCP or UDP, and `Other` never names TCP,
/// UDP or the control-message protocol of its IP version.
pub proof fn law_summary_shape(raw: Seq<u8>, ts: i64)
    ensures
        spec_parse_frame(raw, ts) matches Some(p) ==> {
            &&& p.timestamp_micros == ts
            &&& be16(raw, 12) == ETHERTYPE_IPV4 || be16(raw, 12) == ETHERTYPE_IPV6
            &&& be16(raw, 12) == ETHERTYPE_IPV4 ==> raw.len() >= 34 && p.src_ip is V4 && p.dst_ip is V4
            &&& be16(raw, 12) == ETHERTYPE_IPV6 ==> raw.len() >= 54 && p.src_ip is V6 && p.dst_ip is V6
            &&& (p.tcp_flags is Some <==> p.protocol == Protocol::Tcp)
            &&& (p.src_port is Some <==> (p.protocol == Protocol::Tcp || p.protocol == Protocol::Udp))
            &&& (p.dst_port is Some <==> p.src_port is Some)
            &&& (p.protocol matches Protocol::Other(n) ==> n != IP_PROTO_TCP && n != IP_PROTO_UDP)
            &&& (p.protocol matches Protocol::Other(n) ==> (be16(raw, 12) == ETHERTYPE_IPV4 ==> n
                != IP_PROTO_CONTROL) && (be16(raw, 12) == ETHERTYPE_IPV6 ==> n != IP_PROTO_CONTROL_V6))
        },
        raw.len() >= 14 && be16(raw, 12) != ETHERTYPE_IPV4 && be16(raw, 12) != ETHERTYPE_IPV6 ==> spec_parse_frame(
            raw,
            ts,
        ) is None,
{
}

/// The TCP flags of a summary are read from the flags byte of the TCP
/// header (byte 13 of the IP payload) bit by bit: FIN is bit 0, SYN bit 1,
/// RST bit 2 and ACK bit 4. For an IPv4 header without options that byte is
/// byte 47 of the frame; for IPv6 it is byte 67.
pub proof fn law_tcp_flags_from_bytes(raw: Seq<u8>, ts: i64)
    ensures
        spec_parse_frame(raw, ts) matches Some(p) ==> (p.tcp_flags is Some <==> p.protocol == Protocol::Tcp),
        spec_parse_frame(raw, ts) matches Some(p) ==> p.tcp_flags matches Some(f) ==> {
            let b = if be16(raw, 12) == ETHERTYPE_IPV4 {
                ipv4_payload(raw.skip(14))[13]
            } else {
                ipv6_payload(raw.skip(14))[13]
            };
            &&& f.fin == (b & 1 != 0)
            &&& f.syn == (b & 2 != 0)
            &&& f.rst == (b & 4 != 0)
            &&& f.ack == (b & 16 != 0)
        },
        spec_parse_frame(raw, ts) matches Some(p) ==> p.tcp_flags matches Some(f) ==> (be16(raw, 12)
            == ETHERTYPE_IPV4 && raw[14] == 0x45 ==> {
            &&& f.fin == (raw[47] & 1 != 0)
            &&& f.syn == (raw[47] & 2 != 0)
            &&& f.rst == (raw[47] & 4 != 0)
            &&& f.ack == (raw[47] & 16 != 0)
        }),
        spec_parse_frame(raw, ts) matches Some(p) ==> p.tcp_flags matches Some(f) ==> (be16(raw, 12)
            == ETHERTYPE_IPV6 ==> {
            &&& f.fin == (raw[67] & 1 != 0)
            &&& f.syn == (raw[67] & 2 != 0)
            &&& f.rst == (raw[67] & 4 != 0)
            &&& f.ack == (raw[67] & 16 != 0)
        }),
{
    if let Some(p) = spec_parse_frame(raw, ts) {
        if p.tcp_flags is Some {
            let ip = raw.skip(14);
            if be16(raw, 12) == ETHERTYPE_IPV4 {
                let body = ipv4_payload(ip);
                assert(body.len() >= 20);
                assert(p.tcp_flags == Some(flags_of(body[13])));
                if raw[14] == 0x45 {
                    assert(ip[0] == 0x45);
                    assert(ip[0] % 16 == 5);
                    assert(body[13] == ip[33]);
                    assert(ip[33] == raw[47]);
                }
            } else {
                assert(be16(raw, 12) == ETHERTYPE_IPV6);
                let body = ipv6_payload(ip);
                assert(body.len() >= 20);
                assert(p.tcp_flags == Some(flags_of(body[13])));
                assert(body[13] == ip[53]);
                assert(ip[53] == raw[67]);
            }
        }
    }
}

/// Summarizes the transport layer of an IP packet from `src_ip` to
/// `dst_ip` whose protocol is `proto` and whose IP payload is `body`;
/// `v6` tells which IP version's control-message protocol applies.
fn summarize_transport_exec(
    src_ip: IpAddr,
    dst_ip: IpAddr,
    proto: u8,
    v6: bool,
    body: &[u8],
    timestamp_micros: i64,
) -> (res: Option<PacketSummary>)
    ensures
        res == summarize_transport(
            src_ip,
            dst_ip,
            proto,
            if v6 {
                IP_PROTO_CONTROL_V6
            } else {
                IP_PROTO_CONTROL
            },
            body@,
            timestamp_micros,
        ),
{
    let control = if v6 {
        IP_PROTO_CONTROL_V6
    } else {
        IP_PROTO_CONTROL
    };
    if proto == IP_PROTO_TCP {
        let tcp = match dissect_tcp(body) {
            Some(t) => t,
            None => return None,
        };
        let flags = tcp.flags;
        Some(PacketSummary {
            timestamp_micros,
            src_ip,
            dst_ip,
            src_port: Some(tcp.source),
            dst_port: Some(tcp.destination),
            protocol: Protocol::Tcp,
            tcp_flags: Some(
                TcpFlags {
                    syn: flags & 2 != 0,
                    ack: flags & 16 != 0,
                    fin: flags & 1 != 0,
                    rst: flags & 4 != 0,
                },
            ),
            payload_len: tcp.payload.len(),
        })
    } else if proto == IP_PROTO_UDP {
        let udp = match dissect_udp(body) {
            Some(u) => u,
            None => return None,
        };
        Some(PacketSummary {
            timestamp_micros,
            src_ip,
            dst_ip,
            src_port: Some(udp.source),
            dst_port: Some(udp.destination),
            protocol: Protocol::Udp,
            tcp_flags: None,
            payload_len: udp.payload.len(),
        })
    } else if proto == control {
        let message = if v6 {
            dissect_control_message_v6(body)
        } else {
            dissect_control_message(body)
        };
        let message_payload = match message {
            Some(p) => p,
            None => return None,
        };
        Some(PacketSummary {
            timestamp_micros,
            src_ip,
            dst_ip,
            src_port: None,
            dst_port: None,
            protocol: Protocol::Icmp,
            tcp_flags: None,
            payload_len: message_payload.len(),
        })
    } else {
        Some(PacketSummary {
            timestamp_micros,
            src_ip,
            dst_ip,
            src_port: None,
            dst_port: None,
            protocol: Protocol::Other(proto),
            tcp_flags: None,
            payload_len: body.len(),
        })
    }
}

/// Dissects an Ethernet frame carrying IPv4 or IPv6 down to its transport
/// header. IPv6 extension headers are not followed: the fixed header's next
/// header is taken as the transport protocol.
pub fn parse_frame(raw: &[u8], timestamp_micros: i64) -> (res: Option<PacketSummary>)
    ensures
        res == spec_parse_frame(raw@, timestamp_micros),
{
    let ethernet = match dissect_ethernet(raw) {
        Some(e) => e,
        None => return None,
    };
    if ethernet.ethertype == ETHERTYPE_IPV4 {
        let ipv4 = match dissect_ipv4(ethernet.payload.as_slice()) {
            Some(i) => i,
            None => return None,
        };
        summarize_transport_exec(
            IpAddr::V4(ipv4.source),
            IpAddr::V4(ipv4.destination),
            ipv4.next_level_protocol,
            false,
            ipv4.payload.as_slice(),
            timestamp_micros,
        )
    } else if ethernet.ethertype == ETHERTYPE_IPV6 {
        let ipv6 = match dissect_ipv6(ethernet.payload.as_slice()) {
            Some(i) => i,
            None => return None,
        };
        summarize_transport_exec(
            IpAddr::V6(ipv6.source),
            IpAddr::V6(ipv6.destination),
            ipv6.next_header,
            true,
            ipv6.payload.as_slice(),
            timestamp_micros,
        )
    } else {
        None
    }
}

} // verus!
