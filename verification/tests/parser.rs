use rustsentry::net::{IpAddr, Ipv4Addr, Ipv6Addr};
use rustsentry::parser::{parse_frame, Protocol, TcpFlags, MICROS_PER_SEC};

// One real TCP frame from a capture:
//   10.10.10.20.49156 > 10.10.10.10.102: Flags [P.], win 8192, length 99
const RAW_TCP_FRAME: [u8; 153] = [
    0x28, 0x63, 0x36, 0x89, 0x59, 0x82, 0x00, 0x1c, 0x06, 0x27, 0x64, 0x11,
    0x08, 0x00, 0x45, 0x00, 0x00, 0x8b, 0x16, 0x57, 0x00, 0x00, 0x1e, 0x06,
    0x5d, 0xe5, 0x0a, 0x0a, 0x0a, 0x14, 0x0a, 0x0a, 0x0a, 0x0a, 0xc0, 0x04,
    0x00, 0x66, 0x00, 0x05, 0x10, 0x07, 0x00, 0x04, 0x07, 0x4e, 0x50, 0x18,
    0x20, 0x00, 0xfc, 0xda, 0x00, 0x00, 0x03, 0x00, 0x00, 0x63, 0x02, 0xf0,
    0x80, 0x32, 0x01, 0x00, 0x00, 0x01, 0x91, 0x00, 0x52, 0x00, 0x00, 0x04,
    0x05, 0x12, 0x0e, 0xb2, 0xff, 0x00, 0x00, 0x00, 0x52, 0xea, 0x2d, 0xb0,
    0xd9, 0x40, 0x00, 0x00, 0x10, 0x12, 0x0e, 0xb2, 0xff, 0x00, 0x00, 0x00,
    0x52, 0x78, 0x04, 0x1f, 0x0f, 0x40, 0x00, 0x00, 0x11, 0x12, 0x0e, 0xb2,
    0xff, 0x00, 0x00, 0x00, 0x52, 0x6b, 0x12, 0x23, 0xfc, 0x40, 0x00, 0x00,
    0x12, 0x12, 0x0e, 0xb2, 0xff, 0x00, 0x00, 0x00, 0x52, 0xf9, 0x3b, 0x8c,
    0x2a, 0x40, 0x00, 0x00, 0x13, 0x12, 0x0e, 0xb2, 0xff, 0x00, 0x00, 0x00,
    0x52, 0x4d, 0x3e, 0x5a, 0x1a, 0x40, 0x00, 0x00, 0x14,
];

// A DNS query: 192.168.88.61.949 > 192.168.88.1.53, 31 bytes of payload.
const RAW_UDP_FRAME: [u8; 73] = [
    0x00, 0x07, 0x7c, 0x1a, 0x61, 0x83, 0x00, 0x90, 0xe8, 0x27, 0x8c, 0x37,
    0x08, 0x00, 0x45, 0x00, 0x00, 0x3b, 0xaf, 0x10, 0x00, 0x00, 0x40, 0x11,
    0x9a, 0x12, 0xc0, 0xa8, 0x58, 0x3d, 0xc0, 0xa8, 0x58, 0x01, 0x03, 0xb5,
    0x00, 0x35, 0x00, 0x27, 0xf4, 0x5d, 0xab, 0x26, 0x01, 0x00, 0x00, 0x01,
    0x00, 0x00, 0x00, 0x00, 0x00, 0x00, 0x04, 0x74, 0x69, 0x6d, 0x65, 0x04,
    0x6e, 0x69, 0x73, 0x74, 0x03, 0x67, 0x6f, 0x76, 0x00, 0x00, 0x01, 0x00,
    0x01,
];

// A destination-unreachable message: 192.168.89.1 > 192.168.89.2, 63 bytes.
const RAW_ICMP_FRAME: [u8; 97] = [
    0x70, 0x71, 0xbc, 0x3a, 0x0d, 0xe8, 0x00, 0x0a, 0xdc, 0x64, 0x85, 0xc2,
    0x08, 0x00, 0x45, 0xc0, 0x00, 0x53, 0xd4, 0x03, 0x00, 0x00, 0x40, 0x01,
    0x72, 0x92, 0xc0, 0xa8, 0x59, 0x01, 0xc0, 0xa8, 0x59, 0x02, 0x03, 0x00,
    0x26, 0xef, 0x00, 0x00, 0x00, 0x00, 0x45, 0x00, 0x00, 0x37, 0x00, 0x00,
    0x40, 0x00, 0x40, 0x11, 0x10, 0xfc, 0xc0, 0xa8, 0x59, 0x02, 0x08, 0x08,
    0x08, 0x08, 0x2e, 0x71, 0x00, 0x35, 0x00, 0x23, 0x6e, 0xdc, 0x80, 0x4a,
    0x00, 0x00, 0x00, 0x01, 0x00, 0x00, 0x00, 0x00, 0x00, 0x00, 0x09, 0x6c,
    0x6f, 0x63, 0x61, 0x6c, 0x68, 0x6f, 0x73, 0x74, 0x00, 0x00, 0x01, 0x00,
    0x01,
];

// Hand-built Ethernet + IPv4 header carrying protocol 47 (GRE), no payload.
const RAW_OTHER_PROTO_FRAME: [u8; 34] = [
    0x00, 0x11, 0x22, 0x33, 0x44, 0x55,
    0x66, 0x77, 0x88, 0x99, 0xaa, 0xbb,
    0x08, 0x00,
    0x45, 0x00,
    0x00, 0x14,
    0x00, 0x00,
    0x00, 0x00,
    0x40,
    0x2f,
    0x00, 0x00,
    0x0a, 0x00, 0x00, 0x01,
    0x0a, 0x00, 0x00, 0x02,
];

#[test]
fn parses_real_tcp_frame() {
    let summary = parse_frame(&RAW_TCP_FRAME, 1_234).expect("frame should parse");

    assert_eq!(summary.timestamp_micros, 1_234);
    assert_eq!(summary.src_ip, IpAddr::V4(Ipv4Addr::new(10, 10, 10, 20)));
    assert_eq!(summary.dst_ip, IpAddr::V4(Ipv4Addr::new(10, 10, 10, 10)));
    assert_eq!(summary.src_port, Some(49156));
    assert_eq!(summary.dst_port, Some(102));
    assert_eq!(summary.protocol, Protocol::Tcp);
    assert_eq!(
        summary.tcp_flags,
        Some(TcpFlags {
            syn: false,
            ack: true,
            fin: false,
            rst: false,
        })
    );
    assert_eq!(summary.payload_len, 99);
}

#[test]
fn parses_real_udp_frame() {
    let summary = parse_frame(&RAW_UDP_FRAME, 5_678).expect("frame should parse");

    assert_eq!(summary.timestamp_micros, 5_678);
    assert_eq!(summary.src_ip, IpAddr::V4(Ipv4Addr::new(192, 168, 88, 61)));
    assert_eq!(summary.dst_ip, IpAddr::V4(Ipv4Addr::new(192, 168, 88, 1)));
    assert_eq!(summary.src_port, Some(949));
    assert_eq!(summary.dst_port, Some(53));
    assert_eq!(summary.protocol, Protocol::Udp);
    assert_eq!(summary.tcp_flags, None);
    assert_eq!(summary.payload_len, 31);
}

#[test]
fn parses_real_icmp_frame() {
    let summary = parse_frame(&RAW_ICMP_FRAME, 9_012).expect("frame should parse");

    assert_eq!(summary.timestamp_micros, 9_012);
    assert_eq!(summary.src_ip, IpAddr::V4(Ipv4Addr::new(192, 168, 89, 1)));
    assert_eq!(summary.dst_ip, IpAddr::V4(Ipv4Addr::new(192, 168, 89, 2)));
    assert_eq!(summary.src_port, None);
    assert_eq!(summary.dst_port, None);
    assert_eq!(summary.protocol, Protocol::Icmp);
    assert_eq!(summary.tcp_flags, None);
    assert_eq!(summary.payload_len, 59);
}

#[test]
fn parses_frame_with_unhandled_ip_protocol() {
    let summary = parse_frame(&RAW_OTHER_PROTO_FRAME, 3_456).expect("frame should parse");

    assert_eq!(summary.timestamp_micros, 3_456);
    assert_eq!(summary.src_ip, IpAddr::V4(Ipv4Addr::new(10, 0, 0, 1)));
    assert_eq!(summary.dst_ip, IpAddr::V4(Ipv4Addr::new(10, 0, 0, 2)));
    assert_eq!(summary.src_port, None);
    assert_eq!(summary.dst_port, None);
    assert_eq!(summary.protocol, Protocol::Other(47));
    assert_eq!(summary.tcp_flags, None);
    assert_eq!(summary.payload_len, 0);
}

/// Ethernet + IPv6 from 2001:db8::1 to 2001:db8::2 with the given next
/// header and payload length field, followed by `body`.
fn ipv6_frame(next_header: u8, payload_length: u16, body: &[u8]) -> Vec<u8> {
    let mut frame = vec![
        0x00, 0x11, 0x22, 0x33, 0x44, 0x55, 0x66, 0x77, 0x88, 0x99, 0xaa, 0xbb, // MACs
        0x86, 0xdd, // ethertype: IPv6
        0x60, 0x00, 0x00, 0x00, // version, traffic class, flow label
    ];
    frame.extend_from_slice(&payload_length.to_be_bytes());
    frame.push(next_header);
    frame.push(64); // hop limit
    frame.extend_from_slice(&[0x20, 0x01, 0x0d, 0xb8, 0, 0, 0, 0, 0, 0, 0, 0, 0, 0, 0, 0x01]);
    frame.extend_from_slice(&[0x20, 0x01, 0x0d, 0xb8, 0, 0, 0, 0, 0, 0, 0, 0, 0, 0, 0, 0x02]);
    frame.extend_from_slice(body);
    frame
}

/// TCP header from port 49156 to port 80 with SYN and ACK set, then five
/// payload bytes.
const TCP_SYN_ACK_SEGMENT: [u8; 25] = [
    0xc0, 0x04, 0x00, 0x50, 0, 0, 0, 1, 0, 0, 0, 0, 0x50, 0x12, 0x20, 0x00, 0, 0, 0, 0, // header
    1, 2, 3, 4, 5, // payload
];

fn v6(raw: &[u8], at: usize) -> IpAddr {
    let mut octets = [0u8; 16];
    octets.copy_from_slice(&raw[at..at + 16]);
    IpAddr::V6(Ipv6Addr {
        bits: u128::from_be_bytes(octets),
    })
}

#[test]
fn parses_ipv6_tcp_frame() {
    let raw = ipv6_frame(6, 25, &TCP_SYN_ACK_SEGMENT);
    let summary = parse_frame(&raw, 77).expect("frame should parse");
    assert_eq!(summary.timestamp_micros, 77);
    assert_eq!(summary.src_ip, v6(&raw, 22));
    assert_eq!(summary.dst_ip, v6(&raw, 38));
    assert_eq!(
        summary.src_ip,
        IpAddr::V6(Ipv6Addr {
            bits: 0x2001_0db8_0000_0000_0000_0000_0000_0001
        })
    );
    assert_eq!(
        summary.dst_ip,
        IpAddr::V6(Ipv6Addr {
            bits: 0x2001_0db8_0000_0000_0000_0000_0000_0002
        })
    );
    assert_eq!(summary.src_port, Some(u16::from_be_bytes([raw[54], raw[55]])));
    assert_eq!(summary.dst_port, Some(u16::from_be_bytes([raw[56], raw[57]])));
    assert_eq!(summary.src_port, Some(49156));
    assert_eq!(summary.dst_port, Some(80));
    assert_eq!(summary.protocol, Protocol::Tcp);
    assert_eq!(
        summary.tcp_flags,
        Some(TcpFlags {
            syn: true,
            ack: true,
            fin: false,
            rst: false,
        })
    );
    assert_eq!(summary.payload_len, 5);
}

#[test]
fn parses_ipv6_udp_frame() {
    let body = [0x03, 0xb5, 0x00, 0x35, 0x00, 0x0b, 0, 0, 9, 8, 7];
    let raw = ipv6_frame(17, 11, &body);
    let summary = parse_frame(&raw, 5).expect("frame should parse");
    assert_eq!(summary.src_ip, v6(&raw, 22));
    assert_eq!(summary.dst_ip, v6(&raw, 38));
    assert_eq!(summary.src_port, Some(949));
    assert_eq!(summary.dst_port, Some(53));
    assert_eq!(summary.protocol, Protocol::Udp);
    assert_eq!(summary.tcp_flags, None);
    assert_eq!(summary.payload_len, 3);
}

#[test]
fn parses_icmpv6_frame_as_icmp() {
    // Echo request: type 128, code 0, checksum, then 4 body bytes.
    let body = [128, 0, 0, 0, 0, 1, 0, 2];
    let raw = ipv6_frame(58, 8, &body);
    let summary = parse_frame(&raw, 6).expect("frame should parse");
    assert_eq!(summary.src_ip, v6(&raw, 22));
    assert_eq!(summary.protocol, Protocol::Icmp);
    assert_eq!(summary.src_port, None);
    assert_eq!(summary.dst_port, None);
    assert_eq!(summary.tcp_flags, None);
    assert_eq!(summary.payload_len, 4);
}

#[test]
fn ipv6_next_header_one_is_not_icmp() {
    // Protocol 1 is ICMP for IPv4 only; over IPv6 it is just a number.
    let raw = ipv6_frame(1, 4, &[0, 0, 0, 0]);
    let summary = parse_frame(&raw, 6).expect("frame should parse");
    assert_eq!(summary.protocol, Protocol::Other(1));
    assert_eq!(summary.payload_len, 4);
}

#[test]
fn ipv6_extension_header_is_reported_as_other() {
    // Hop-by-hop options (0) in front of TCP: extension headers are not
    // followed.
    let mut body = vec![6, 0, 0, 0, 0, 0, 0, 0];
    body.extend_from_slice(&TCP_SYN_ACK_SEGMENT);
    let raw = ipv6_frame(0, 33, &body);
    let summary = parse_frame(&raw, 6).expect("frame should parse");
    assert_eq!(summary.protocol, Protocol::Other(0));
    assert_eq!(summary.src_port, None);
    assert_eq!(summary.payload_len, 33);
}

#[test]
fn ipv6_payload_length_bounds_the_payload() {
    // The header announces 22 payload bytes: 20 of TCP header and 2 of data.
    let raw = ipv6_frame(6, 22, &TCP_SYN_ACK_SEGMENT);
    assert_eq!(parse_frame(&raw, 1).expect("frame should parse").payload_len, 2);
    // It announces more than is present: the payload stops at the buffer.
    let raw = ipv6_frame(6, 1000, &TCP_SYN_ACK_SEGMENT);
    assert_eq!(parse_frame(&raw, 1).expect("frame should parse").payload_len, 5);
    // It announces less than a TCP header: the segment is cut short.
    let raw = ipv6_frame(6, 19, &TCP_SYN_ACK_SEGMENT);
    assert!(parse_frame(&raw, 1).is_none());
}

#[test]
fn truncated_ipv6_header_is_skipped() {
    let raw = ipv6_frame(6, 25, &TCP_SYN_ACK_SEGMENT);
    assert!(parse_frame(&raw[..14 + 39], 1).is_none());
    assert!(parse_frame(&raw[..14 + 40 + 19], 1).is_none());
    let summary = parse_frame(&raw[..14 + 40], 1);
    assert!(summary.is_none());
}

#[test]
fn arp_frame_is_skipped() {
    let mut frame = RAW_OTHER_PROTO_FRAME;
    frame[12] = 0x08;
    frame[13] = 0x06;
    assert!(parse_frame(&frame, 1).is_none());
}

#[test]
fn frame_shorter_than_ethernet_header_is_skipped() {
    assert!(parse_frame(&RAW_TCP_FRAME[..13], 1).is_none());
    assert!(parse_frame(&[], 1).is_none());
}

#[test]
fn truncated_ipv4_header_is_skipped() {
    assert!(parse_frame(&RAW_OTHER_PROTO_FRAME[..33], 1).is_none());
}

#[test]
fn truncated_tcp_header_is_skipped() {
    // Ethernet + IPv4 header + 19 of the 20 TCP header bytes.
    assert!(parse_frame(&RAW_TCP_FRAME[..14 + 20 + 19], 1).is_none());
}

#[test]
fn tcp_frame_cut_inside_payload_counts_bytes_present() {
    // Keep the full TCP header and 9 payload bytes: the IPv4 total length
    // promises more, but only what is present is counted.
    let summary = parse_frame(&RAW_TCP_FRAME[..14 + 20 + 20 + 9], 7).expect("frame should parse");
    assert_eq!(summary.protocol, Protocol::Tcp);
    assert_eq!(summary.payload_len, 9);
}

#[test]
fn syn_and_rst_flags_are_decoded() {
    let mut frame = RAW_TCP_FRAME;
    // TCP flags byte: FIN | SYN | RST
    frame[14 + 20 + 13] = 0x07;
    let summary = parse_frame(&frame, 1).expect("frame should parse");
    assert_eq!(
        summary.tcp_flags,
        Some(TcpFlags {
            syn: true,
            ack: false,
            fin: true,
            rst: true,
        })
    );
}

#[test]
fn ipv4_options_shift_the_payload() {
    // IHL 6 (24-byte header): one 4-byte option before a GRE payload of 4.
    let mut frame = Vec::from(&RAW_OTHER_PROTO_FRAME[..]);
    frame[14] = 0x46;
    frame[17] = 28;
    frame.extend_from_slice(&[1, 1, 1, 1, 9, 9, 9, 9]);
    let summary = parse_frame(&frame, 1).expect("frame should parse");
    assert_eq!(summary.protocol, Protocol::Other(47));
    assert_eq!(summary.payload_len, 4);
}

#[test]
fn timestamp_is_passed_through() {
    let summary = parse_frame(&RAW_UDP_FRAME, -5 * MICROS_PER_SEC).expect("frame should parse");
    assert_eq!(summary.timestamp_micros, -5_000_000);
}

#[test]
fn tcp_flags_default_is_all_clear() {
    assert_eq!(
        TcpFlags::default(),
        TcpFlags {
            syn: false,
            ack: false,
            fin: false,
            rst: false,
        }
    );
}

#[test]
fn ipv4_octets_round_trip() {
    assert_eq!(Ipv4Addr::new(10, 1, 2, 3).octets(), [10, 1, 2, 3]);
}
