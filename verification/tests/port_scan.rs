use rustsentry::detect::port_scan::check;
use rustsentry::detect::{AlertKind, DetectorConfig};
use rustsentry::flow::{FlowKey, SlidingWindowCounters};
use rustsentry::net::{IpAddr, Ipv4Addr};
use rustsentry::parser::{PacketSummary, Protocol, TcpFlags};

fn cfg(threshold: u64) -> DetectorConfig {
    DetectorConfig {
        window_secs: 10,
        syn_without_ack_threshold: 1_000,
        distinct_ports_threshold: threshold,
        dump_interval_secs: 5,
    }
}

fn ip(last: u8) -> IpAddr {
    IpAddr::V4(Ipv4Addr::new(192, 168, 1, last))
}

fn probe(src: u8, dst: u8, port: u16) -> PacketSummary {
    PacketSummary {
        timestamp_micros: 1_000,
        src_ip: ip(src),
        dst_ip: ip(dst),
        src_port: Some(50_000),
        dst_port: Some(port),
        protocol: Protocol::Tcp,
        tcp_flags: Some(TcpFlags {
            syn: true,
            ack: false,
            fin: false,
            rst: false,
        }),
        payload_len: 0,
    }
}

fn feed(counters: &mut SlidingWindowCounters, p: &PacketSummary) {
    let key = FlowKey {
        src_ip: p.src_ip,
        dst_ip: p.dst_ip,
        protocol: p.protocol,
    };
    counters.record(key, p);
}

#[test]
fn port_scan_below_threshold_no_alert() {
    let mut counters = SlidingWindowCounters::new(10);
    for port in 20..24 {
        feed(&mut counters, &probe(1, 2, port));
    }
    assert!(check(&counters, &cfg(5), 9).is_empty());
}

#[test]
fn many_ports_one_host_alerts_on_scanner() {
    let mut counters = SlidingWindowCounters::new(10);
    for port in 1..=10 {
        feed(&mut counters, &probe(1, 2, port));
    }
    let alerts = check(&counters, &cfg(5), 9);
    assert_eq!(alerts.len(), 1);
    assert_eq!(alerts[0].kind, AlertKind::PortScan);
    assert_eq!(alerts[0].target, ip(1));
    assert_eq!(alerts[0].detected_at_micros, 9);
    assert_eq!(alerts[0].detail, "10 distinct ports in window");
}

#[test]
fn same_port_many_hosts_no_alert() {
    let mut counters = SlidingWindowCounters::new(10);
    for host in 2..12 {
        feed(&mut counters, &probe(1, host, 80));
    }
    assert_eq!(counters.flow_count(), 10);
    assert!(check(&counters, &cfg(5), 9).is_empty());
}

#[test]
fn exactly_at_threshold_alerts() {
    let mut counters = SlidingWindowCounters::new(10);
    for port in 100..105 {
        feed(&mut counters, &probe(3, 4, port));
    }
    let alerts = check(&counters, &cfg(5), 1);
    assert_eq!(alerts.len(), 1);
    assert_eq!(alerts[0].target, ip(3));
    assert_eq!(alerts[0].detail, "5 distinct ports in window");
}

#[test]
fn repeated_port_counts_once() {
    let mut counters = SlidingWindowCounters::new(10);
    for _ in 0..10 {
        feed(&mut counters, &probe(1, 2, 443));
    }
    assert!(check(&counters, &cfg(2), 0).is_empty());
    assert_eq!(check(&counters, &cfg(1), 0).len(), 1);
}

#[test]
fn ports_are_counted_across_all_flows_of_a_source() {
    let mut counters = SlidingWindowCounters::new(10);
    for port in 1..=3 {
        feed(&mut counters, &probe(1, 2, port));
    }
    for port in 3..=6 {
        feed(&mut counters, &probe(1, 3, port));
    }
    // Ports 1..=6 over two hosts: six distinct ports from one source.
    let alerts = check(&counters, &cfg(6), 0);
    assert_eq!(alerts.len(), 1);
    assert_eq!(alerts[0].target, ip(1));
    assert_eq!(alerts[0].detail, "6 distinct ports in window");
    assert!(check(&counters, &cfg(7), 0).is_empty());
}

#[test]
fn scanners_are_reported_in_order_of_first_appearance() {
    let mut counters = SlidingWindowCounters::new(10);
    for port in 1..=2 {
        feed(&mut counters, &probe(9, 2, port));
    }
    for port in 1..=2 {
        feed(&mut counters, &probe(4, 2, port));
    }
    feed(&mut counters, &probe(5, 2, 1));
    let alerts = check(&counters, &cfg(2), 0);
    assert_eq!(alerts.len(), 2);
    assert_eq!(alerts[0].target, ip(9));
    assert_eq!(alerts[1].target, ip(4));
}
