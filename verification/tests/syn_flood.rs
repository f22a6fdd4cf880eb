use rustsentry::detect::syn_flood::{check, totals_in_range};
use rustsentry::detect::{AlertKind, DetectorConfig};
use rustsentry::flow::{FlowKey, SlidingWindowCounters};
use rustsentry::net::{IpAddr, Ipv4Addr};
use rustsentry::parser::{PacketSummary, Protocol, TcpFlags};

fn cfg(threshold: u64) -> DetectorConfig {
    DetectorConfig {
        window_secs: 10,
        syn_without_ack_threshold: threshold,
        distinct_ports_threshold: 100,
        dump_interval_secs: 5,
    }
}

fn ip(last: u8) -> IpAddr {
    IpAddr::V4(Ipv4Addr::new(10, 0, 0, last))
}

fn segment(src: u8, dst: u8, syn: bool, ack: bool) -> PacketSummary {
    PacketSummary {
        timestamp_micros: 1_000,
        src_ip: ip(src),
        dst_ip: ip(dst),
        src_port: Some(40_000),
        dst_port: Some(80),
        protocol: Protocol::Tcp,
        tcp_flags: Some(TcpFlags {
            syn,
            ack,
            fin: false,
            rst: false,
        }),
        payload_len: 0,
    }
}

fn feed(counters: &mut SlidingWindowCounters, p: &PacketSummary, times: usize) {
    let key = FlowKey {
        src_ip: p.src_ip,
        dst_ip: p.dst_ip,
        protocol: p.protocol,
    };
    for _ in 0..times {
        counters.record(key, p);
    }
}

#[test]
fn syn_flood_below_threshold_no_alert() {
    let mut counters = SlidingWindowCounters::new(10);
    feed(&mut counters, &segment(1, 2, true, false), 4);
    assert!(check(&counters, &cfg(5), 42).is_empty());
}

#[test]
fn at_threshold_alerts_on_victim() {
    let mut counters = SlidingWindowCounters::new(10);
    feed(&mut counters, &segment(1, 2, true, false), 5);
    let alerts = check(&counters, &cfg(5), 42);
    assert_eq!(alerts.len(), 1);
    assert_eq!(alerts[0].kind, AlertKind::SynFlood);
    assert_eq!(alerts[0].target, ip(2));
    assert_eq!(alerts[0].detected_at_micros, 42);
    assert_eq!(alerts[0].detail, "5 SYN vs 0 ACKS in window");
}

#[test]
fn distributed_sources_aggregate_per_destination() {
    let mut counters = SlidingWindowCounters::new(10);
    for src in 10..15 {
        feed(&mut counters, &segment(src, 2, true, false), 1);
    }
    assert_eq!(counters.flow_count(), 5);
    let alerts = check(&counters, &cfg(5), 7);
    assert_eq!(alerts.len(), 1);
    assert_eq!(alerts[0].target, ip(2));
    assert_eq!(alerts[0].detail, "5 SYN vs 0 ACKS in window");
}

#[test]
fn balanced_handshakes_no_alert() {
    let mut counters = SlidingWindowCounters::new(10);
    feed(&mut counters, &segment(1, 2, true, false), 10);
    feed(&mut counters, &segment(3, 2, false, true), 10);
    assert!(check(&counters, &cfg(1), 0).is_empty());
}

#[test]
fn only_victim_over_threshold_alerts() {
    let mut counters = SlidingWindowCounters::new(10);
    feed(&mut counters, &segment(1, 2, true, false), 6);
    feed(&mut counters, &segment(1, 3, true, false), 2);
    feed(&mut counters, &segment(4, 3, false, true), 1);
    let alerts = check(&counters, &cfg(5), 0);
    assert_eq!(alerts.len(), 1);
    assert_eq!(alerts[0].target, ip(2));
    assert_eq!(alerts[0].detail, "6 SYN vs 0 ACKS in window");
}

#[test]
fn more_acks_than_syns_saturates_at_zero() {
    let mut counters = SlidingWindowCounters::new(10);
    feed(&mut counters, &segment(1, 2, true, false), 1);
    feed(&mut counters, &segment(1, 2, false, true), 3);
    assert!(check(&counters, &cfg(1), 0).is_empty());
    // A zero threshold reports every destination, even one with more ACKs.
    let alerts = check(&counters, &cfg(0), 0);
    assert_eq!(alerts.len(), 1);
    assert_eq!(alerts[0].detail, "1 SYN vs 3 ACKS in window");
}

#[test]
fn alerts_follow_first_appearance_of_destinations() {
    let mut counters = SlidingWindowCounters::new(10);
    feed(&mut counters, &segment(1, 7, true, false), 3);
    feed(&mut counters, &segment(1, 5, true, false), 3);
    feed(&mut counters, &segment(2, 7, true, false), 1);
    let alerts = check(&counters, &cfg(3), 0);
    assert_eq!(alerts.len(), 2);
    assert_eq!(alerts[0].target, ip(7));
    assert_eq!(alerts[0].detail, "4 SYN vs 0 ACKS in window");
    assert_eq!(alerts[1].target, ip(5));
}

#[test]
fn empty_table_raises_nothing() {
    let counters = SlidingWindowCounters::new(10);
    assert!(totals_in_range(&counters));
    assert!(check(&counters, &cfg(0), 0).is_empty());
}

#[test]
fn totals_in_range_on_small_table() {
    let mut counters = SlidingWindowCounters::new(10);
    let p = segment(1, 2, true, false);
    feed(&mut counters, &p, 1);
    assert!(totals_in_range(&counters));
}
