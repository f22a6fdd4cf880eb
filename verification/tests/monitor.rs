use rustsentry::capture::{capture_timestamp_micros, RawFrame};
use rustsentry::detect::ml_classifier::{train_model, ClassifierError, MlClassifier};
use rustsentry::detect::{AlertKind, DetectorConfig};
use rustsentry::flow::{FlowKey, SlidingWindowCounters};
use rustsentry::monitor::{is_due, tick, Monitor, MonitorError};
use rustsentry::net::{IpAddr, Ipv4Addr};
use rustsentry::parser::{PacketSummary, Protocol, TcpFlags};

fn cfg() -> DetectorConfig {
    DetectorConfig {
        window_secs: 10,
        syn_without_ack_threshold: 2,
        distinct_ports_threshold: 3,
        dump_interval_secs: 5,
    }
}

/// Ethernet + IPv4 + TCP SYN from 10.0.0.1:4000 to 10.0.0.2:`port`.
fn syn_frame(port: u16, timestamp_micros: i64) -> RawFrame {
    let mut data = vec![
        0, 1, 2, 3, 4, 5, 6, 7, 8, 9, 10, 11, 0x08, 0x00, // Ethernet
        0x45, 0, 0, 40, 0, 0, 0, 0, 64, 6, 0, 0, 10, 0, 0, 1, 10, 0, 0, 2, // IPv4
        0x0f, 0xa0, 0, 0, 0, 0, 0, 0, 0, 0, 0, 0, 0x50, 0x02, 0x20, 0, 0, 0, 0, 0, // TCP
    ];
    data[36] = (port >> 8) as u8;
    data[37] = port as u8;
    RawFrame {
        timestamp_micros,
        data,
    }
}

#[test]
fn is_due_first_call_schedules_one_interval_ahead() {
    let mut next = None;
    assert!(!is_due(&mut next, 10, 100));
    assert_eq!(next, Some(110));
    assert!(!is_due(&mut next, 10, 109));
    assert_eq!(next, Some(110));
    assert!(is_due(&mut next, 10, 110));
    assert_eq!(next, Some(120));
}

#[test]
fn is_due_advances_from_the_due_time_not_from_now() {
    let mut next = Some(50);
    assert!(is_due(&mut next, 10, 95));
    assert_eq!(next, Some(60));
    assert!(is_due(&mut next, 10, 95));
    assert_eq!(next, Some(70));
}

fn syn_packet(timestamp_micros: i64) -> PacketSummary {
    PacketSummary {
        timestamp_micros,
        src_ip: IpAddr::V4(Ipv4Addr::new(10, 0, 0, 1)),
        dst_ip: IpAddr::V4(Ipv4Addr::new(10, 0, 0, 2)),
        src_port: Some(1),
        dst_port: Some(80),
        protocol: Protocol::Tcp,
        tcp_flags: Some(TcpFlags {
            syn: true,
            ..TcpFlags::default()
        }),
        payload_len: 3,
    }
}

fn syn_key() -> FlowKey {
    let p = syn_packet(0);
    FlowKey {
        src_ip: p.src_ip,
        dst_ip: p.dst_ip,
        protocol: p.protocol,
    }
}

#[test]
fn tick_reports_flows_whose_window_is_open() {
    let mut counters = SlidingWindowCounters::new(10);
    counters.record(syn_key(), &syn_packet(0));
    counters.record(syn_key(), &syn_packet(0));
    let report = tick(&mut counters, &cfg(), 5_000_000);
    assert_eq!(report.now_micros, 5_000_000);
    assert_eq!(report.flows.len(), 1);
    assert_eq!(report.flows[0].syn_count, 2);
    assert_eq!(report.syn_flood_alerts.len(), 1);
    assert_eq!(report.syn_flood_alerts[0].kind, AlertKind::SynFlood);
    assert!(report.port_scan_alerts.is_empty());
    assert_eq!(counters.flow_count(), 1);
}

#[test]
fn tick_evicts_closed_windows_before_reporting() {
    // 1 s window: by 5 s the SYNs at 0 s no longer count.
    let mut counters = SlidingWindowCounters::new(1);
    counters.record(syn_key(), &syn_packet(0));
    counters.record(syn_key(), &syn_packet(0));
    let report = tick(&mut counters, &cfg(), 5_000_000);
    assert_eq!(report.now_micros, 5_000_000);
    assert!(report.flows.is_empty());
    assert!(report.syn_flood_alerts.is_empty());
    assert!(report.port_scan_alerts.is_empty());
    assert_eq!(counters.flow_count(), 0);
}

#[test]
fn monitor_counts_frames_and_reports_when_due() {
    let mut monitor = Monitor::new(cfg()).expect("interval fits");
    assert!(monitor.on_frame(&syn_frame(22, 1_000_000)).unwrap().is_none());
    assert!(monitor.on_frame(&syn_frame(23, 2_000_000)).unwrap().is_none());
    assert_eq!(monitor.counters().flow_count(), 1);
    let report = monitor
        .on_frame(&syn_frame(24, 6_000_000))
        .unwrap()
        .expect("report due five seconds after the first frame");
    assert_eq!(report.now_micros, 6_000_000);
    assert_eq!(report.flows[0].packet_count, 3);
    assert_eq!(report.flows[0].distinct_dst_ports, 3);
    assert_eq!(report.syn_flood_alerts.len(), 1);
    assert_eq!(report.syn_flood_alerts[0].detail, "3 SYN vs 0 ACKS in window");
    assert_eq!(report.port_scan_alerts.len(), 1);
    assert_eq!(report.port_scan_alerts[0].target, IpAddr::V4(Ipv4Addr::new(10, 0, 0, 1)));
    assert_eq!(report.port_scan_alerts[0].detail, "3 distinct ports in window");
}

#[test]
fn monitor_ignores_frames_that_do_not_dissect() {
    let mut monitor = Monitor::new(cfg()).expect("interval fits");
    let frame = RawFrame {
        timestamp_micros: 1,
        data: vec![0; 10],
    };
    assert!(monitor.on_frame(&frame).unwrap().is_none());
    assert_eq!(monitor.counters().flow_count(), 0);
}

#[test]
fn monitor_idle_reports_on_wall_clock() {
    let mut monitor = Monitor::new(cfg()).expect("interval fits");
    assert!(monitor.on_frame(&syn_frame(22, 1_000_000)).unwrap().is_none());
    assert!(monitor.on_idle(3_000_000).unwrap().is_none());
    let report = monitor.on_idle(30_000_000).unwrap().expect("report due");
    // The flow was last seen 29 s before the report: past the 10 s window,
    // so it is dropped and the report counts nothing.
    assert!(report.flows.is_empty());
    assert!(report.syn_flood_alerts.is_empty());
    assert_eq!(monitor.counters().flow_count(), 0);
}

#[test]
fn monitor_rejects_an_interval_that_overflows() {
    let config = DetectorConfig {
        dump_interval_secs: u64::MAX / 2,
        ..cfg()
    };
    assert_eq!(Monitor::new(config).err(), Some(MonitorError::IntervalOverflow));
}

#[test]
fn monitor_reports_schedule_overflow() {
    let mut monitor = Monitor::new(cfg()).expect("interval fits");
    assert_eq!(monitor.on_idle(i64::MAX).err(), Some(MonitorError::ScheduleOverflow));
}

#[test]
fn capture_timestamp_combines_seconds_and_micros() {
    assert_eq!(capture_timestamp_micros(1_445_000_000, 123_456), Some(1_445_000_000_123_456));
    assert_eq!(capture_timestamp_micros(-1, 500_000), Some(-500_000));
    assert_eq!(capture_timestamp_micros(i64::MAX / 1_000, 0), None);
    assert_eq!(capture_timestamp_micros(9_223_372_036_854, 775_808), None);
    assert_eq!(capture_timestamp_micros(9_223_372_036_854, 775_807), Some(i64::MAX));
}

#[test]
fn classifier_has_no_model_yet() {
    assert_eq!(MlClassifier::load("model.bin").err(), Some(ClassifierError::NoModel));
    assert_eq!(train_model("data.csv", "model.bin"), Err(ClassifierError::NoModel));
    let counters = SlidingWindowCounters::new(10);
    assert_eq!(MlClassifier {}.check(&counters).err(), Some(ClassifierError::NoModel));
}

#[test]
fn repeated_checks_at_one_time_catch_up_then_stop() {
    // Due at 50, interval 10, asked at 95: due at 50, 60, 70, 80, 90.
    let mut next = Some(50);
    for _ in 0..5 {
        assert!(is_due(&mut next, 10, 95));
    }
    assert!(!is_due(&mut next, 10, 95));
    assert_eq!(next, Some(100));
}

#[test]
fn monitor_reports_once_per_interval() {
    let mut monitor = Monitor::new(cfg()).expect("interval fits");
    assert!(monitor.on_frame(&syn_frame(22, 1_000_000)).unwrap().is_none());
    assert!(monitor.on_frame(&syn_frame(22, 6_000_000)).unwrap().is_some());
    // The next report is due at 11 s, not at every later frame.
    assert!(monitor.on_frame(&syn_frame(22, 7_000_000)).unwrap().is_none());
    assert!(monitor.on_idle(10_999_999).unwrap().is_none());
    assert!(monitor.on_idle(11_000_000).unwrap().is_some());
    assert!(monitor.on_idle(11_000_001).unwrap().is_none());
}

#[test]
fn monitor_idle_report_evicts_only_stale_flows() {
    let mut monitor = Monitor::new(cfg()).expect("interval fits");
    assert!(monitor.on_frame(&syn_frame(22, 1_000_000)).unwrap().is_none());
    // Due at 6 s; the flow was seen 5 s earlier, inside the 10 s window.
    let report = monitor.on_idle(6_000_000).unwrap().expect("report due");
    assert_eq!(report.flows.len(), 1);
    assert_eq!(monitor.counters().flow_count(), 1);
}
