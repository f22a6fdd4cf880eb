//! Flow-based network anomaly detection: frame dissection, per-flow
//! counters and threshold detectors for SYN floods and port scans.
pub mod net;
pub mod wire;
pub mod parser;
pub mod flow;
pub mod detect;
pub mod capture;
pub mod monitor;
pub mod clock;
