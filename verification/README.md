# rustsentry

A flow-based network anomaly detector. Captured Ethernet frames are
dissected into packet summaries and counted into per-flow windowed counters,
which threshold detectors for SYN floods and port scans check periodically.

Each flow counts its packets inside one time window. The window opens at the
flow's first packet; a packet that arrives after the window has closed (it
opened, or the flow was last seen, more than one window length earlier)
starts a new window from that packet alone. Before every report, flows whose
window has closed are dropped, so a report only counts packets of windows
still open at report time.

The library under `src/` states its behaviour as contracts and proves them:

- `net`: IP addresses of both families as plain values.
- `wire`: Ethernet, IPv4, IPv6, TCP, UDP, ICMP and ICMPv6 header dissection
  through `pnet`, with contracts stating what is read from the bytes.
- `parser`: `parse_frame`, whose result is specified exactly over the bytes.
- `flow`: the flow table, specified as a map from flow key to counters.
- `detect`: the SYN-flood and port-scan detectors and the alert type.
- `capture`: captured frames and the frame-source interface.
- `monitor`: the pipeline's decisions: what is counted, when a report is
  due, and what a report holds.
- `clock`: the report header's timestamp label, rendered by `chrono`.

The program under `app/` parses arguments, reads the thresholds file, drives
libpcap for live capture or file replay, and prints reports.
