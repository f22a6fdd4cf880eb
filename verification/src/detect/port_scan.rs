//! Port scan detector: alert when a single source contacts at least the
//! configured number of distinct destination ports within the window. It
//! counts over the flows of the table it is given; a periodic report first
//! drops the flows whose window has closed.
use vstd::prelude::*;

use std::collections::HashSet;

use crate::detect::{
    decimal, first_seen, lemma_first_seen, lemma_push_members, lemma_split_last, lemma_take_next, Alert, AlertKind,
    DetectorConfig,
};
use crate::flow::{FlowKey, FlowStats, SlidingWindowCounters};
use crate::net::IpAddr;

verus! {

broadcast use vstd::std_specs::hash::group_hash_axioms;

/// The destination ports that `src` contacted, over all its flows in the
/// table `t`.
pub open spec fn source_ports(t: Seq<(FlowKey, FlowStats)>, src: IpAddr) -> Set<u16>
    decreases t.len(),
{
    if t.len() == 0 {
        Set::empty()
    } else if t.last().0.src_ip == src {
        source_ports(t.drop_last(), src).union(t.last().1.distinct_dst_ports)
    } else {
        source_ports(t.drop_last(), src)
    }
}

/// The sources of the table's flows, in order of first appearance.
pub open spec fn sources(t: Seq<(FlowKey, FlowStats)>) -> Seq<IpAddr> {
    first_seen(t.map_values(|e: (FlowKey, FlowStats)| e.0.src_ip))
}

/// `src` contacted at least `threshold` distinct destination ports.
pub open spec fn is_scanner(t: Seq<(FlowKey, FlowStats)>, src: IpAddr, threshold: u64) -> bool {
    source_ports(t, src).len() >= threshold
}

/// The scanners among `ss`, in the order of `ss`.
pub open spec fn scanners_among(ss: Seq<IpAddr>, t: Seq<(FlowKey, FlowStats)>, threshold: u64) -> Seq<IpAddr>
    decreases ss.len(),
{
    if ss.len() == 0 {
        ss
    } else if is_scanner(t, ss.last(), threshold) {
        scanners_among(ss.drop_last(), t, threshold).push(ss.last())
    } else {
        scanners_among(ss.drop_last(), t, threshold)
    }
}

/// The sources that `check` reports, in order of first appearance.
pub open spec fn port_scan_targets(t: Seq<(FlowKey, FlowStats)>, threshold: u64) -> Seq<IpAddr> {
    scanners_among(sources(t), t, threshold)
}

/// The text of a port-scan alert's detail.
pub open spec fn port_scan_detail(ports: usize) -> Seq<char> {
    decimal(ports as nat) + " distinct ports in window"@
}

/// `alerts` are the port-scan alerts for the table `t`: one per source that
/// contacted at least `threshold` distinct destination ports, in order of
/// first appearance, each stamped `now` and carrying that port count.
pub open spec fn reports_port_scans(alerts: Seq<Alert>, t: Seq<(FlowKey, FlowStats)>, threshold: u64, now: i64) -> bool {
    &&& alerts.len() == port_scan_targets(t, threshold).len()
    &&& forall|i: int| 0 <= i < alerts.len() ==> {
        let s = port_scan_targets(t, threshold)[i];
        &&& (#[trigger] alerts[i]).kind == AlertKind::PortScan
        &&& alerts[i].target == s
        &&& alerts[i].detected_at_micros == now
        &&& alerts[i].detail@ == port_scan_detail(source_ports(t, s).len() as usize)
    }
}

/// Formats the evidence of a port scan with `format!`.
/// Claimed: `usize` is written in decimal without sign, padding or
/// grouping, so the text is `"{ports} distinct ports in window"`.
#[verifier::external_body]
fn describe(ports: usize) -> (s: String)
    ensures
        s@ == port_scan_detail(ports),
{
    format!("{ports} distinct ports in window")
}

/// Flows that never come from `s` give it no ports.
proof fn lemma_ports_absent(t: Seq<(FlowKey, FlowStats)>, s: IpAddr)
    requires
        forall|j: int| 0 <= j < t.len() ==> (#[trigger] t[j]).0.src_ip != s,
    ensures
        source_ports(t, s) == Set::<u16>::empty(),
    decreases t.len(),
{
    if t.len() > 0 {
        let p = t.drop_last();
        assert forall|j: int| 0 <= j < p.len() implies (#[trigger] p[j]).0.src_ip != s by {
            assert(p[j] == t[j]);
        }
        assert(t[t.len() - 1] == t.last());
        lemma_ports_absent(p, s);
    }
}

/// A source's ports form a finite set when every flow's ports do.
proof fn lemma_ports_finite(t: Seq<(FlowKey, FlowStats)>, s: IpAddr)
    requires
        forall|j: int| 0 <= j < t.len() ==> (#[trigger] t[j]).1.distinct_dst_ports.finite(),
    ensures
        source_ports(t, s).finite(),
    decreases t.len(),
{
    if t.len() > 0 {
        let p = t.drop_last();
        assert forall|j: int| 0 <= j < p.len() implies (#[trigger] p[j]).1.distinct_dst_ports.finite() by {
            assert(p[j] == t[j]);
        }
        assert(t[t.len() - 1] == t.last());
        lemma_ports_finite(p, s);
    }
}

/// The scanners among `ds` are exactly the members of `ds` that are
/// scanners, each once if `ds` has no repeats.
proof fn lemma_scanners_among(ds: Seq<IpAddr>, t: Seq<(FlowKey, FlowStats)>, threshold: u64)
    ensures
        forall|d: IpAddr| #[trigger] scanners_among(ds, t, threshold).contains(d) <==> ds.contains(d)
            && is_scanner(t, d, threshold),
        ds.no_duplicates() ==> scanners_among(ds, t, threshold).no_duplicates(),
    decreases ds.len(),
{
    if ds.len() > 0 {
        let p = ds.drop_last();
        let l = ds.last();
        let r = scanners_among(p, t, threshold);
        lemma_scanners_among(p, t, threshold);
        lemma_split_last(ds);
        lemma_push_members(p, l);
        lemma_push_members(r, l);
    }
}

/// A port-scan alert names a source exactly when some flow comes from it
/// and, over all its flows, it contacted at least the threshold of distinct
/// destination ports; no source is named twice.
pub proof fn law_port_scan_alerts(t: Seq<(FlowKey, FlowStats)>, threshold: u64)
    ensures
        forall|s: IpAddr| #[trigger] port_scan_targets(t, threshold).contains(s) <==> (exists|i: int|
            0 <= i < t.len() && t[i].0.src_ip == s) && source_ports(t, s).len() >= threshold,
        port_scan_targets(t, threshold).no_duplicates(),
{
    let srcs = t.map_values(|e: (FlowKey, FlowStats)| e.0.src_ip);
    lemma_first_seen(srcs);
    lemma_scanners_among(sources(t), t, threshold);
    assert forall|s: IpAddr| srcs.contains(s) <==> (exists|i: int| 0 <= i < t.len() && t[i].0.src_ip == s) by {
        if srcs.contains(s) {
            let w = choose|w: int| 0 <= w < srcs.len() && srcs[w] == s;
            assert(t[w].0.src_ip == s);
        }
        if exists|i: int| 0 <= i < t.len() && t[i].0.src_ip == s {
            let w = choose|w: int| 0 <= w < t.len() && t[w].0.src_ip == s;
            assert(srcs[w] == s);
        }
    }
}

/// A source's ports are those of its flows: a port belongs to it exactly
/// when one of its flows touched that port.
pub proof fn law_source_ports(t: Seq<(FlowKey, FlowStats)>, s: IpAddr, port: u16)
    ensures
        source_ports(t, s).contains(port) <==> exists|i: int|
            0 <= i < t.len() && (#[trigger] t[i]).0.src_ip == s && t[i].1.distinct_dst_ports.contains(port),
    decreases t.len(),
{
    if t.len() > 0 {
        let p = t.drop_last();
        law_source_ports(p, s, port);
        if exists|i: int| 0 <= i < t.len() && (#[trigger] t[i]).0.src_ip == s && t[i].1.distinct_dst_ports.contains(port) {
            let w = choose|w: int| 0 <= w < t.len() && (#[trigger] t[w]).0.src_ip == s && t[w].1.distinct_dst_ports.contains(port);
            if w < p.len() {
                assert(p[w] == t[w]);
            }
        }
        if exists|i: int| 0 <= i < p.len() && (#[trigger] p[i]).0.src_ip == s && p[i].1.distinct_dst_ports.contains(port) {
            let w = choose|w: int| 0 <= w < p.len() && (#[trigger] p[w]).0.src_ip == s && p[w].1.distinct_dst_ports.contains(port);
            assert(t[w] == p[w]);
        }
        assert(t[t.len() - 1] == t.last());
    }
}

/// Adds every port of `ports` to `set`.
fn insert_all(set: &mut HashSet<u16>, ports: &Vec<u16>)
    ensures
        final(set)@ == old(set)@.union(ports@.to_set()),
{
    let ghost base = set@;
    let n = ports.len();
    let mut k: usize = 0;
    while k < n
        invariant
            n == ports@.len(),
            k <= n,
            set@ == base.union(ports@.take(k as int).to_set()),
        decreases n - k,
    {
        let port = ports[k];
        set.insert(port);
        proof {
            assert forall|x: u16| ports@.take(k as int + 1).to_set().contains(x) <==> (ports@.take(
                k as int,
            ).to_set().contains(x) || x == port) by {
                let a = ports@.take(k as int + 1);
                let b = ports@.take(k as int);
                if a.contains(x) {
                    let w = choose|w: int| 0 <= w < a.len() && a[w] == x;
                    if w < k {
                        assert(b[w] == x);
                    }
                }
                if b.contains(x) {
                    let w = choose|w: int| 0 <= w < b.len() && b[w] == x;
                    assert(a[w] == x);
                }
                if x == port {
                    assert(a[k as int] == x);
                }
            }
        }
        k = k + 1;
        assert(set@ =~= base.union(ports@.take(k as int).to_set()));
    }
    assert(ports@.take(n as int) =~= ports@);
}

/// The ports contacted so far by one source.
struct SrcPorts {
    src: IpAddr,
    ports: HashSet<u16>,
}

/// The set of destination ports per source.
fn aggregate(counters: &SlidingWindowCounters) -> (v: Vec<SrcPorts>)
    requires
        counters.wf(),
    ensures
        v@.map_values(|t: SrcPorts| t.src) == sources(counters.table()),
        forall|j: int| 0 <= j < v@.len() ==> (#[trigger] v@[j]).ports@ == source_ports(counters.table(), v@[j].src),
{
    let ghost t = counters.table();
    let ghost srcs = t.map_values(|e: (FlowKey, FlowStats)| e.0.src_ip);
    let flows = counters.flows();
    let n = flows.len();
    let mut per_src: Vec<SrcPorts> = Vec::new();
    let mut i: usize = 0;
    while i < n
        invariant
            counters.wf(),
            t == counters.table(),
            flows@ == counters.records(),
            n == t.len(),
            srcs == t.map_values(|e: (FlowKey, FlowStats)| e.0.src_ip),
            i <= n,
            per_src@.map_values(|e: SrcPorts| e.src) == first_seen(srcs.take(i as int)),
            forall|j: int| 0 <= j < per_src@.len() ==> (#[trigger] per_src@[j]).ports@ == source_ports(
                t.take(i as int),
                per_src@[j].src,
            ),
        decreases n - i,
    {
        let s = flows[i].key.src_ip;
        let ports = counters.dst_ports_at(i);
        proof {
            assert(s == t[i as int].0.src_ip);
            lemma_take_next(t, i as int);
            lemma_take_next(srcs, i as int);
            lemma_first_seen(srcs.take(i as int));
            assert(srcs.take(i as int) =~= t.take(i as int).map_values(|e: (FlowKey, FlowStats)| e.0.src_ip));
        }
        let ghost keys = per_src@.map_values(|e: SrcPorts| e.src);
        let m = per_src.len();
        let mut j: usize = 0;
        while j < m
            invariant
                m == per_src.len(),
                j <= m,
                keys == per_src@.map_values(|e: SrcPorts| e.src),
                forall|k: int| 0 <= k < j ==> per_src@[k].src != s,
            ensures
                j <= m,
                j < m ==> per_src@[j as int].src == s,
                forall|k: int| 0 <= k < j ==> per_src@[k].src != s,
            decreases m - j,
        {
            if per_src[j].src == s {
                break;
            }
            j = j + 1;
        }
        if j < m {
            proof {
                assert(keys[j as int] == s);
                assert(first_seen(srcs.take(i as int)).contains(s));
                assert(first_seen(srcs.take(i as int + 1)) == first_seen(srcs.take(i as int)));
            }
            let mut slot = SrcPorts { src: s, ports: HashSet::new() };
            per_src.set_and_swap(j, &mut slot);
            insert_all(&mut slot.ports, &ports);
            per_src.set_and_swap(j, &mut slot);
            proof {
                assert(per_src@.map_values(|e: SrcPorts| e.src) =~= keys);
                assert forall|k: int| 0 <= k < per_src@.len() implies (#[trigger] per_src@[k]).ports@
                    == source_ports(t.take(i as int + 1), per_src@[k].src) by {
                    if k != j {
                        assert(keys[k] == per_src@[k].src);
                        assert(keys.no_duplicates());
                    }
                }
            }
        } else {
            proof {
                assert forall|k: int| 0 <= k < keys.len() implies keys[k] != s by {
                    assert(keys[k] == per_src@[k].src);
                }
                assert(!first_seen(srcs.take(i as int)).contains(s));
                assert(!srcs.take(i as int).contains(s));
                assert forall|k: int| 0 <= k < i implies (#[trigger] t.take(i as int)[k]).0.src_ip != s by {
                    assert(srcs.take(i as int)[k] == t[k].0.src_ip);
                }
                lemma_ports_absent(t.take(i as int), s);
            }
            let mut set: HashSet<u16> = HashSet::new();
            insert_all(&mut set, &ports);
            per_src.push(SrcPorts { src: s, ports: set });
            proof {
                assert(per_src@.map_values(|e: SrcPorts| e.src) =~= keys.push(s));
                assert(Set::<u16>::empty().union(t[i as int].1.distinct_dst_ports) =~= t[i as int].1.distinct_dst_ports);
                assert forall|k: int| 0 <= k < per_src@.len() implies (#[trigger] per_src@[k]).ports@
                    == source_ports(t.take(i as int + 1), per_src@[k].src) by {
                    if k < keys.len() {
                        assert(keys[k] == per_src@[k].src);
                    }
                }
            }
        }
        i = i + 1;
    }
    proof {
        assert(t.take(n as int) =~= t);
        assert(srcs.take(n as int) =~= srcs);
    }
    per_src
}

/// Emits one port-scan alert, stamped `now_micros`, for every source that
/// contacted at least the configured number of distinct destination ports
/// over its flows, in order of first appearance in the flow table.
pub fn check(counters: &SlidingWindowCounters, cfg: &DetectorConfig, now_micros: i64) -> (alerts: Vec<Alert>)
    requires
        counters.wf(),
    ensures
        reports_port_scans(alerts@, counters.table(), cfg.distinct_ports_threshold, now_micros),
{
    let ghost t = counters.table();
    let per_src = aggregate(counters);
    let ghost ss = per_src@.map_values(|e: SrcPorts| e.src);
    let threshold = cfg.distinct_ports_threshold;
    let n = per_src.len();
    let mut alerts: Vec<Alert> = Vec::new();
    let mut j: usize = 0;
    while j < n
        invariant
            n == per_src@.len(),
            j <= n,
            t == counters.table(),
            ss == per_src@.map_values(|e: SrcPorts| e.src),
            ss == sources(t),
            forall|k: int| 0 <= k < per_src@.len() ==> (#[trigger] per_src@[k]).ports@ == source_ports(
                t,
                per_src@[k].src,
            ),
            alerts@.len() == scanners_among(ss.take(j as int), t, threshold).len(),
            forall|i: int| 0 <= i < alerts@.len() ==> {
                let s = scanners_among(ss.take(j as int), t, threshold)[i];
                &&& (#[trigger] alerts@[i]).kind == AlertKind::PortScan
                &&& alerts@[i].target == s
                &&& alerts@[i].detected_at_micros == now_micros
                &&& alerts@[i].detail@ == port_scan_detail(source_ports(t, s).len() as usize)
            },
        decreases n - j,
    {
        let entry = &per_src[j];
        proof {
            lemma_take_next(ss, j as int);
            assert(ss[j as int] == entry.src);
        }
        let ghost before = scanners_among(ss.take(j as int), t, threshold);
        assert(per_src@[j as int].ports@ == source_ports(t, entry.src));
        let count = entry.ports.len();
        if count as u64 >= threshold {
            alerts.push(Alert {
                kind: AlertKind::PortScan,
                target: entry.src,
                detected_at_micros: now_micros,
                detail: describe(count),
            });
            proof {
                assert(ss.take(j as int + 1).last() == entry.src);
                assert(is_scanner(t, entry.src, threshold));
                assert(scanners_among(ss.take(j as int + 1), t, threshold) == before.push(entry.src));
            }
        } else {
            proof {
                assert(ss.take(j as int + 1).last() == entry.src);
                assert(!is_scanner(t, entry.src, threshold));
                assert(scanners_among(ss.take(j as int + 1), t, threshold) == before);
            }
        }
        j = j + 1;
    }
    proof {
        assert(ss.take(n as int) =~= ss);
    }
    alerts
}

} // verus!
