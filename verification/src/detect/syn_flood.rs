//! SYN flood detector: alert when a destination receives more SYNs than
//! ACKs, by at least the threshold, within the window: the signature of a
//! half-open-connection flood. It counts over the flows of the table it is
//! given; a periodic report first drops the flows whose window has closed.
use vstd::prelude::*;

use crate::detect::{
    decimal, first_seen, lemma_first_seen, lemma_push_members, lemma_split_last, lemma_take_next, Alert, AlertKind,
    DetectorConfig,
};
use crate::flow::{FlowRecord, SlidingWindowCounters};
use crate::net::IpAddr;

verus! {

/// SYNs counted over all flows towards `dst`.
pub open spec fn syn_total(flows: Seq<FlowRecord>, dst: IpAddr) -> int
    decreases flows.len(),
{
    if flows.len() == 0 {
        0
    } else {
        syn_total(flows.drop_last(), dst) + if flows.last().key.dst_ip == dst {
            flows.last().syn_count as int
        } else {
            0
        }
    }
}

/// ACKs counted over all flows towards `dst`.
pub open spec fn ack_total(flows: Seq<FlowRecord>, dst: IpAddr) -> int
    decreases flows.len(),
{
    if flows.len() == 0 {
        0
    } else {
        ack_total(flows.drop_last(), dst) + if flows.last().key.dst_ip == dst {
            flows.last().ack_count as int
        } else {
            0
        }
    }
}

/// The per-destination totals fit in 64 bits, as the detector counts them.
pub open spec fn totals_fit(flows: Seq<FlowRecord>) -> bool {
    forall|d: IpAddr| #[trigger] syn_total(flows, d) <= u64::MAX && ack_total(flows, d) <= u64::MAX
}

/// The destinations of `flows`, in order of first appearance.
pub open spec fn destinations(flows: Seq<FlowRecord>) -> Seq<IpAddr> {
    first_seen(flows.map_values(|f: FlowRecord| f.key.dst_ip))
}

/// SYNs towards `dst` in excess of its ACKs, or zero when there are more ACKs.
pub open spec fn syn_excess(flows: Seq<FlowRecord>, dst: IpAddr) -> int {
    if syn_total(flows, dst) > ack_total(flows, dst) {
        syn_total(flows, dst) - ack_total(flows, dst)
    } else {
        0
    }
}

/// `dst`'s SYN excess reaches `threshold`.
pub open spec fn is_victim(flows: Seq<FlowRecord>, dst: IpAddr, threshold: u64) -> bool {
    syn_excess(flows, dst) >= threshold
}

/// The victims among `ds`, in the order of `ds`.
pub open spec fn victims_among(ds: Seq<IpAddr>, flows: Seq<FlowRecord>, threshold: u64) -> Seq<IpAddr>
    decreases ds.len(),
{
    if ds.len() == 0 {
        ds
    } else if is_victim(flows, ds.last(), threshold) {
        victims_among(ds.drop_last(), flows, threshold).push(ds.last())
    } else {
        victims_among(ds.drop_last(), flows, threshold)
    }
}

/// The destinations that `check` reports, in order of first appearance.
pub open spec fn syn_flood_targets(flows: Seq<FlowRecord>, threshold: u64) -> Seq<IpAddr> {
    victims_among(destinations(flows), flows, threshold)
}

/// The text of a SYN-flood alert's detail.
pub open spec fn syn_flood_detail(syn: u64, ack: u64) -> Seq<char> {
    decimal(syn as nat) + " SYN vs "@ + decimal(ack as nat) + " ACKS in window"@
}

/// `alerts` are the SYN-flood alerts for `flows`: one per destination whose
/// SYN excess reaches `threshold`, in order of first appearance, each
/// stamped `now` and carrying the destination's totals.
pub open spec fn reports_syn_floods(alerts: Seq<Alert>, flows: Seq<FlowRecord>, threshold: u64, now: i64) -> bool {
    &&& alerts.len() == syn_flood_targets(flows, threshold).len()
    &&& forall|i: int| 0 <= i < alerts.len() ==> {
        let d = syn_flood_targets(flows, threshold)[i];
        &&& (#[trigger] alerts[i]).kind == AlertKind::SynFlood
        &&& alerts[i].target == d
        &&& alerts[i].detected_at_micros == now
        &&& alerts[i].detail@ == syn_flood_detail(syn_total(flows, d) as u64, ack_total(flows, d) as u64)
    }
}

/// Formats the evidence of a SYN flood with `format!`.
/// Claimed: `u64` is written in decimal without sign, padding or grouping,
/// so the text is `"{syn} SYN vs {ack} ACKS in window"`.
#[verifier::external_body]
fn describe(syn: u64, ack: u64) -> (s: String)
    ensures
        s@ == syn_flood_detail(syn, ack),
{
    format!("{syn} SYN vs {ack} ACKS in window")
}

/// A prefix of the flows counts no more than all of them.
proof fn lemma_totals_prefix(flows: Seq<FlowRecord>, i: int, d: IpAddr)
    requires
        0 <= i <= flows.len(),
    ensures
        0 <= syn_total(flows.take(i), d) <= syn_total(flows, d),
        0 <= ack_total(flows.take(i), d) <= ack_total(flows, d),
    decreases flows.len(),
{
    if i == flows.len() {
        assert(flows.take(i) =~= flows);
        lemma_totals_nonneg(flows, d);
    } else {
        assert(flows.take(i) =~= flows.drop_last().take(i));
        lemma_totals_prefix(flows.drop_last(), i, d);
    }
}

proof fn lemma_totals_nonneg(flows: Seq<FlowRecord>, d: IpAddr)
    ensures
        0 <= syn_total(flows, d),
        0 <= ack_total(flows, d),
    decreases flows.len(),
{
    if flows.len() > 0 {
        lemma_totals_nonneg(flows.drop_last(), d);
    }
}

/// Flows that never go to `d` count nothing for it.
proof fn lemma_totals_absent(flows: Seq<FlowRecord>, d: IpAddr)
    requires
        forall|j: int| 0 <= j < flows.len() ==> (#[trigger] flows[j]).key.dst_ip != d,
    ensures
        syn_total(flows, d) == 0,
        ack_total(flows, d) == 0,
    decreases flows.len(),
{
    if flows.len() > 0 {
        let p = flows.drop_last();
        assert forall|j: int| 0 <= j < p.len() implies (#[trigger] p[j]).key.dst_ip != d by {
            assert(p[j] == flows[j]);
        }
        assert(flows[flows.len() - 1] == flows.last());
        lemma_totals_absent(p, d);
    }
}

/// The victims among `ds` are exactly the members of `ds` that are victims,
/// each once if `ds` has no repeats.
proof fn lemma_victims_among(ds: Seq<IpAddr>, flows: Seq<FlowRecord>, threshold: u64)
    ensures
        forall|d: IpAddr| #[trigger] victims_among(ds, flows, threshold).contains(d) <==> ds.contains(d)
            && is_victim(flows, d, threshold),
        ds.no_duplicates() ==> victims_among(ds, flows, threshold).no_duplicates(),
    decreases ds.len(),
{
    if ds.len() > 0 {
        let p = ds.drop_last();
        let l = ds.last();
        let r = victims_among(p, flows, threshold);
        lemma_victims_among(p, flows, threshold);
        lemma_split_last(ds);
        lemma_push_members(p, l);
        lemma_push_members(r, l);
    }
}

/// A SYN-flood alert names a destination exactly when some flow goes to it
/// and its SYNs exceed its ACKs by at least the threshold, and no
/// destination is named twice.
pub proof fn law_syn_flood_alerts(flows: Seq<FlowRecord>, threshold: u64)
    ensures
        forall|d: IpAddr| #[trigger] syn_flood_targets(flows, threshold).contains(d) <==> (exists|i: int|
            0 <= i < flows.len() && flows[i].key.dst_ip == d) && syn_excess(flows, d) >= threshold,
        forall|d: IpAddr| #[trigger] syn_flood_targets(flows, threshold).contains(d) <==> (exists|i: int|
            0 <= i < flows.len() && flows[i].key.dst_ip == d) && (syn_total(flows, d) - ack_total(flows, d)
            >= threshold || threshold == 0),
        syn_flood_targets(flows, threshold).no_duplicates(),
{
    law_syn_excess(flows);
    let dsts = flows.map_values(|f: FlowRecord| f.key.dst_ip);
    lemma_first_seen(dsts);
    lemma_victims_among(destinations(flows), flows, threshold);
    assert forall|d: IpAddr| dsts.contains(d) <==> (exists|i: int| 0 <= i < flows.len() && flows[i].key.dst_ip == d) by {
        if dsts.contains(d) {
            let w = choose|w: int| 0 <= w < dsts.len() && dsts[w] == d;
            assert(flows[w].key.dst_ip == d);
        }
        if exists|i: int| 0 <= i < flows.len() && flows[i].key.dst_ip == d {
            let w = choose|w: int| 0 <= w < flows.len() && flows[w].key.dst_ip == d;
            assert(dsts[w] == d);
        }
    }
}

/// The SYN excess of a destination is its SYNs minus its ACKs, and zero
/// when the ACKs are at least as many: added to the ACKs it gives back the
/// SYNs whenever the SYNs are more. So a destination is a victim exactly
/// when its SYNs outnumber its ACKs by the threshold, or the threshold is
/// zero.
pub proof fn law_syn_excess(flows: Seq<FlowRecord>)
    ensures
        forall|d: IpAddr| #![trigger syn_excess(flows, d)]
            syn_total(flows, d) > ack_total(flows, d) ==> syn_excess(flows, d) + ack_total(flows, d) == syn_total(
                flows,
                d,
            ),
        forall|d: IpAddr| #![trigger syn_excess(flows, d)]
            syn_total(flows, d) <= ack_total(flows, d) ==> syn_excess(flows, d) == 0,
        forall|d: IpAddr, threshold: u64| #[trigger] is_victim(flows, d, threshold) <==> (syn_total(flows, d)
            - ack_total(flows, d) >= threshold || threshold == 0),
{
}

/// SYNs and ACKs from every source count towards the destination: the
/// totals of a table are the sums over its flows to that destination.
pub proof fn law_totals_per_destination(flows: Seq<FlowRecord>, f: FlowRecord, d: IpAddr)
    ensures
        syn_total(flows.push(f), d) == syn_total(flows, d) + if f.key.dst_ip == d {
            f.syn_count as int
        } else {
            0int
        },
        ack_total(flows.push(f), d) == ack_total(flows, d) + if f.key.dst_ip == d {
            f.ack_count as int
        } else {
            0int
        },
{
    assert(flows.push(f).drop_last() =~= flows);
}

/// Running totals for one destination.
struct DstTotals {
    dst: IpAddr,
    syn: u64,
    ack: u64,
}

/// Sums SYNs and ACKs per destination; `None` when a total exceeds 64 bits.
fn aggregate(flows: &Vec<FlowRecord>) -> (r: Option<Vec<DstTotals>>)
    ensures
        r is Some <==> totals_fit(flows@),
        r matches Some(v) ==> {
            &&& v@.map_values(|t: DstTotals| t.dst) == destinations(flows@)
            &&& forall|j: int| 0 <= j < v@.len() ==> {
                &&& (#[trigger] v@[j]).syn == syn_total(flows@, v@[j].dst)
                &&& v@[j].ack == ack_total(flows@, v@[j].dst)
            }
        },
{
    let ghost fs = flows@;
    let ghost dsts = fs.map_values(|f: FlowRecord| f.key.dst_ip);
    let n = flows.len();
    let mut per_dst: Vec<DstTotals> = Vec::new();
    let mut i: usize = 0;
    while i < n
        invariant
            n == fs.len(),
            fs == flows@,
            dsts == fs.map_values(|f: FlowRecord| f.key.dst_ip),
            i <= n,
            per_dst@.map_values(|t: DstTotals| t.dst) == first_seen(dsts.take(i as int)),
            forall|j: int| 0 <= j < per_dst@.len() ==> {
                &&& (#[trigger] per_dst@[j]).syn == syn_total(fs.take(i as int), per_dst@[j].dst)
                &&& per_dst@[j].ack == ack_total(fs.take(i as int), per_dst@[j].dst)
            },
        decreases n - i,
    {
        let f = flows[i];
        let d = f.key.dst_ip;
        proof {
            lemma_take_next(fs, i as int);
            lemma_take_next(dsts, i as int);
            lemma_first_seen(dsts.take(i as int));
            assert(dsts.take(i as int + 1) =~= fs.take(i as int + 1).map_values(|g: FlowRecord| g.key.dst_ip));
            assert(dsts.take(i as int) =~= fs.take(i as int).map_values(|g: FlowRecord| g.key.dst_ip));
        }
        let ghost keys = per_dst@.map_values(|t: DstTotals| t.dst);
        // find the destination's running totals
        let m = per_dst.len();
        let mut j: usize = 0;
        while j < m
            invariant
                m == per_dst.len(),
                j <= m,
                keys == per_dst@.map_values(|t: DstTotals| t.dst),
                forall|k: int| 0 <= k < j ==> per_dst@[k].dst != d,
            ensures
                j <= m,
                j < m ==> per_dst@[j as int].dst == d,
                forall|k: int| 0 <= k < j ==> per_dst@[k].dst != d,
            decreases m - j,
        {
            if per_dst[j].dst == d {
                break;
            }
            j = j + 1;
        }
        if j < m {
            let old_syn = per_dst[j].syn;
            let old_ack = per_dst[j].ack;
            proof {
                assert(keys[j as int] == d);
                assert(first_seen(dsts.take(i as int)).contains(d));
                assert(first_seen(dsts.take(i as int + 1)) == first_seen(dsts.take(i as int)));
                lemma_totals_prefix(fs, i as int + 1, d);
            }
            let syn = match old_syn.checked_add(f.syn_count) {
                Some(s) => s,
                None => {
                    proof {
                        lemma_totals_prefix(fs, i as int + 1, d);
                    }
                    return None;
                },
            };
            let ack = match old_ack.checked_add(f.ack_count) {
                Some(a) => a,
                None => {
                    return None;
                },
            };
            let mut slot = DstTotals { dst: d, syn, ack };
            per_dst.set_and_swap(j, &mut slot);
            proof {
                assert(per_dst@.map_values(|t: DstTotals| t.dst) =~= keys);
                assert forall|k: int| 0 <= k < per_dst@.len() implies {
                    &&& (#[trigger] per_dst@[k]).syn == syn_total(fs.take(i as int + 1), per_dst@[k].dst)
                    &&& per_dst@[k].ack == ack_total(fs.take(i as int + 1), per_dst@[k].dst)
                } by {
                    if k != j {
                        assert(keys[k] == per_dst@[k].dst);
                        assert(keys.no_duplicates());
                    }
                }
            }
        } else {
            proof {
                assert forall|k: int| 0 <= k < keys.len() implies keys[k] != d by {
                    assert(keys[k] == per_dst@[k].dst);
                }
                assert(!first_seen(dsts.take(i as int)).contains(d));
                assert(!dsts.take(i as int).contains(d));
                assert forall|k: int| 0 <= k < i implies (#[trigger] fs.take(i as int)[k]).key.dst_ip != d by {
                    assert(dsts.take(i as int)[k] == fs[k].key.dst_ip);
                }
                lemma_totals_absent(fs.take(i as int), d);
                lemma_totals_prefix(fs, i as int + 1, d);
            }
            per_dst.push(DstTotals { dst: d, syn: f.syn_count, ack: f.ack_count });
            proof {
                assert(per_dst@.map_values(|t: DstTotals| t.dst) =~= keys.push(d));
                assert forall|k: int| 0 <= k < per_dst@.len() implies {
                    &&& (#[trigger] per_dst@[k]).syn == syn_total(fs.take(i as int + 1), per_dst@[k].dst)
                    &&& per_dst@[k].ack == ack_total(fs.take(i as int + 1), per_dst@[k].dst)
                } by {
                    if k < keys.len() {
                        assert(keys[k] == per_dst@[k].dst);
                    }
                }
            }
        }
        i = i + 1;
    }
    proof {
        assert(fs.take(n as int) =~= fs);
        assert(dsts.take(n as int) =~= dsts);
        lemma_first_seen(dsts);
        assert forall|d: IpAddr| #[trigger] syn_total(fs, d) <= u64::MAX && ack_total(fs, d) <= u64::MAX by {
            if dsts.contains(d) {
                assert(first_seen(dsts).contains(d));
                let k = choose|k: int| 0 <= k < first_seen(dsts).len() && first_seen(dsts)[k] == d;
                assert(per_dst@.map_values(|t: DstTotals| t.dst)[k] == d);
                assert(per_dst@[k].dst == d);
            } else {
                assert forall|k: int| 0 <= k < fs.len() implies (#[trigger] fs[k]).key.dst_ip != d by {
                    assert(dsts[k] == fs[k].key.dst_ip);
                }
                lemma_totals_absent(fs, d);
            }
        }
    }
    Some(per_dst)
}

/// Whether every per-destination total of the table fits in 64 bits, which
/// `check` needs.
pub fn totals_in_range(counters: &SlidingWindowCounters) -> (ok: bool)
    requires
        counters.wf(),
    ensures
        ok == totals_fit(counters.records()),
{
    let flows = counters.flows();
    aggregate(&flows).is_some()
}

/// Emits one SYN-flood alert, stamped `now_micros`, for every destination
/// whose SYNs exceed its ACKs by at least the configured threshold, in order
/// of first appearance in the flow table.
pub fn check(counters: &SlidingWindowCounters, cfg: &DetectorConfig, now_micros: i64) -> (alerts: Vec<Alert>)
    requires
        counters.wf(),
        totals_fit(counters.records()),
    ensures
        reports_syn_floods(alerts@, counters.records(), cfg.syn_without_ack_threshold, now_micros),
{
    let flows = counters.flows();
    let ghost fs = flows@;
    let per_dst = match aggregate(&flows) {
        Some(v) => v,
        None => {
            return Vec::new();
        },
    };
    let ghost ds = per_dst@.map_values(|t: DstTotals| t.dst);
    let threshold = cfg.syn_without_ack_threshold;
    let n = per_dst.len();
    let mut alerts: Vec<Alert> = Vec::new();
    let mut j: usize = 0;
    while j < n
        invariant
            n == per_dst@.len(),
            j <= n,
            fs == counters.records(),
            ds == per_dst@.map_values(|t: DstTotals| t.dst),
            ds == destinations(fs),
            forall|k: int| 0 <= k < per_dst@.len() ==> {
                &&& (#[trigger] per_dst@[k]).syn == syn_total(fs, per_dst@[k].dst)
                &&& per_dst@[k].ack == ack_total(fs, per_dst@[k].dst)
            },
            alerts@.len() == victims_among(ds.take(j as int), fs, threshold).len(),
            forall|i: int| 0 <= i < alerts@.len() ==> {
                let d = victims_among(ds.take(j as int), fs, threshold)[i];
                &&& (#[trigger] alerts@[i]).kind == AlertKind::SynFlood
                &&& alerts@[i].target == d
                &&& alerts@[i].detected_at_micros == now_micros
                &&& alerts@[i].detail@ == syn_flood_detail(syn_total(fs, d) as u64, ack_total(fs, d) as u64)
            },
        decreases n - j,
    {
        let t = &per_dst[j];
        proof {
            lemma_take_next(ds, j as int);
            assert(ds[j as int] == t.dst);
        }
        let ghost before = victims_among(ds.take(j as int), fs, threshold);
        assert(per_dst@[j as int].syn == syn_total(fs, t.dst));
        assert(per_dst@[j as int].ack == ack_total(fs, t.dst));
        if t.syn.saturating_sub(t.ack) >= threshold {
            alerts.push(Alert {
                kind: AlertKind::SynFlood,
                target: t.dst,
                detected_at_micros: now_micros,
                detail: describe(t.syn, t.ack),
            });
            proof {
                assert(ds.take(j as int + 1).last() == t.dst);
                assert(is_victim(fs, t.dst, threshold));
                assert(victims_among(ds.take(j as int + 1), fs, threshold) == before.push(t.dst));
            }
        } else {
            proof {
                assert(ds.take(j as int + 1).last() == t.dst);
                assert(!is_victim(fs, t.dst, threshold));
                assert(victims_among(ds.take(j as int + 1), fs, threshold) == before);
            }
        }
        j = j + 1;
    }
    proof {
        assert(ds.take(n as int) =~= ds);
    }
    alerts
}

} // verus!
